//! Text helpers over the UTF-8 bytes of a string.
use vstd::prelude::*;
use vstd::utf8::{
    encode_utf8,
    encode_utf8_decode_utf8,
    encode_utf8_valid_utf8,
    is_char_boundary,
    is_char_boundary_iff_not_is_continuation_byte,
    is_char_boundary_start_end_of_seq,
    valid_utf8,
    valid_utf8_split,
};

verus! {

/// Whether two strings hold the same characters.
pub fn same_text(a: &str, b: &str) -> (r: bool)
    ensures
        r == (a@ == b@),
{
    let x = a.as_bytes();
    let y = b.as_bytes();
    proof {
        encode_utf8_decode_utf8(a@);
        encode_utf8_decode_utf8(b@);
    }
    if x.len() != y.len() {
        return false;
    }
    let mut i: usize = 0;
    while i < x.len()
        invariant
            0 <= i <= x@.len(),
            x@.len() == y@.len(),
            x@ == vstd::utf8::encode_utf8(a@),
            y@ == vstd::utf8::encode_utf8(b@),
            forall|j: int| 0 <= j < i ==> x@[j] == y@[j],
        decreases x@.len() - i,
    {
        if x[i] != y[i] {
            return false;
        }
        i = i + 1;
    }
    assert(x@ =~= y@);
    assert(a@ == b@) by {
        encode_utf8_decode_utf8(a@);
        encode_utf8_decode_utf8(b@);
    }
    true
}

/// The byte of an ASCII space.
pub const SPACE: u8 = 32;

/// Index of the first space in `s`, or its length when it holds none.
pub open spec fn space_index(s: Seq<u8>) -> int
    decreases s.len(),
{
    if s.len() == 0 {
        0
    } else if s[0] == SPACE {
        0
    } else {
        1 + space_index(s.drop_first())
    }
}

/// The pieces of `s` between single spaces, in order; no space yields one piece.
pub open spec fn split_spaces(s: Seq<u8>) -> Seq<Seq<u8>>
    decreases s.len(),
{
    let k = space_index(s);
    if k < 0 || k >= s.len() {
        seq![s]
    } else {
        seq![s.subrange(0, k)] + split_spaces(s.subrange(k + 1, s.len() as int))
    }
}

proof fn lemma_space_index(s: Seq<u8>, k: int)
    requires
        0 <= k <= s.len(),
        forall|j: int| 0 <= j < k ==> s[j] != SPACE,
        k == s.len() || s[k] == SPACE,
    ensures
        space_index(s) == k,
        0 <= space_index(s) <= s.len(),
    decreases s.len(),
{
    if s.len() > 0 && s[0] != SPACE {
        lemma_space_index(s.drop_first(), k - 1);
    }
}

/// Around an ASCII byte of valid UTF-8 text lie character boundaries.
pub proof fn lemma_ascii_boundaries(b: Seq<u8>, i: int)
    requires
        valid_utf8(b),
        0 <= i < b.len(),
        b[i] < 0x80,
    ensures
        is_char_boundary(b, i),
        is_char_boundary(b, i + 1),
{
    is_char_boundary_iff_not_is_continuation_byte(b, i);
    is_char_boundary_start_end_of_seq(b);
    if i + 1 < b.len() {
        valid_utf8_split(b, i);
        let rest = b.subrange(i, b.len() as int);
        assert(rest[0] == b[i]);
        assert(valid_utf8(rest));
        reveal_with_fuel(valid_utf8, 2);
        let rest2 = rest.subrange(1, rest.len() as int);
        assert(rest2[0] == b[i + 1]);
        assert(valid_utf8(rest2));
        is_char_boundary_iff_not_is_continuation_byte(b, i + 1);
    }
}

/// Splits `s` at every space, as `str::split(' ')` does.
pub fn split_on_spaces<'a>(s: &'a str) -> (r: Vec<&'a str>)
    ensures
        r@.map_values(|t: &str| encode_utf8(t@)) == split_spaces(encode_utf8(s@)),
{
    let mut r: Vec<&'a str> = Vec::new();
    let mut rest: &'a str = s;
    proof {
        encode_utf8_valid_utf8(s@);
    }
    loop
        invariant
            valid_utf8(encode_utf8(rest@)),
            r@.map_values(|t: &str| encode_utf8(t@)) + split_spaces(encode_utf8(rest@)) == split_spaces(
                encode_utf8(s@),
            ),
        decreases encode_utf8(rest@).len(),
    {
        let bytes = rest.as_bytes();
        let ghost rb = bytes@;
        let mut k: usize = 0;
        while k < bytes.len() && bytes[k] != SPACE
            invariant
                0 <= k <= bytes@.len(),
                bytes@ == rb,
                forall|j: int| 0 <= j < k ==> bytes@[j] != SPACE,
            decreases bytes@.len() - k,
        {
            k = k + 1;
        }
        proof {
            lemma_space_index(rb, k as int);
        }
        if k == bytes.len() {
            let ghost before = r@;
            r.push(rest);
            proof {
                assert(split_spaces(rb) == seq![rb]);
                assert(r@.map_values(|t: &str| encode_utf8(t@)) =~= before.map_values(
                    |t: &str| encode_utf8(t@),
                ) + seq![rb]);
            }
            return r;
        }
        proof {
            lemma_ascii_boundaries(rb, k as int);
        }
        let (token, tail) = rest.split_at(k);
        proof {
            valid_utf8_split(rb, k as int);
            encode_utf8_decode_utf8(token@);
            encode_utf8_decode_utf8(tail@);
            assert(encode_utf8(tail@) =~= rb.subrange(k as int, rb.len() as int));
            assert(encode_utf8(tail@)[0] == SPACE);
            is_char_boundary_start_end_of_seq(encode_utf8(tail@));
            lemma_ascii_boundaries(encode_utf8(tail@), 0);
        }
        let (_, after) = tail.split_at(1);
        proof {
            let tb = encode_utf8(tail@);
            valid_utf8_split(tb, 1);
            encode_utf8_decode_utf8(after@);
            assert(encode_utf8(after@) =~= rb.subrange(k + 1, rb.len() as int));
        }
        let ghost before = r@;
        r.push(token);
        proof {
            assert(split_spaces(rb) == seq![rb.subrange(0, k as int)] + split_spaces(
                rb.subrange(k + 1, rb.len() as int),
            ));
            assert(r@.map_values(|t: &str| encode_utf8(t@)) =~= before.map_values(
                |t: &str| encode_utf8(t@),
            ) + seq![rb.subrange(0, k as int)]);
        }
        rest = after;
    }
}

} // verus!
