//! Decoding of the raw text buffers that hold a deck's track identity and the
//! path of its analysis file.
use vstd::prelude::*;
use vstd::string::StringExecFns;
use vstd::utf8::{
    decode_utf8,
    decode_utf8_encode_utf8,
    encode_utf8,
    encode_utf8_decode_utf8,
    encode_utf8_valid_utf8,
    is_char_boundary,
    is_char_boundary_iff_not_is_continuation_byte,
    is_char_boundary_start_end_of_seq,
    valid_utf8,
    valid_utf8_split,
};
use crate::source::{AnlzFile, TrackInfo};
use crate::text::lemma_ascii_boundaries;

verus! {

pub const NEWLINE: u8 = 10;

pub const CARRIAGE_RETURN: u8 = 13;

pub const COLON: u8 = 58;

/// The bytes before the first NUL byte.
pub open spec fn until_nul(b: Seq<u8>) -> Seq<u8>
    decreases b.len(),
{
    if b.len() == 0 || b[0] == 0 {
        Seq::empty()
    } else {
        seq![b[0]] + until_nul(b.drop_first())
    }
}

/// Index of the first newline in `s`, or its length when it holds none.
pub open spec fn newline_index(s: Seq<u8>) -> int
    decreases s.len(),
{
    if s.len() == 0 || s[0] == NEWLINE {
        0
    } else {
        1 + newline_index(s.drop_first())
    }
}

/// A line without the carriage return of a CRLF ending.
pub open spec fn strip_cr(line: Seq<u8>) -> Seq<u8> {
    if line.len() > 0 && line.last() == CARRIAGE_RETURN { line.drop_last() } else { line }
}

/// The lines of a text, as `str::lines` gives them: split at each newline, a
/// carriage return before a newline dropped, and no empty line after a final
/// newline.
pub open spec fn text_lines(s: Seq<u8>) -> Seq<Seq<u8>>
    decreases s.len(),
{
    if s.len() == 0 {
        Seq::empty()
    } else {
        let k = newline_index(s);
        if k < 0 || k >= s.len() {
            seq![s]
        } else {
            seq![strip_cr(s.subrange(0, k))] + text_lines(s.subrange(k + 1, s.len() as int))
        }
    }
}

/// Index of the first `": "` in a line, or its length when it holds none.
pub open spec fn colon_index(s: Seq<u8>) -> int
    decreases s.len(),
{
    if s.len() < 2 {
        s.len() as int
    } else if s[0] == COLON && s[1] == 32 {
        0
    } else {
        1 + colon_index(s.drop_first())
    }
}

/// What follows the first `": "` of a line, or nothing when it holds none.
pub open spec fn after_colon(line: Seq<u8>) -> Seq<u8> {
    let p = colon_index(line);
    if 0 <= p && p + 2 <= line.len() { line.subrange(p + 2, line.len() as int) } else { Seq::empty() }
}

/// Field `i` (title, artist, album) of an identity buffer: the text before the
/// first NUL, read as UTF-8, line `i`, after its first `": "`. Text that is not
/// UTF-8, a missing line and a line without `": "` all give an empty field.
pub open spec fn identity_field(raw: Seq<u8>, i: int) -> Seq<char> {
    let t = until_nul(raw);
    if valid_utf8(t) && i < text_lines(t).len() {
        decode_utf8(after_colon(text_lines(t)[i]))
    } else {
        Seq::empty()
    }
}

/// Characters cut from the end of an analysis-file path: Unicode white space
/// and ASCII control characters.
pub open spec fn trimmed_char(c: char) -> bool {
    let u = c as u32;
    ||| u <= 0x20
    ||| u == 0x7f
    ||| u == 0x85
    ||| u == 0xa0
    ||| u == 0x1680
    ||| (0x2000 <= u && u <= 0x200a)
    ||| u == 0x2028
    ||| u == 0x2029
    ||| u == 0x202f
    ||| u == 0x205f
    ||| u == 0x3000
}

/// A text without its trailing trimmed characters.
pub open spec fn trim_end(s: Seq<char>) -> Seq<char>
    decreases s.len(),
{
    if s.len() > 0 && trimmed_char(s.last()) { trim_end(s.drop_last()) } else { s }
}

/// The path an analysis-file buffer holds: the text before the first NUL, read as
/// UTF-8 (`ERR` when it is not), without trailing white space and controls.
pub open spec fn anlz_path_text(raw: Seq<u8>) -> Seq<char> {
    let t = until_nul(raw);
    if valid_utf8(t) { trim_end(decode_utf8(t)) } else { "ERR"@ }
}

/// Whether `c` is cut from the end of an analysis-file path.
pub fn is_trimmed_char(c: char) -> (r: bool)
    ensures
        r == trimmed_char(c),
{
    let u = c as u32;
    u <= 0x20 || u == 0x7f || u == 0x85 || u == 0xa0 || u == 0x1680 || (0x2000 <= u && u
        <= 0x200a) || u == 0x2028 || u == 0x2029 || u == 0x202f || u == 0x205f || u == 0x3000
}

/// Relies on `std::str::from_utf8`: it accepts exactly the byte strings that are
/// valid UTF-8, and reads them as the text they encode.
#[verifier::external_body]
fn utf8_text(bytes: &[u8]) -> (r: Option<&str>)
    ensures
        r is Some <==> valid_utf8(bytes@),
        r is Some ==> r->Some_0@ == decode_utf8(bytes@),
{
    std::str::from_utf8(bytes).ok()
}

/// Relies on `str::trim_end_matches`: it removes trailing characters for which
/// the predicate holds, one after the other, until one does not.
#[verifier::external_body]
fn trim_trailing(s: &str) -> (r: &str)
    ensures
        r@ == trim_end(s@),
{
    s.trim_end_matches(|c: char| is_trimmed_char(c))
}

proof fn lemma_until_nul(b: Seq<u8>, n: int)
    requires
        0 <= n <= b.len(),
        forall|j: int| 0 <= j < n ==> b[j] != 0,
        n == b.len() || b[n] == 0,
    ensures
        until_nul(b) == b.subrange(0, n),
    decreases n,
{
    if n > 0 {
        lemma_until_nul(b.drop_first(), n - 1);
        assert(b.subrange(0, n) =~= seq![b[0]] + b.drop_first().subrange(0, n - 1));
    } else if b.len() > 0 {
        assert(b.subrange(0, 0) =~= Seq::<u8>::empty());
    } else {
        assert(b.subrange(0, 0) =~= b);
    }
}

/// The bytes of a buffer before its first NUL.
fn before_nul(raw: &[u8]) -> (r: &[u8])
    ensures
        r@ == until_nul(raw@),
{
    let mut n: usize = 0;
    while n < raw.len() && raw[n] != 0
        invariant
            0 <= n <= raw@.len(),
            forall|j: int| 0 <= j < n ==> raw@[j] != 0,
        decreases raw@.len() - n,
    {
        n = n + 1;
    }
    proof {
        lemma_until_nul(raw@, n as int);
    }
    raw.split_at(n).0
}

proof fn lemma_newline_index(s: Seq<u8>, k: int)
    requires
        0 <= k <= s.len(),
        forall|j: int| 0 <= j < k ==> s[j] != NEWLINE,
        k == s.len() || s[k] == NEWLINE,
    ensures
        newline_index(s) == k,
    decreases k,
{
    if k > 0 {
        lemma_newline_index(s.drop_first(), k - 1);
    }
}

proof fn lemma_colon_index(s: Seq<u8>, p: int)
    requires
        0 <= p,
        p + 1 < s.len() ==> s[p] == COLON && s[p + 1] == 32,
        p + 1 >= s.len() ==> p == s.len(),
        forall|j: int| 0 <= j < p && j + 1 < s.len() ==> !(#[trigger] s[j] == COLON && s[j + 1] == 32),
    ensures
        colon_index(s) == p,
    decreases p,
{
    if p > 0 && s.len() >= 2 {
        lemma_colon_index(s.drop_first(), p - 1);
    }
}

/// The part of `s` between two character boundaries.
fn substring<'a>(s: &'a str, a: usize, b: usize) -> (r: &'a str)
    requires
        a <= b <= encode_utf8(s@).len(),
        is_char_boundary(encode_utf8(s@), a as int),
        is_char_boundary(encode_utf8(s@), b as int),
    ensures
        encode_utf8(r@) == encode_utf8(s@).subrange(a as int, b as int),
{
    let ghost bs = encode_utf8(s@);
    proof {
        encode_utf8_valid_utf8(s@);
    }
    let (_, tail) = s.split_at(a);
    proof {
        valid_utf8_split(bs, a as int);
        encode_utf8_decode_utf8(tail@);
        let tb = bs.subrange(a as int, bs.len() as int);
        assert(encode_utf8(tail@) == tb);
        is_char_boundary_start_end_of_seq(tb);
        if b < bs.len() {
            is_char_boundary_iff_not_is_continuation_byte(bs, b as int);
            is_char_boundary_iff_not_is_continuation_byte(tb, (b - a) as int);
            assert(tb[(b - a) as int] == bs[b as int]);
        } else {
            assert(tb.len() == b - a);
        }
    }
    let (r, _) = tail.split_at(b - a);
    proof {
        let tb = bs.subrange(a as int, bs.len() as int);
        encode_utf8_decode_utf8(r@);
        assert(tb.subrange(0, (b - a) as int) =~= bs.subrange(a as int, b as int));
    }
    r
}

/// The lines read after `i` steps of a text of `n` lines.
pub open spec fn consumed(i: int, n: int) -> int {
    if i < n { i } else { n }
}

/// Splits a non-empty text into its first line and the text after that line.
pub fn first_line<'a>(text: &'a str) -> (r: (&'a str, &'a str))
    requires
        encode_utf8(text@).len() > 0,
    ensures
        text_lines(encode_utf8(text@)) == seq![encode_utf8(r.0@)] + text_lines(encode_utf8(r.1@)),
        encode_utf8(r.1@).len() < encode_utf8(text@).len(),
{
    let bytes = text.as_bytes();
    let ghost s = bytes@;
    proof {
        encode_utf8_valid_utf8(text@);
        is_char_boundary_start_end_of_seq(s);
    }
    let mut k: usize = 0;
    while k < bytes.len() && bytes[k] != NEWLINE
        invariant
            0 <= k <= s.len(),
            bytes@ == s,
            forall|j: int| 0 <= j < k ==> s[j] != NEWLINE,
        decreases s.len() - k,
    {
        k = k + 1;
    }
    proof {
        lemma_newline_index(s, k as int);
    }
    let line_end: usize = if k < bytes.len() && k > 0 && bytes[k - 1] == CARRIAGE_RETURN {
        k - 1
    } else {
        k
    };
    let ghost line = if k < s.len() { strip_cr(s.subrange(0, k as int)) } else { s };
    assert(line =~= s.subrange(0, line_end as int));
    proof {
        if line_end < s.len() {
            lemma_ascii_boundaries(s, line_end as int);
        }
    }
    let first = substring(text, 0, line_end);
    let rest = if k < bytes.len() {
        proof {
            lemma_ascii_boundaries(s, k as int);
        }
        substring(text, k + 1, bytes.len())
    } else {
        substring(text, bytes.len(), bytes.len())
    };
    proof {
        if k < s.len() {
            assert(text_lines(s) == seq![line] + text_lines(s.subrange(k + 1, s.len() as int)));
        } else {
            assert(text_lines(encode_utf8(rest@)) =~= Seq::<Seq<u8>>::empty());
            assert(text_lines(s) =~= seq![line]);
        }
        assert(text_lines(s) =~= seq![line] + text_lines(encode_utf8(rest@)));
    }
    (first, rest)
}

/// What follows the first `": "` of a line.
fn field_after_colon(line: &str) -> (r: String)
    ensures
        r@ == decode_utf8(after_colon(encode_utf8(line@))),
{
    let bytes = line.as_bytes();
    let ghost s = bytes@;
    proof {
        encode_utf8_valid_utf8(line@);
        is_char_boundary_start_end_of_seq(s);
    }
    let n = bytes.len();
    let mut p: usize = 0;
    while n - p > 1 && !(bytes[p] == COLON && bytes[p + 1] == 32)
        invariant
            0 <= p <= n,
            n == s.len(),
            bytes@ == s,
            forall|j: int| 0 <= j < p && j + 1 < s.len() ==> !(#[trigger] s[j] == COLON && s[j + 1] == 32),
        decreases n - p,
    {
        p = p + 1;
    }
    let found = n - p > 1;
    if !found {
        p = n;
    }
    proof {
        lemma_colon_index(s, p as int);
    }
    if found {
        proof {
            lemma_ascii_boundaries(s, p as int + 1);
        }
        let f = substring(line, p + 2, n);
        proof {
            encode_utf8_decode_utf8(f@);
            assert(encode_utf8(f@) =~= after_colon(s));
        }
        f.to_owned()
    } else {
        proof {
            assert(after_colon(s) =~= Seq::<u8>::empty());
            assert(decode_utf8(Seq::<u8>::empty()) =~= Seq::<char>::empty());
        }
        String::new()
    }
}

/// Reads the first line of a non-empty text: returns what follows its first
/// `": "`, and the text after the line.
fn first_line_field<'a>(text: &'a str) -> (r: (String, &'a str))
    requires
        encode_utf8(text@).len() > 0,
    ensures
        r.0@ == decode_utf8(after_colon(text_lines(encode_utf8(text@))[0])),
        text_lines(encode_utf8(text@)) == seq![text_lines(encode_utf8(text@))[0]] + text_lines(
            encode_utf8(r.1@),
        ),
{
    let (line, rest) = first_line(text);
    (field_after_colon(line), rest)
}

/// Decodes the identity buffer of a deck: lines `title: ...`, `artist: ...`,
/// `album: ...`, ended by a NUL byte. Text that is not UTF-8 gives empty fields.
pub fn decode_track_info(raw: &[u8]) -> (r: TrackInfo)
    ensures
        r.title@ == identity_field(raw@, 0),
        r.artist@ == identity_field(raw@, 1),
        r.album@ == identity_field(raw@, 2),
{
    let t = before_nul(raw);
    let text = match utf8_text(t) {
        Some(text) => text,
        None => {
            return TrackInfo::default();
        },
    };
    proof {
        decode_utf8_encode_utf8(t@);
    }
    let ghost all = text_lines(encode_utf8(text@));
    let mut fields: Vec<String> = Vec::new();
    let mut rest = text;
    let mut i: usize = 0;
    while i < 3
        invariant
            0 <= i <= 3,
            t@ == until_nul(raw@),
            valid_utf8(t@),
            encode_utf8(text@) == t@,
            all == text_lines(t@),
            fields@.len() == i,
            forall|j: int| 0 <= j < i ==> (#[trigger] fields@[j])@ == identity_field(raw@, j),
            all == all.subrange(0, consumed(i as int, all.len() as int)) + text_lines(
                encode_utf8(rest@),
            ),
        decreases 3 - i,
    {
        let ghost c = consumed(i as int, all.len() as int);
        if rest.as_bytes().len() == 0 {
            proof {
                assert(encode_utf8(rest@) =~= Seq::<u8>::empty());
                assert(text_lines(encode_utf8(rest@)) =~= Seq::<Seq<u8>>::empty());
                assert(all.subrange(0, c).len() == all.len());
                assert(identity_field(raw@, i as int) =~= Seq::<char>::empty());
            }
            fields.push(String::new());
        } else {
            let ghost before = text_lines(encode_utf8(rest@));
            let (field, next) = first_line_field(rest);
            proof {
                assert(before.len() >= 1);
                assert(all.len() == c + before.len());
                assert(c == i);
                assert(all[i as int] == before[0]);
                assert(all =~= all.subrange(0, i + 1) + text_lines(encode_utf8(next@)));
            }
            fields.push(field);
            rest = next;
        }
        i = i + 1;
    }
    let album = fields.pop().unwrap();
    let artist = fields.pop().unwrap();
    let title = fields.pop().unwrap();
    TrackInfo { title, artist, album }
}

/// Decodes the analysis-file path buffer of a deck.
pub fn decode_anlz_file(raw: &[u8]) -> (r: AnlzFile)
    ensures
        r.path@ == anlz_path_text(raw@),
{
    let t = before_nul(raw);
    match utf8_text(t) {
        Some(text) => AnlzFile { path: trim_trailing(text).to_owned() },
        None => AnlzFile { path: String::from_str("ERR") },
    }
}

} // verus!
