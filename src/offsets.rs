//! Pointer chains into the monitored application's memory, and the parser of
//! the offsets table that lists them.
use vstd::prelude::*;
use vstd::std_specs::cmp::PartialEqSpecImpl;
use vstd::string::StringExecFns;
use vstd::utf8::{decode_utf8, encode_utf8, encode_utf8_decode_utf8};
use crate::identity::{first_line, text_lines};
use crate::text::{split_on_spaces, split_spaces};

verus! {

/// A pointer chain: each offset is added to the address read so far and the
/// result dereferenced; the final offset is added last.
#[derive(Clone, Debug)]
pub struct Pointer {
    pub offsets: Vec<usize>,
    pub final_offset: usize,
}

impl Pointer {
    pub fn new(offests: Vec<usize>, final_offset: usize) -> (r: Pointer)
        ensures
            r.offsets@ == offests@,
            r.final_offset == final_offset,
    {
        Pointer { offsets: offests, final_offset }
    }
}

impl PartialEq for Pointer {
    fn eq(&self, other: &Pointer) -> (r: bool) {
        let same = self.offsets == other.offsets && self.final_offset == other.final_offset;
        proof {
            if self.offsets@.len() == other.offsets@.len() {
                if forall|i: int|
                    #![auto]
                    0 <= i < self.offsets@.len() ==> self.offsets@[i] == other.offsets@[i] {
                    assert(self.offsets@ =~= other.offsets@);
                }
            }
        }
        same
    }
}

impl PartialEqSpecImpl for Pointer {
    open spec fn obeys_eq_spec() -> bool {
        true
    }

    open spec fn eq_spec(&self, other: &Pointer) -> bool {
        self.offsets@ == other.offsets@ && self.final_offset == other.final_offset
    }
}

pub open spec fn is_hex_digit(b: u8) -> bool {
    (48 <= b <= 57) || (97 <= b <= 102) || (65 <= b <= 70)
}

pub open spec fn hex_digit_value(b: u8) -> int {
    if 48 <= b <= 57 {
        b - 48
    } else if 97 <= b <= 102 {
        b - 87
    } else {
        b - 55
    }
}

/// The number that a string of hexadecimal digits spells.
pub open spec fn hex_digits_value(d: Seq<u8>) -> int
    decreases d.len(),
{
    if d.len() == 0 {
        0
    } else {
        hex_digits_value(d.drop_last()) * 16 + hex_digit_value(d.last())
    }
}

/// The digits of a number's text: a leading `+` is dropped.
pub open spec fn hex_digits(s: Seq<u8>) -> Seq<u8> {
    if s.len() > 0 && s[0] == 43 { s.drop_first() } else { s }
}

/// The address a hexadecimal text spells: an optional `+` and at least one
/// hexadecimal digit (either case), with a value that fits a `usize`.
pub open spec fn hex_value(s: Seq<u8>) -> Option<int> {
    let d = hex_digits(s);
    if d.len() > 0 && (forall|i: int| 0 <= i < d.len() ==> is_hex_digit(#[trigger] d[i]))
        && hex_digits_value(d) <= usize::MAX {
        Some(hex_digits_value(d))
    } else {
        None
    }
}

/// The message for a text that is no hexadecimal address.
pub open spec fn hex_error(s: Seq<char>) -> Seq<char> {
    "Failed to parse hex value: "@ + s
}

proof fn lemma_hex_prefix_grows(d: Seq<u8>, i: int)
    requires
        0 <= i <= d.len(),
        forall|j: int| 0 <= j < d.len() ==> is_hex_digit(#[trigger] d[j]),
    ensures
        0 <= hex_digits_value(d.subrange(0, i)) <= hex_digits_value(d),
    decreases d.len() - i,
{
    if i < d.len() {
        lemma_hex_prefix_grows(d, i + 1);
        assert(d.subrange(0, i + 1).drop_last() =~= d.subrange(0, i));
    } else {
        assert(d.subrange(0, i) =~= d);
    }
    lemma_hex_nonnegative(d.subrange(0, i));
}

proof fn lemma_hex_nonnegative(d: Seq<u8>)
    requires
        forall|j: int| 0 <= j < d.len() ==> is_hex_digit(#[trigger] d[j]),
    ensures
        hex_digits_value(d) >= 0,
    decreases d.len(),
{
    if d.len() > 0 {
        lemma_hex_nonnegative(d.drop_last());
    }
}

/// Reads a hexadecimal address.
pub fn hexparse(input: &str) -> (r: Result<usize, String>)
    ensures
        r is Ok <==> hex_value(encode_utf8(input@)) is Some,
        r is Ok ==> hex_value(encode_utf8(input@)) == Some(r->Ok_0 as int),
        r is Err ==> r->Err_0@ == hex_error(input@),
{
    let b = input.as_bytes();
    let ghost s = b@;
    assert(s == encode_utf8(input@));
    let start: usize = if b.len() > 0 && b[0] == 43 { 1 } else { 0 };
    let ghost d = hex_digits(s);
    assert(d =~= s.subrange(start as int, s.len() as int));
    if start >= b.len() {
        assert(d.len() == 0);
        assert(hex_value(s) is None);
        return Err(String::from_str("Failed to parse hex value: ").concat(input));
    }
    let mut value: usize = 0;
    let mut i: usize = start;
    while i < b.len()
        invariant
            start <= i <= b@.len(),
            b@ == s,
            s == encode_utf8(input@),
            d == hex_digits(s),
            d == s.subrange(start as int, s.len() as int),
            forall|j: int| 0 <= j < i - start ==> is_hex_digit(#[trigger] d[j]),
            value == hex_digits_value(d.subrange(0, i - start)),
        decreases b@.len() - i,
    {
        let c = b[i];
        let digit: usize = if 48 <= c && c <= 57 {
            (c - 48) as usize
        } else if 97 <= c && c <= 102 {
            (c - 87) as usize
        } else if 65 <= c && c <= 70 {
            (c - 55) as usize
        } else {
            assert(!is_hex_digit(d[i - start]));
            return Err(String::from_str("Failed to parse hex value: ").concat(input));
        };
        let ghost next = d.subrange(0, i - start + 1);
        assert(next.drop_last() =~= d.subrange(0, i - start));
        assert(hex_digits_value(next) == value * 16 + digit);
        let grown = match value.checked_mul(16) {
            Some(m) => m.checked_add(digit),
            None => None,
        };
        match grown {
            Some(v) => {
                value = v;
            },
            None => {
                proof {
                    if forall|j: int| 0 <= j < d.len() ==> is_hex_digit(#[trigger] d[j]) {
                        lemma_hex_prefix_grows(d, i - start + 1);
                    }
                }
                return Err(String::from_str("Failed to parse hex value: ").concat(input));
            },
        }
        i = i + 1;
    }
    assert(d.subrange(0, i - start) =~= d);
    Ok(value)
}

/// The pieces of a pointer's text, as bytes.
pub open spec fn pointer_tokens(s: Seq<char>) -> Seq<Seq<u8>> {
    split_spaces(encode_utf8(s))
}

/// Whether every piece is a hexadecimal address.
pub open spec fn all_hex(ts: Seq<Seq<u8>>) -> bool {
    forall|i: int| 0 <= i < ts.len() ==> (#[trigger] hex_value(ts[i])) is Some
}

/// Index of the first piece that is no hexadecimal address.
pub open spec fn first_bad(ts: Seq<Seq<u8>>) -> int
    decreases ts.len(),
{
    if ts.len() == 0 {
        0
    } else if hex_value(ts[0]) is None {
        0
    } else {
        1 + first_bad(ts.drop_first())
    }
}

/// The addresses the pieces spell.
pub open spec fn hex_values(ts: Seq<Seq<u8>>) -> Seq<usize> {
    ts.map_values(|t: Seq<u8>| hex_value(t).unwrap() as usize)
}

proof fn lemma_first_bad(ts: Seq<Seq<u8>>, i: int)
    requires
        0 <= i < ts.len(),
        forall|j: int| 0 <= j < i ==> (#[trigger] hex_value(ts[j])) is Some,
        hex_value(ts[i]) is None,
    ensures
        first_bad(ts) == i,
    decreases i,
{
    if i > 0 {
        let rest = ts.drop_first();
        assert forall|j: int| 0 <= j < i - 1 implies (#[trigger] hex_value(rest[j])) is Some by {
            assert(rest[j] == ts[j + 1]);
        }
        lemma_first_bad(rest, i - 1);
    }
}

proof fn lemma_split_nonempty(s: Seq<u8>)
    ensures
        split_spaces(s).len() >= 1,
    decreases s.len(),
{
    let k = crate::text::space_index(s);
    if !(k < 0 || k >= s.len()) {
        lemma_split_nonempty(s.subrange(k + 1, s.len() as int));
    }
}

impl Pointer {
    /// Reads a pointer chain written as hexadecimal offsets separated by single
    /// spaces; the last one is the final offset.
    pub fn from_string(input: &str) -> (r: Result<Pointer, String>)
        ensures
            match r {
                Ok(p) => {
                    &&& all_hex(pointer_tokens(input@))
                    &&& p.offsets@ == hex_values(pointer_tokens(input@)).drop_last()
                    &&& p.final_offset == hex_values(pointer_tokens(input@)).last()
                },
                Err(m) => {
                    let ts = pointer_tokens(input@);
                    &&& !all_hex(ts)
                    &&& m@ == hex_error(decode_utf8(ts[first_bad(ts)]))
                },
            },
    {
        let tokens = split_on_spaces(input);
        let ghost ts = pointer_tokens(input@);
        proof {
            lemma_split_nonempty(encode_utf8(input@));
            assert(tokens@.len() == ts.len());
        }
        let mut values: Vec<usize> = Vec::new();
        let mut i: usize = 0;
        while i < tokens.len()
            invariant
                0 <= i <= tokens@.len(),
                ts == pointer_tokens(input@),
                tokens@.len() == ts.len(),
                forall|j: int| 0 <= j < ts.len() ==> encode_utf8((#[trigger] tokens@[j])@) == ts[j],
                forall|j: int| 0 <= j < i ==> (#[trigger] hex_value(ts[j])) is Some,
                values@ == hex_values(ts.subrange(0, i as int)),
            decreases tokens@.len() - i,
        {
            assert(tokens@.map_values(|t: &str| encode_utf8(t@))[i as int] == ts[i as int]);
            match hexparse(tokens[i]) {
                Ok(v) => {
                    values.push(v);
                },
                Err(m) => {
                    proof {
                        assert(hex_value(ts[i as int]) is None);
                        lemma_first_bad(ts, i as int);
                        encode_utf8_decode_utf8(tokens@[i as int]@);
                        assert(decode_utf8(ts[first_bad(ts)]) == tokens@[i as int]@);
                    }
                    return Err(m);
                },
            }
            i = i + 1;
            assert(values@ =~= hex_values(ts.subrange(0, i as int)));
        }
        assert(ts.subrange(0, i as int) =~= ts);
        let last = values.pop().unwrap();
        assert(values@ =~= hex_values(ts).drop_last());
        Ok(Pointer::new(values, last))
    }
}

/// Pointer chains for one version of the monitored application: the master deck
/// index, and per deck the tempo, sample position, track info and analysis path.
#[derive(Clone, Debug)]
pub struct RekordboxOffsets {
    pub rbversion: String,
    pub masterdeck_index: Pointer,
    pub sample_position: Vec<Pointer>,
    pub current_bpm: Vec<Pointer>,
    pub track_info: Vec<Pointer>,
    pub anlz_path: Vec<Pointer>,
}

/// The pointer chain a line spells, if it spells one.
pub open spec fn line_pointer(line: Seq<char>) -> Option<(Seq<usize>, usize)> {
    let ts = pointer_tokens(line);
    if all_hex(ts) {
        Some((hex_values(ts).drop_last(), hex_values(ts).last()))
    } else {
        None
    }
}

/// Whether `p` is the pointer chain the line spells.
pub open spec fn pointer_is(p: Pointer, line: Seq<char>) -> bool {
    line_pointer(line) == Some((p.offsets@, p.final_offset))
}

/// The message for a line that spells no pointer chain.
pub open spec fn pointer_error(line: Seq<char>) -> Seq<char> {
    let ts = pointer_tokens(line);
    hex_error(decode_utf8(ts[first_bad(ts)]))
}

/// The message for a deck whose group of lines stops before `field`.
pub open spec fn missing_message(field: int) -> Seq<char> {
    if field == 0 {
        "Missing BPM pointer"@
    } else if field == 1 {
        "Missing sample position pointer"@
    } else if field == 2 {
        "Missing track info pointer"@
    } else {
        "Missing ANLZ path pointer"@
    }
}

/// Index of the first line from `from` on that spells no pointer chain, or the
/// number of lines when all do.
pub open spec fn first_bad_line(lines: Seq<Seq<char>>, from: int) -> int
    decreases lines.len() - from,
{
    if from >= lines.len() || from < 0 {
        lines.len() as int
    } else if line_pointer(lines[from]) is None {
        from
    } else {
        first_bad_line(lines, from + 1)
    }
}

/// Why an offsets table cannot be read, if it cannot: no lines, no master index
/// line, a line that spells no pointer chain (the first one), or a last deck
/// whose group of four lines is cut short.
pub open spec fn offsets_error(lines: Seq<Seq<char>>) -> Option<Seq<char>> {
    if lines.len() == 0 {
        Some("No lines left"@)
    } else if lines.len() == 1 {
        Some("Missing masterdeck index pointer"@)
    } else if first_bad_line(lines, 1) < lines.len() {
        Some(pointer_error(lines[first_bad_line(lines, 1)]))
    } else if (lines.len() - 2) % 4 != 0 {
        Some(missing_message((lines.len() - 2) % 4))
    } else {
        None
    }
}

/// Whether `o` holds what the lines `ls` of a readable table spell.
pub open spec fn parsed_offsets(o: RekordboxOffsets, ls: Seq<Seq<char>>) -> bool {
    &&& o.rbversion@ == ls[0]
    &&& pointer_is(o.masterdeck_index, ls[1])
    &&& field_pointers(o.current_bpm@, ls, 0, ls.len() as int)
    &&& field_pointers(o.sample_position@, ls, 1, ls.len() as int)
    &&& field_pointers(o.track_info@, ls, 2, ls.len() as int)
    &&& field_pointers(o.anlz_path@, ls, 3, ls.len() as int)
}

/// Whether `ps` holds the pointer chains of field `k` of every deck group read
/// from `lines` before line `j`.
pub open spec fn field_pointers(ps: Seq<Pointer>, lines: Seq<Seq<char>>, k: int, j: int) -> bool {
    &&& ps.len() == (j - 2 - k + 3) / 4
    &&& forall|g: int| 0 <= g < ps.len() ==> pointer_is(#[trigger] ps[g], lines[2 + 4 * g + k])
}

proof fn lemma_first_bad_line(lines: Seq<Seq<char>>, from: int, j: int)
    requires
        0 <= from <= j <= lines.len(),
        forall|i: int| from <= i < j ==> (#[trigger] line_pointer(lines[i])) is Some,
        j == lines.len() || line_pointer(lines[j]) is None,
    ensures
        first_bad_line(lines, from) == j,
    decreases j - from,
{
    if from < j {
        lemma_first_bad_line(lines, from + 1, j);
    }
}

proof fn lemma_field_unchanged(ps: Seq<Pointer>, lines: Seq<Seq<char>>, k: int, j: int)
    requires
        2 <= j,
        0 <= k < 4,
        field_pointers(ps, lines, k, j),
    ensures
        (j - 2) % 4 != k ==> field_pointers(ps, lines, k, j + 1),
{
}

fn push_field(ps: &mut Vec<Pointer>, p: Pointer, lines: Ghost<Seq<Seq<char>>>, k: Ghost<int>, j: Ghost<int>)
    requires
        2 <= j@,
        0 <= k@ < 4,
        (j@ - 2) % 4 == k@,
        j@ < lines@.len(),
        field_pointers(old(ps)@, lines@, k@, j@),
        pointer_is(p, lines@[j@]),
    ensures
        field_pointers(final(ps)@, lines@, k@, j@ + 1),
{
    let ghost before = ps@;
    ps.push(p);
    proof {
        assert(before.len() == (j@ - 2 - k@) / 4);
        assert(ps@.len() == (j@ + 1 - 2 - k@ + 3) / 4);
        assert(2 + 4 * before.len() + k@ == j@);
        assert forall|g: int| 0 <= g < ps@.len() implies pointer_is(#[trigger] ps@[g], lines@[2 + 4 * g + k@]) by {
            if g < before.len() {
                assert(ps@[g] == before[g]);
            }
        }
    }
}

impl RekordboxOffsets {
    /// Reads an offsets table: the application version, the master index pointer,
    /// then four pointers per deck (tempo, sample position, track info, analysis
    /// path), one per line.
    pub fn from_lines(lines: &[String]) -> (r: Result<RekordboxOffsets, String>)
        ensures
            match r {
                Ok(o) => {
                    let ls = lines@.map_values(|l: String| l@);
                    &&& offsets_error(ls) is None
                    &&& parsed_offsets(o, ls)
                },
                Err(m) => offsets_error(lines@.map_values(|l: String| l@)) == Some(m@),
            },
    {
        let ghost ls = lines@.map_values(|l: String| l@);
        if lines.len() == 0 {
            return Err(String::from_str("No lines left"));
        }
        let rb_version = lines[0].clone();
        if lines.len() == 1 {
            return Err(String::from_str("Missing masterdeck index pointer"));
        }
        assert(ls[1] == lines@[1]@);
        let masterdeck_index = match Pointer::from_string(lines[1].as_str()) {
            Ok(p) => p,
            Err(m) => {
                proof {
                    lemma_first_bad_line(ls, 1, 1);
                }
                return Err(m);
            },
        };
        let mut current_bpm: Vec<Pointer> = Vec::new();
        let mut sample_position: Vec<Pointer> = Vec::new();
        let mut track_info: Vec<Pointer> = Vec::new();
        let mut anlz_path: Vec<Pointer> = Vec::new();
        let mut j: usize = 2;
        while j < lines.len()
            invariant
                2 <= j <= lines@.len(),
                ls == lines@.map_values(|l: String| l@),
                forall|i: int| 1 <= i < j ==> (#[trigger] line_pointer(ls[i])) is Some,
                field_pointers(current_bpm@, ls, 0, j as int),
                field_pointers(sample_position@, ls, 1, j as int),
                field_pointers(track_info@, ls, 2, j as int),
                field_pointers(anlz_path@, ls, 3, j as int),
            decreases lines@.len() - j,
        {
            assert(ls[j as int] == lines@[j as int]@);
            let p = match Pointer::from_string(lines[j].as_str()) {
                Ok(p) => p,
                Err(m) => {
                    proof {
                        lemma_first_bad_line(ls, 1, j as int);
                    }
                    return Err(m);
                },
            };
            let field = (j - 2) % 4;
            proof {
                lemma_field_unchanged(current_bpm@, ls, 0, j as int);
                lemma_field_unchanged(sample_position@, ls, 1, j as int);
                lemma_field_unchanged(track_info@, ls, 2, j as int);
                lemma_field_unchanged(anlz_path@, ls, 3, j as int);
            }
            if field == 0 {
                push_field(&mut current_bpm, p, Ghost(ls), Ghost(0), Ghost(j as int));
            } else if field == 1 {
                push_field(&mut sample_position, p, Ghost(ls), Ghost(1), Ghost(j as int));
            } else if field == 2 {
                push_field(&mut track_info, p, Ghost(ls), Ghost(2), Ghost(j as int));
            } else {
                push_field(&mut anlz_path, p, Ghost(ls), Ghost(3), Ghost(j as int));
            }
            j = j + 1;
        }
        proof {
            lemma_first_bad_line(ls, 1, ls.len() as int);
        }
        let field = (lines.len() - 2) % 4;
        if field == 1 {
            return Err(String::from_str("Missing sample position pointer"));
        } else if field == 2 {
            return Err(String::from_str("Missing track info pointer"));
        } else if field == 3 {
            return Err(String::from_str("Missing ANLZ path pointer"));
        }
        Ok(RekordboxOffsets {
            rbversion: rb_version,
            masterdeck_index,
            sample_position,
            current_bpm,
            track_info,
            anlz_path,
        })
    }
}

/// Reading an offsets file line by line: the lines of the block being read, the
/// run of empty lines just seen (counted up to two), and the blocks read.
pub struct BlockScan {
    pub pending: Seq<Seq<u8>>,
    pub empties: int,
    pub blocks: Seq<Seq<Seq<u8>>>,
}

/// One line of an offsets file: two empty lines in a row end a non-empty block,
/// a line starting with `#` is a comment, any other line joins the block.
pub open spec fn scan_step(s: BlockScan, l: Seq<u8>) -> BlockScan {
    if l.len() == 0 {
        let e = if s.empties < 2 { s.empties + 1 } else { 2 };
        if e >= 2 && s.pending.len() > 0 {
            BlockScan { pending: Seq::empty(), empties: e, blocks: s.blocks.push(s.pending) }
        } else {
            BlockScan { empties: e, ..s }
        }
    } else if l[0] == 35 {
        BlockScan { empties: 0, ..s }
    } else {
        BlockScan { empties: 0, pending: s.pending.push(l), blocks: s.blocks }
    }
}

pub open spec fn scan_blocks(ls: Seq<Seq<u8>>) -> BlockScan
    decreases ls.len(),
{
    if ls.len() == 0 {
        BlockScan { pending: Seq::empty(), empties: 0, blocks: Seq::empty() }
    } else {
        scan_step(scan_blocks(ls.drop_last()), ls.last())
    }
}

/// A block's lines as text.
pub open spec fn block_text(b: Seq<Seq<u8>>) -> Seq<Seq<char>> {
    b.map_values(|l: Seq<u8>| decode_utf8(l))
}

/// The blocks of an offsets file; a last block not ended by two empty lines is
/// not among them.
pub open spec fn file_blocks(text: Seq<char>) -> Seq<Seq<Seq<char>>> {
    scan_blocks(text_lines(encode_utf8(text))).blocks.map_values(|b: Seq<Seq<u8>>| block_text(b))
}

/// Index of the first block that cannot be read, or the number of blocks.
pub open spec fn first_failing_block(bs: Seq<Seq<Seq<char>>>) -> int
    decreases bs.len(),
{
    if bs.len() == 0 {
        0
    } else if offsets_error(bs[0]) is Some {
        0
    } else {
        1 + first_failing_block(bs.drop_first())
    }
}

proof fn lemma_first_failing_block(bs: Seq<Seq<Seq<char>>>, k: int)
    requires
        0 <= k <= bs.len(),
        forall|j: int| 0 <= j < k ==> (#[trigger] offsets_error(bs[j])) is None,
        k == bs.len() || offsets_error(bs[k]) is Some,
    ensures
        first_failing_block(bs) == k,
    decreases k,
{
    if k > 0 {
        let rest = bs.drop_first();
        assert forall|j: int| 0 <= j < k - 1 implies (#[trigger] offsets_error(rest[j])) is None by {
            assert(rest[j] == bs[j + 1]);
        }
        lemma_first_failing_block(rest, k - 1);
    }
}

/// Reading more lines only appends blocks.
proof fn lemma_blocks_grow(ls: Seq<Seq<u8>>, i: int)
    requires
        0 <= i <= ls.len(),
    ensures
        scan_blocks(ls.subrange(0, i)).blocks.len() <= scan_blocks(ls).blocks.len(),
        scan_blocks(ls).blocks.subrange(0, scan_blocks(ls.subrange(0, i)).blocks.len() as int)
            == scan_blocks(ls.subrange(0, i)).blocks,
    decreases ls.len() - i,
{
    if i == ls.len() {
        assert(ls.subrange(0, i) =~= ls);
        assert(scan_blocks(ls).blocks.subrange(0, scan_blocks(ls).blocks.len() as int) =~= scan_blocks(ls).blocks);
    } else {
        lemma_blocks_grow(ls, i + 1);
        assert(ls.subrange(0, i + 1).drop_last() =~= ls.subrange(0, i));
        let a = scan_blocks(ls.subrange(0, i)).blocks;
        let b = scan_blocks(ls.subrange(0, i + 1)).blocks;
        let c = scan_blocks(ls).blocks;
        assert(b.subrange(0, a.len() as int) =~= a);
        assert(c.subrange(0, a.len() as int) =~= b.subrange(0, a.len() as int));
    }
}

/// Whether `result` holds, in order, the tables read from `blocks`, all readable.
pub open spec fn results_held(result: Seq<RekordboxOffsets>, blocks: Seq<Seq<Seq<u8>>>) -> bool {
    &&& result.len() == blocks.len()
    &&& forall|k: int| 0 <= k < blocks.len() ==> (#[trigger] offsets_error(block_text(blocks[k]))) is None
    &&& forall|k: int| 0 <= k < result.len() ==> parsed_offsets(#[trigger] result[k], block_text(blocks[k]))
}

proof fn lemma_results_push(
    result: Seq<RekordboxOffsets>,
    blocks: Seq<Seq<Seq<u8>>>,
    o: RekordboxOffsets,
    b: Seq<Seq<u8>>,
)
    requires
        results_held(result, blocks),
        offsets_error(block_text(b)) is None,
        parsed_offsets(o, block_text(b)),
    ensures
        results_held(result.push(o), blocks.push(b)),
{
    let r = result.push(o);
    let bs = blocks.push(b);
    assert forall|k: int| 0 <= k < bs.len() implies (#[trigger] offsets_error(block_text(bs[k]))) is None by {
        if k < blocks.len() {
            assert(bs[k] == blocks[k]);
        }
    }
    assert forall|k: int| 0 <= k < r.len() implies parsed_offsets(#[trigger] r[k], block_text(bs[k])) by {
        if k < result.len() {
            assert(r[k] == result[k]);
            assert(bs[k] == blocks[k]);
        }
    }
}

proof fn lemma_results_at(result: Seq<RekordboxOffsets>, blocks: Seq<Seq<Seq<u8>>>, j: int)
    requires
        results_held(result, blocks),
    ensures
        result.len() == blocks.len(),
        0 <= j < blocks.len() ==> offsets_error(block_text(blocks[j])) is None && parsed_offsets(
            result[j],
            block_text(blocks[j]),
        ),
{
    if 0 <= j < blocks.len() {
        assert(result.len() == blocks.len());
        assert(parsed_offsets(result[j], block_text(blocks[j])));
        assert(offsets_error(block_text(blocks[j])) is None);
    }
}

/// Whether the reader's variables hold the scan state `s`.
pub open spec fn scan_held(
    s: BlockScan,
    pending: Seq<String>,
    empties: int,
    result: Seq<RekordboxOffsets>,
) -> bool {
    &&& s.empties == empties
    &&& pending.len() == s.pending.len()
    &&& forall|i: int| 0 <= i < pending.len() ==> (#[trigger] pending[i])@ == decode_utf8(s.pending[i])
    &&& results_held(result, s.blocks)
}

/// Takes in one line of an offsets file.
fn absorb_line(
    line: &str,
    pending: &mut Vec<String>,
    empties: &mut usize,
    result: &mut Vec<RekordboxOffsets>,
    s: Ghost<BlockScan>,
) -> (r: Result<(), String>)
    requires
        scan_held(s@, old(pending)@, *old(empties) as int, old(result)@),
        *old(empties) <= 2,
    ensures
        r is Ok ==> scan_held(scan_step(s@, encode_utf8(line@)), final(pending)@, *final(empties) as int, final(result)@),
        r is Ok ==> *final(empties) <= 2,
        r is Err ==> {
            let n = scan_step(s@, encode_utf8(line@));
            &&& n.blocks.len() == s@.blocks.len() + 1
            &&& n.blocks.subrange(0, s@.blocks.len() as int) == s@.blocks
            &&& offsets_error(block_text(n.blocks[s@.blocks.len() as int])) == Some(r->Err_0@)
        },
{
    let lb = line.as_bytes();
    let ghost l = encode_utf8(line@);
    let ghost n = scan_step(s@, l);
    let ghost earlier_results = result@;
    let ghost held = pending@;
    if lb.len() == 0 {
        *empties = if *empties < 2 { *empties + 1 } else { 2 };
        if *empties >= 2 && pending.len() > 0 {
            proof {
                assert(pending@.map_values(|l: String| l@) =~= block_text(s@.pending));
                assert(n.blocks[s@.blocks.len() as int] == s@.pending);
                assert(n.blocks.subrange(0, s@.blocks.len() as int) =~= s@.blocks);
            }
            match RekordboxOffsets::from_lines(pending.as_slice()) {
                Ok(o) => {
                    proof {
                        assert(offsets_error(block_text(s@.pending)) is None);
                        lemma_results_push(earlier_results, s@.blocks, o, s@.pending);
                        assert(n.blocks == s@.blocks.push(s@.pending));
                    }
                    result.push(o);
                },
                Err(m) => {
                    return Err(m);
                },
            }
            *pending = Vec::new();
            proof {
                assert(pending@.len() == n.pending.len());
                assert(scan_held(n, pending@, *empties as int, result@));
            }
        } else {
            proof {
                assert(n == BlockScan { empties: *empties as int, ..s@ });
                assert(scan_held(n, pending@, *empties as int, result@));
            }
        }
    } else {
        *empties = 0;
        if lb[0] != 35 {
            proof {
                encode_utf8_decode_utf8(line@);
            }
            pending.push(line.to_owned());
            proof {
                assert(n.pending == s@.pending.push(l));
                assert forall|i: int| 0 <= i < pending@.len() implies (#[trigger] pending@[i])@ == decode_utf8(
                    n.pending[i],
                ) by {
                    if i < held.len() {
                        assert(pending@[i] == held[i]);
                    }
                }
            }
        }
        proof {
        }
    }
    assert(scan_held(n, pending@, *empties as int, result@));
    Ok(())
}

impl RekordboxOffsets {
    /// Reads an offsets file: blocks of table lines, each ended by two empty lines,
    /// with `#` comment lines left out. Stops at the first block that cannot be read.
    pub fn from_text(text: &str) -> (r: Result<Vec<RekordboxOffsets>, String>)
        ensures
            match r {
                Ok(v) => {
                    let bs = file_blocks(text@);
                    &&& first_failing_block(bs) == bs.len()
                    &&& v@.len() == bs.len()
                    &&& forall|k: int| 0 <= k < bs.len() ==> parsed_offsets(#[trigger] v@[k], bs[k])
                },
                Err(m) => {
                    let bs = file_blocks(text@);
                    &&& first_failing_block(bs) < bs.len()
                    &&& offsets_error(bs[first_failing_block(bs)]) == Some(m@)
                },
            },
    {
        let ghost all = text_lines(encode_utf8(text@));
        let ghost mut done: Seq<Seq<u8>> = Seq::empty();
        let mut rest = text;
        let mut pending: Vec<String> = Vec::new();
        let mut empties: usize = 0;
        let mut result: Vec<RekordboxOffsets> = Vec::new();
        proof {
                    assert(scan_blocks(done).blocks =~= Seq::<Seq<Seq<u8>>>::empty());
        }
        while rest.as_bytes().len() > 0
            invariant
                all == text_lines(encode_utf8(text@)),
                all == done + text_lines(encode_utf8(rest@)),
                empties <= 2,
                scan_held(scan_blocks(done), pending@, empties as int, result@),
            decreases encode_utf8(rest@).len(),
        {
            let ghost before = done;
            let (line, next) = first_line(rest);
            proof {
                done = done.push(encode_utf8(line@));
                assert(all =~= done + text_lines(encode_utf8(next@)));
                assert(done.drop_last() =~= before);
                assert(scan_blocks(done) == scan_step(scan_blocks(before), encode_utf8(line@)));
            }
            let ghost res0 = result@;
            match absorb_line(line, &mut pending, &mut empties, &mut result, Ghost(scan_blocks(before))) {
                Ok(()) => {},
                Err(m) => {
                    proof {
                        let bs = file_blocks(text@);
                        let k = scan_blocks(before).blocks.len() as int;
                        lemma_blocks_grow(all, done.len() as int);
                        assert(all.subrange(0, done.len() as int) =~= done);
                        let whole = scan_blocks(all).blocks;
                        assert(whole.subrange(0, scan_blocks(done).blocks.len() as int) == scan_blocks(done).blocks);
                        assert(whole[k] == scan_blocks(done).blocks[k]);
                        assert(bs[k] == block_text(scan_blocks(done).blocks[k]));
                        assert forall|j: int| 0 <= j < k implies (#[trigger] offsets_error(bs[j])) is None by {
                            assert(whole[j] == scan_blocks(done).blocks[j]);
                            assert(scan_blocks(done).blocks.subrange(0, k)[j] == scan_blocks(done).blocks[j]);
                            assert(scan_blocks(done).blocks[j] == scan_blocks(before).blocks[j]);
                            assert(bs[j] == block_text(whole[j]));
                            lemma_results_at(res0, scan_blocks(before).blocks, j);
                        }
                        lemma_first_failing_block(bs, k);
                    }
                    return Err(m);
                },
            }
            rest = next;
        }
        proof {
            assert(encode_utf8(rest@) =~= Seq::<u8>::empty());
            assert(text_lines(encode_utf8(rest@)) =~= Seq::<Seq<u8>>::empty());
            assert(all =~= done);
        }
        proof {
            let bs = file_blocks(text@);
            lemma_results_at(result@, scan_blocks(done).blocks, 0);
            assert forall|j: int| 0 <= j < bs.len() implies (#[trigger] offsets_error(bs[j])) is None
                && parsed_offsets(result@[j], bs[j]) by {
                assert(bs[j] == block_text(scan_blocks(done).blocks[j]));
                lemma_results_at(result@, scan_blocks(done).blocks, j);
            }
            lemma_first_failing_block(bs, bs.len() as int);
        }
        Ok(result)
    }
}

} // verus!
