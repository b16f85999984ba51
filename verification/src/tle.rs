use sgp4::{Elements, TleError};
use vstd::prelude::*;
use crate::text::{
    chars_of, is_white_space, lemma_split_all_join, lemma_split_all_pieces, lemma_trim_shape,
    split_all, split_scan, string_from_range, trim, trim_bounds,
};

verus! {

#[verifier::external_type_specification]
#[verifier::external_body]
pub struct ExElements(sgp4::Elements);

#[verifier::external_type_specification]
#[verifier::external_body]
pub struct ExTleError(sgp4::TleError);

/// `Elements::clone`, which `sgp4` derives: a copy equal to the original.
/// The derived `Clone` of `Tle` calls it, and Verus accepts that derive
/// only with this specification in place.
pub assume_specification[ <sgp4::Elements as Clone>::clone ](e: &sgp4::Elements) -> (r: sgp4::Elements)
    ensures
        r == *e,
;

/// Whether `sgp4` accepts the two element lines (length, layout, fields,
/// checksums).
pub uninterp spec fn tle_lines_accepted(line1: Seq<u8>, line2: Seq<u8>) -> bool;

/// The orbital elements `sgp4` parses from the two lines, named `name`.
pub uninterp spec fn tle_elements(name: Seq<char>, line1: Seq<u8>, line2: Seq<u8>) -> Elements;

/// A line on which `sgp4`'s checksum test can run without underflowing:
/// when it is a full 69-byte line, its checksum byte is not below `'0'`.
pub open spec fn checksum_byte_in_range(line: Seq<u8>) -> bool {
    line.len() != 69 || line[68] >= 0x30
}

/// Calls `sgp4::Elements::from_tle(Some(name), line1, line2)`.
///
/// Claimed of it, from its source: it succeeds exactly when `from_lines`
/// accepts the two lines (the name is only stored afterwards); a success has
/// two 69-byte lines starting with `'1'` and `'2'`; the elements are a
/// function of the three arguments. Nothing is said of which error is given.
/// Inputs on which its checksum step would underflow are excluded.
#[verifier::external_body]
fn elements_from_tle(name: &String, line1: &[u8], line2: &[u8]) -> (r: Result<Elements, TleError>)
    requires
        checksum_byte_in_range(line1@),
        checksum_byte_in_range(line2@),
    ensures
        r is Ok <==> tle_lines_accepted(line1@, line2@),
        r is Ok ==> line1@.len() == 69 && line2@.len() == 69 && line1@[0] == 0x31 && line2@[0]
            == 0x32,
        r matches Ok(e) ==> e == tle_elements(name@, line1@, line2@),
{
    Elements::from_tle(Some(name.clone()), line1, line2)
}

/// One satellite's two-line element set with its name line.
#[derive(Debug, Clone)]
pub struct Tle {
    pub name: String,
    pub line1: String,
    pub line2: String,
    pub elements: Elements,
}

/// The three text lines of an element set.
pub type TleText = (Seq<char>, Seq<char>, Seq<char>);

impl View for Tle {
    type V = TleText;

    open spec fn view(&self) -> TleText {
        (self.name@, self.line1@, self.line2@)
    }
}

/// The trimmed lines of `pieces` that are not blank, in order.
pub open spec fn keep_nonblank(pieces: Seq<Seq<char>>) -> Seq<Seq<char>>
    decreases pieces.len(),
{
    if pieces.len() == 0 {
        Seq::empty()
    } else {
        let rest = keep_nonblank(pieces.drop_last());
        if trim(pieces.last()).len() > 0 {
            rest.push(trim(pieces.last()))
        } else {
            rest
        }
    }
}

/// The lines of `text` (split at `'\n'`), trimmed, blank ones left out.
pub open spec fn nonblank_lines(text: Seq<char>) -> Seq<Seq<char>> {
    keep_nonblank(split_all(text, '\n'))
}

/// Consecutive lines taken three at a time (name, line 1, line 2); one or
/// two lines left over at the end are ignored.
pub open spec fn line_triples(lines: Seq<Seq<char>>) -> Seq<TleText> {
    Seq::new(lines.len() / 3, |j: int| (lines[3 * j], lines[3 * j + 1], lines[3 * j + 2]))
}

/// The UTF-8 bytes of a line.
pub open spec fn line_bytes(line: Seq<char>) -> Seq<u8> {
    vstd::utf8::encode_utf8(line)
}

/// What one byte adds to a TLE line checksum: a digit its value, a minus
/// sign one, anything else nothing.
pub open spec fn checksum_value(b: u8) -> int {
    if 0x30 <= b <= 0x39 {
        b - 0x30
    } else if b == 0x2d {
        1
    } else {
        0
    }
}

/// The checksum sum of the first `n` bytes of `line`.
pub open spec fn checksum_sum(line: Seq<u8>, n: int) -> int
    decreases n,
{
    if n <= 0 {
        0
    } else {
        checksum_sum(line, n - 1) + checksum_value(line[n - 1])
    }
}

/// A decimal digit byte.
pub open spec fn is_digit_byte(b: u8) -> bool {
    0x30 <= b <= 0x39
}

/// A 69-byte element line whose last byte, the checksum character, is a
/// digit, with that digit set to the checksum of the 68 bytes before it
/// (their sum modulo 10); any other line as it is, so that a checksum
/// character that is not a digit still counts against the line.
pub open spec fn with_checksum(line: Seq<u8>) -> Seq<u8> {
    if line.len() == 69 && is_digit_byte(line[68]) {
        line.update(68, (0x30 + checksum_sum(line, 68) % 10) as u8)
    } else {
        line
    }
}

/// Whether an element set is kept: `sgp4` accepts its two lines, the value
/// of their checksum digits aside. A checksum character that is not a digit
/// rejects the set; one below `'0'` does so without consulting `sgp4`.
pub open spec fn triple_accepted(t: TleText) -> bool {
    &&& checksum_byte_in_range(with_checksum(line_bytes(t.1)))
    &&& checksum_byte_in_range(with_checksum(line_bytes(t.2)))
    &&& tle_lines_accepted(with_checksum(line_bytes(t.1)), with_checksum(line_bytes(t.2)))
}

/// The bytes of an element line with its checksum digit recomputed (when
/// its checksum character is a digit).
pub fn line_with_checksum(line: &str) -> (out: Vec<u8>)
    ensures
        out@ == with_checksum(line_bytes(line@)),
{
    let bytes = line.as_bytes();
    let mut out: Vec<u8> = Vec::new();
    let mut sum: u32 = 0;
    let mut i: usize = 0;
    while i < bytes.len()
        invariant
            bytes@ == line_bytes(line@),
            i <= bytes@.len(),
            out@ == bytes@.take(i as int),
            sum == checksum_sum(bytes@, if i < 68 { i as int } else { 68 }),
            sum <= 9 * i,
        decreases bytes@.len() - i,
    {
        let b = bytes[i];
        if i < 68 {
            if 0x30 <= b && b <= 0x39 {
                sum = sum + (b - 0x30) as u32;
            } else if b == 0x2d {
                sum = sum + 1;
            }
        }
        out.push(b);
        assert(bytes@.take(i + 1) =~= bytes@.take(i as int).push(b));
        i = i + 1;
    }
    assert(bytes@.take(bytes@.len() as int) =~= bytes@);
    if out.len() == 69 && 0x30 <= out[68] && out[68] <= 0x39 {
        let digit = (0x30 + sum % 10) as u8;
        out.set(68, digit);
    }
    out
}

/// The triples that parse, in order.
pub open spec fn keep_accepted(ts: Seq<TleText>) -> Seq<TleText>
    decreases ts.len(),
{
    if ts.len() == 0 {
        Seq::empty()
    } else {
        let rest = keep_accepted(ts.drop_last());
        if triple_accepted(ts.last()) {
            rest.push(ts.last())
        } else {
            rest
        }
    }
}

/// What `parse_tles` returns for `text`, as text.
pub open spec fn parsed_tles(text: Seq<char>) -> Seq<TleText> {
    keep_accepted(line_triples(nonblank_lines(text)))
}

/// Both element lines are 69 bytes long and start with `'1'` and `'2'`.
pub open spec fn element_lines_shaped(t: Tle) -> bool {
    &&& line_bytes(t.line1@).len() == 69
    &&& line_bytes(t.line2@).len() == 69
    &&& line_bytes(t.line1@)[0] == 0x31
    &&& line_bytes(t.line2@)[0] == 0x32
}

/// The elements of a parsed set are those `sgp4` gives for its lines.
pub open spec fn elements_match(t: Tle) -> bool {
    t.elements == tle_elements(
        t.name@,
        with_checksum(line_bytes(t.line1@)),
        with_checksum(line_bytes(t.line2@)),
    )
}

/// `spans` locate, in `chars`, exactly the lines `lines`.
pub open spec fn spans_spell(chars: Seq<char>, spans: Seq<(usize, usize)>, lines: Seq<Seq<char>>) -> bool {
    &&& spans.len() == lines.len()
    &&& forall|k: int|
        #![trigger spans[k]]
        0 <= k < spans.len() ==> {
            &&& spans[k].0 <= spans[k].1 <= chars.len()
            &&& chars.subrange(spans[k].0 as int, spans[k].1 as int) == lines[k]
        }
}

/// Where the line that holds position `i` of `chars` starts: just after
/// the last newline before `i`, or at 0.
pub open spec fn line_start(chars: Seq<char>, i: int) -> int
    decreases i,
{
    if i <= 0 {
        0
    } else if chars[i - 1] == '\n' {
        i
    } else {
        line_start(chars, i - 1)
    }
}

/// Where the line that holds position `i` of `chars` ends: at the first
/// newline from `i` on, or at the end.
pub open spec fn line_end(chars: Seq<char>, i: int) -> int
    decreases chars.len() - i,
{
    if i >= chars.len() {
        chars.len() as int
    } else if chars[i] == '\n' {
        i
    } else {
        line_end(chars, i + 1)
    }
}

/// `a..b` is the trimmed extent of the line that holds `a`: nonempty, with
/// only white space between the line's start and `a` and between `b` and
/// the line's end, and no white space at either end of `a..b`.
pub open spec fn trimmed_line_span(chars: Seq<char>, a: int, b: int) -> bool {
    &&& 0 <= a < b <= line_end(chars, a)
    &&& forall|p: int| line_start(chars, a) <= p < a ==> is_white_space(#[trigger] chars[p])
    &&& forall|p: int| b <= p < line_end(chars, a) ==> is_white_space(#[trigger] chars[p])
    &&& !is_white_space(chars[a])
    &&& !is_white_space(chars[b - 1])
}

/// A line that starts at `start` (0 or just after a newline) with no
/// newline up to `p` still holds `p`.
proof fn lemma_line_start(chars: Seq<char>, start: int, p: int)
    requires
        0 <= start <= p <= chars.len(),
        start == 0 || chars[start - 1] == '\n',
        forall|q: int| start <= q < p ==> chars[q] != '\n',
    ensures
        line_start(chars, p) == start,
    decreases p - start,
{
    if p > start {
        lemma_line_start(chars, start, p - 1);
    }
}

/// A line that ends at `end` (a newline or the end) with no newline from
/// `p` on holds `p`.
proof fn lemma_line_end(chars: Seq<char>, p: int, end: int)
    requires
        0 <= p <= end <= chars.len(),
        end == chars.len() || chars[end] == '\n',
        forall|q: int| p <= q < end ==> chars[q] != '\n',
    ensures
        line_end(chars, p) == end,
    decreases end - p,
{
    if p < end {
        lemma_line_end(chars, p + 1, end);
    }
}

/// Positions `(start, end)` in `chars` of its nonblank trimmed lines: each
/// is the trimmed extent of its line, each lies on a later line than the one
/// before, and they spell the nonblank trimmed lines in order.
pub fn nonblank_line_bounds(chars: &Vec<char>) -> (out: Vec<(usize, usize)>)
    ensures
        spans_spell(chars@, out@, nonblank_lines(chars@)),
        forall|k: int|
            0 <= k < out@.len() ==> trimmed_line_span(
                chars@,
                (#[trigger] out@[k]).0 as int,
                out@[k].1 as int,
            ),
        forall|k: int, j: int|
            #![trigger out@[k], out@[j]]
            0 <= k < j < out@.len() ==> line_end(chars@, out@[k].0 as int) < out@[j].0,
{
    let n = chars.len();
    let mut out: Vec<(usize, usize)> = Vec::new();
    let mut start: usize = 0;
    let ghost mut done: Seq<Seq<char>> = Seq::empty();
    let mut i: usize = 0;
    while i < n
        invariant
            n == chars@.len(),
            start <= i <= n,
            split_scan(chars@.take(i as int), '\n') == (done, chars@.subrange(start as int, i as int)),
            spans_spell(chars@, out@, keep_nonblank(done)),
            start == 0 || chars@[start - 1] == '\n',
            forall|q: int| start <= q < i ==> chars@[q] != '\n',
            forall|k: int|
                0 <= k < out@.len() ==> trimmed_line_span(
                    chars@,
                    (#[trigger] out@[k]).0 as int,
                    out@[k].1 as int,
                ),
            forall|k: int|
                0 <= k < out@.len() ==> line_end(chars@, (#[trigger] out@[k]).0 as int) < start,
            forall|k: int, j: int|
                #![trigger out@[k], out@[j]]
                0 <= k < j < out@.len() ==> line_end(chars@, out@[k].0 as int) < out@[j].0,
        decreases n - i,
    {
        assert(chars@.take(i + 1).drop_last() =~= chars@.take(i as int));
        if chars[i] == '\n' {
            let (a, b) = trim_bounds(chars, start, i);
            let ghost piece = chars@.subrange(start as int, i as int);
            let ghost before = out@;
            proof {
                assert(done.push(piece).drop_last() =~= done);
            }
            if a < b {
                proof {
                    lemma_line_start(chars@, start as int, a as int);
                    lemma_line_end(chars@, a as int, i as int);
                }
                out.push((a, b));
            }
            proof {
                assert(forall|k: int| 0 <= k < before.len() ==> out@[k] == before[k]);
                done = done.push(piece);
            }
            start = i + 1;
        }
        assert(chars@.subrange(start as int, i + 1) =~= if chars@[i as int] == '\n' {
            Seq::empty()
        } else {
            chars@.subrange(start as int, i as int).push(chars@[i as int])
        });
        i = i + 1;
    }
    assert(chars@.take(n as int) =~= chars@);
    let (a, b) = trim_bounds(chars, start, n);
    let ghost piece = chars@.subrange(start as int, n as int);
    let ghost before = out@;
    proof {
        assert(done.push(piece).drop_last() =~= done);
    }
    if a < b {
        proof {
            lemma_line_start(chars@, start as int, a as int);
            lemma_line_end(chars@, a as int, n as int);
        }
        out.push((a, b));
    }
    assert(forall|k: int| 0 <= k < before.len() ==> out@[k] == before[k]);
    out
}

/// The (name, line 1, line 2) texts of `data`: its nonblank trimmed lines
/// taken three at a time.
pub fn tle_line_groups(data: &str) -> (out: Vec<(String, String, String)>)
    ensures
        out@.len() == line_triples(nonblank_lines(data@)).len(),
        forall|j: int|
            0 <= j < out@.len() ==> (#[trigger] out@[j].0@, out@[j].1@, out@[j].2@)
                == line_triples(nonblank_lines(data@))[j],
{
    let chars = chars_of(data);
    let bounds = nonblank_line_bounds(&chars);
    let ghost lines = nonblank_lines(chars@);
    let mut out: Vec<(String, String, String)> = Vec::new();
    let mut k: usize = 0;
    while bounds.len() - k >= 3
        invariant
            chars@ == data@,
            lines == nonblank_lines(chars@),
            spans_spell(chars@, bounds@, lines),
            k % 3 == 0,
            k <= bounds@.len(),
            out@.len() == k / 3,
            forall|j: int|
                0 <= j < out@.len() ==> (#[trigger] out@[j].0@, out@[j].1@, out@[j].2@) == (
                    lines[3 * j],
                    lines[3 * j + 1],
                    lines[3 * j + 2],
                ),
        decreases bounds@.len() - k,
    {
        let (a0, b0) = bounds[k];
        let (a1, b1) = bounds[k + 1];
        let (a2, b2) = bounds[k + 2];
        assert(bounds@[k as int] == (a0, b0));
        assert(bounds@[k + 1] == (a1, b1));
        assert(bounds@[k + 2] == (a2, b2));
        let name = string_from_range(&chars, a0, b0);
        let line1 = string_from_range(&chars, a1, b1);
        let line2 = string_from_range(&chars, a2, b2);
        let ghost before = out@;
        out.push((name, line1, line2));
        proof {
            assert(forall|j: int| 0 <= j < before.len() ==> out@[j] == before[j]);
            assert(out@[before.len() as int] == (name, line1, line2));
            assert(3 * (k / 3) == k);
        }
        k = k + 3;
    }
    out
}

/// Parses TLE text: nonblank trimmed lines taken three at a time (name,
/// line 1, line 2); sets that `sgp4` rejects are skipped, and one or two
/// lines left over at the end are ignored. A wrong checksum digit is not
/// held against a set: `sgp4` is handed each line with its checksum digit
/// recomputed. A checksum character that is not a digit rejects the set.
pub fn parse_tles(data: &str) -> (tles: Vec<Tle>)
    ensures
        tles@.map_values(|t: Tle| t@) == parsed_tles(data@),
        forall|i: int| 0 <= i < tles@.len() ==> elements_match(#[trigger] tles@[i]),
        forall|i: int| 0 <= i < tles@.len() ==> element_lines_shaped(#[trigger] tles@[i]),
{
    let groups = tle_line_groups(data);
    let ghost triples = line_triples(nonblank_lines(data@));
    let mut tles: Vec<Tle> = Vec::new();
    let mut g: usize = 0;
    while g < groups.len()
        invariant
            g <= groups@.len(),
            groups@.len() == triples.len(),
            forall|j: int|
                0 <= j < groups@.len() ==> (#[trigger] groups@[j].0@, groups@[j].1@, groups@[j].2@)
                    == triples[j],
            tles@.map_values(|t: Tle| t@) == keep_accepted(triples.take(g as int)),
            forall|i: int| 0 <= i < tles@.len() ==> elements_match(#[trigger] tles@[i]),
            forall|i: int| 0 <= i < tles@.len() ==> element_lines_shaped(#[trigger] tles@[i]),
        decreases groups@.len() - g,
    {
        let (name, line1, line2) = &groups[g];
        let ghost t = triples[g as int];
        assert(triples.take(g + 1).drop_last() =~= triples.take(g as int));
        assert(triples.take(g + 1).last() == t);
        assert((groups@[g as int].0@, groups@[g as int].1@, groups@[g as int].2@) == t);
        let b1 = line_with_checksum(line1.as_str());
        let b2 = line_with_checksum(line2.as_str());
        let in_range1 = b1.len() != 69 || b1[68] >= 0x30;
        let in_range2 = b2.len() != 69 || b2[68] >= 0x30;
        if in_range1 && in_range2 {
            match elements_from_tle(name, b1.as_slice(), b2.as_slice()) {
                Ok(elements) => {
                    assert(line_bytes(line1@).len() == 69 && line_bytes(line2@).len() == 69);
                    assert(line_bytes(line1@)[0] == 0x31 && line_bytes(line2@)[0] == 0x32);
                    let tle = Tle {
                        name: name.clone(),
                        line1: line1.clone(),
                        line2: line2.clone(),
                        elements,
                    };
                    let ghost before = tles@;
                    tles.push(tle);
                    proof {
                        assert(tles@.map_values(|t: Tle| t@) =~= before.map_values(|t: Tle| t@).push(t));
                    }
                },
                Err(_) => {
                    assert(!triple_accepted(t));
                },
            }
        } else {
            assert(!triple_accepted(t));
        }
        g = g + 1;
    }
    assert(triples.take(groups@.len() as int) =~= triples);
    tles
}

proof fn lemma_keep_nonblank_concat(p1: Seq<Seq<char>>, p2: Seq<Seq<char>>)
    ensures
        keep_nonblank(p1 + p2) == keep_nonblank(p1) + keep_nonblank(p2),
    decreases p2.len(),
{
    if p2.len() == 0 {
        assert(p1 + p2 =~= p1);
        assert(keep_nonblank(p1) + keep_nonblank(p2) =~= keep_nonblank(p1));
    } else {
        lemma_keep_nonblank_concat(p1, p2.drop_last());
        assert((p1 + p2).drop_last() =~= p1 + p2.drop_last());
        assert((p1 + p2).last() == p2.last());
        let t = trim(p2.last());
        assert((keep_nonblank(p1) + keep_nonblank(p2.drop_last())).push(t) =~= keep_nonblank(p1)
            + keep_nonblank(p2.drop_last()).push(t));
    }
}

proof fn lemma_keep_accepted_concat(t1: Seq<TleText>, t2: Seq<TleText>)
    ensures
        keep_accepted(t1 + t2) == keep_accepted(t1) + keep_accepted(t2),
    decreases t2.len(),
{
    if t2.len() == 0 {
        assert(t1 + t2 =~= t1);
        assert(keep_accepted(t1) + keep_accepted(t2) =~= keep_accepted(t1));
    } else {
        lemma_keep_accepted_concat(t1, t2.drop_last());
        assert((t1 + t2).drop_last() =~= t1 + t2.drop_last());
        assert((t1 + t2).last() == t2.last());
        assert((keep_accepted(t1) + keep_accepted(t2.drop_last())).push(t2.last()) =~= keep_accepted(
            t1,
        ) + keep_accepted(t2.drop_last()).push(t2.last()));
    }
}

proof fn lemma_line_triples_concat(l1: Seq<Seq<char>>, l2: Seq<Seq<char>>)
    requires
        l1.len() % 3 == 0,
    ensures
        line_triples(l1 + l2) == line_triples(l1) + line_triples(l2),
{
    let l = l1 + l2;
    assert((l1.len() + l2.len()) / 3 == l1.len() / 3 + l2.len() / 3);
    assert forall|j: int| 0 <= j < line_triples(l).len() implies #[trigger] line_triples(l)[j] == (
    line_triples(l1) + line_triples(l2))[j] by {
        if j < l1.len() / 3 {
            assert(3 * j + 2 < l1.len());
        } else {
            let j2 = j - l1.len() / 3;
            assert(3 * j == l1.len() + 3 * j2);
        }
    }
    assert(line_triples(l) =~= line_triples(l1) + line_triples(l2));
}

/// TLE texts can be joined: the nonblank lines of two texts joined by a
/// newline are those of the first followed by those of the second.
pub proof fn lemma_nonblank_lines_join(a: Seq<char>, b: Seq<char>)
    ensures
        nonblank_lines(a.push('\n') + b) == nonblank_lines(a) + nonblank_lines(b),
{
    lemma_split_all_join(a, b, '\n');
    lemma_keep_nonblank_concat(split_all(a, '\n'), split_all(b, '\n'));
}

/// Joining two TLE texts parses to the sets of the first followed by those
/// of the second, when the first has whole groups of three lines.
pub proof fn lemma_parse_join(a: Seq<char>, b: Seq<char>)
    requires
        nonblank_lines(a).len() % 3 == 0,
    ensures
        parsed_tles(a.push('\n') + b) == parsed_tles(a) + parsed_tles(b),
{
    lemma_nonblank_lines_join(a, b);
    lemma_line_triples_concat(nonblank_lines(a), nonblank_lines(b));
    lemma_keep_accepted_concat(line_triples(nonblank_lines(a)), line_triples(nonblank_lines(b)));
}

/// A line of the text as the parser sees it: not empty, no white space at
/// either end, no line break inside.
pub open spec fn clean_line(l: Seq<char>) -> bool {
    &&& l.len() > 0
    &&& !is_white_space(l[0])
    &&& !is_white_space(l.last())
    &&& !l.contains('\n')
}

proof fn lemma_keep_nonblank_clean(pieces: Seq<Seq<char>>)
    requires
        forall|k: int| 0 <= k < pieces.len() ==> !(#[trigger] pieces[k]).contains('\n'),
    ensures
        forall|k: int| 0 <= k < keep_nonblank(pieces).len() ==> clean_line(#[trigger] keep_nonblank(pieces)[k]),
    decreases pieces.len(),
{
    if pieces.len() > 0 {
        let rest = pieces.drop_last();
        assert forall|k: int| 0 <= k < rest.len() implies !(#[trigger] rest[k]).contains('\n') by {
            assert(rest[k] == pieces[k]);
        }
        lemma_keep_nonblank_clean(rest);
        let p = pieces.last();
        let t = trim(p);
        lemma_trim_shape(p);
        if t.len() > 0 {
            assert(!t.contains('\n')) by {
                let i = choose|i: int| 0 <= i && i + t.len() <= p.len() && #[trigger] p.subrange(i, i + t.len()) == t;
                if t.contains('\n') {
                    let q = choose|q: int| 0 <= q < t.len() && t[q] == '\n';
                    assert(p[i + q] == t[q]);
                }
            }
            let kept = keep_nonblank(pieces);
            assert(clean_line(t));
            assert forall|k: int| 0 <= k < kept.len() implies clean_line(#[trigger] kept[k]) by {
                if k < kept.len() - 1 {
                    assert(kept[k] == keep_nonblank(rest)[k]);
                } else {
                    assert(kept[k] == t);
                }
            }
        } else {
            assert(keep_nonblank(pieces) == keep_nonblank(rest));
        }
    }
}

/// The lines the parser works on are trimmed and nonblank, so TLE names come
/// out without surrounding white space.
pub proof fn lemma_nonblank_lines_clean(text: Seq<char>)
    ensures
        forall|k: int| 0 <= k < nonblank_lines(text).len() ==> clean_line(#[trigger] nonblank_lines(text)[k]),
{
    lemma_split_all_pieces(text, '\n');
    lemma_keep_nonblank_clean(split_all(text, '\n'));
}

proof fn lemma_keep_accepted_len(ts: Seq<TleText>)
    ensures
        keep_accepted(ts).len() <= ts.len(),
        forall|i: int| 0 <= i < keep_accepted(ts).len() ==> triple_accepted(#[trigger] keep_accepted(ts)[i]),
    decreases ts.len(),
{
    if ts.len() > 0 {
        lemma_keep_accepted_len(ts.drop_last());
        let kept = keep_accepted(ts);
        let rest = keep_accepted(ts.drop_last());
        assert forall|i: int| 0 <= i < kept.len() implies triple_accepted(#[trigger] kept[i]) by {
            if i < rest.len() {
                assert(kept[i] == rest[i]);
            }
        }
    }
}

/// Every parsed set was accepted by `sgp4`, and there are at most a third as
/// many sets as nonblank lines.
pub proof fn lemma_parsed_sets_accepted(text: Seq<char>)
    ensures
        parsed_tles(text).len() <= nonblank_lines(text).len() / 3,
        forall|i: int| 0 <= i < parsed_tles(text).len() ==> triple_accepted(#[trigger] parsed_tles(text)[i]),
{
    lemma_keep_accepted_len(line_triples(nonblank_lines(text)));
}

proof fn lemma_keep_accepted_from(ts: Seq<TleText>)
    ensures
        forall|i: int|
            0 <= i < keep_accepted(ts).len() ==> exists|j: int|
                0 <= j < ts.len() && ts[j] == #[trigger] keep_accepted(ts)[i],
    decreases ts.len(),
{
    if ts.len() > 0 {
        let rest = ts.drop_last();
        lemma_keep_accepted_from(rest);
        let kept = keep_accepted(ts);
        assert forall|i: int| 0 <= i < kept.len() implies exists|j: int|
            0 <= j < ts.len() && ts[j] == #[trigger] kept[i] by {
            if i < keep_accepted(rest).len() {
                let j = choose|j: int| 0 <= j < rest.len() && rest[j] == keep_accepted(rest)[i];
                assert(ts[j] == kept[i]);
            } else {
                assert(ts[ts.len() - 1] == kept[i]);
            }
        }
    }
}

/// When both element lines are 69 bytes long and end in a decimal digit,
/// the set is kept exactly when `sgp4` accepts the lines with their checksum
/// digits recomputed: no checksum digit, `'0'` included, rejects a set.
pub proof fn lemma_digit_checksums_defer_to_sgp4(t: TleText)
    requires
        line_bytes(t.1).len() == 69,
        line_bytes(t.2).len() == 69,
        0x30 <= line_bytes(t.1)[68] <= 0x39,
        0x30 <= line_bytes(t.2)[68] <= 0x39,
    ensures
        triple_accepted(t) == tle_lines_accepted(
            with_checksum(line_bytes(t.1)),
            with_checksum(line_bytes(t.2)),
        ),
        0x30 <= with_checksum(line_bytes(t.1))[68] <= 0x39,
        0x30 <= with_checksum(line_bytes(t.2))[68] <= 0x39,
{
}

/// Recomputing the checksum touches only the checksum character, keeps it a
/// digit, and leaves a line whose checksum digit is already right as it is.
pub proof fn lemma_checksum_recompute(line: Seq<u8>)
    ensures
        with_checksum(line).len() == line.len(),
        forall|i: int| 0 <= i < line.len() && i != 68 ==> #[trigger] with_checksum(line)[i] == line[i],
        line.len() == 69 && is_digit_byte(line[68]) ==> is_digit_byte(with_checksum(line)[68]),
        line.len() == 69 && is_digit_byte(line[68]) && (line[68] - 0x30) == checksum_sum(line, 68) % 10
            ==> with_checksum(line) == line,
{
    if line.len() == 69 && is_digit_byte(line[68]) && (line[68] - 0x30) == checksum_sum(line, 68)
        % 10 {
        assert(with_checksum(line) =~= line);
    }
}

/// The name and both lines of every parsed set are trimmed, nonblank text
/// lines.
pub proof fn lemma_parsed_lines_clean(text: Seq<char>)
    ensures
        forall|i: int|
            0 <= i < parsed_tles(text).len() ==> {
                &&& clean_line((#[trigger] parsed_tles(text)[i]).0)
                &&& clean_line(parsed_tles(text)[i].1)
                &&& clean_line(parsed_tles(text)[i].2)
            },
{
    let lines = nonblank_lines(text);
    let triples = line_triples(lines);
    lemma_nonblank_lines_clean(text);
    lemma_keep_accepted_from(triples);
    assert forall|i: int| 0 <= i < parsed_tles(text).len() implies {
        &&& clean_line((#[trigger] parsed_tles(text)[i]).0)
        &&& clean_line(parsed_tles(text)[i].1)
        &&& clean_line(parsed_tles(text)[i].2)
    } by {
        let j = choose|j: int| 0 <= j < triples.len() && triples[j] == parsed_tles(text)[i];
        assert(3 * j + 2 < lines.len());
        assert(triples[j] == (lines[3 * j], lines[3 * j + 1], lines[3 * j + 2]));
    }
}

/// Cached element sets younger than this many seconds are used without
/// downloading fresh ones.
pub const CACHE_MAX_AGE_SECS: u64 = 7200;

/// Where element sets are read from.
#[derive(Debug, Clone, Copy, PartialEq, Eq, Structural)]
pub enum TleSource {
    Cache,
    Download,
}

/// Why no element sets could be had.
#[derive(Debug, Clone, Copy, PartialEq, Eq, Structural)]
pub enum FetchError {
    /// The download failed and there is no cache to fall back on.
    NoCache,
}

impl FetchError {
    /// The message reported for this error.
    pub fn message(&self) -> (m: &'static str)
        ensures
            m@ == "No cache available and fetch failed."@,
    {
        "No cache available and fetch failed."
    }
}

/// Where to read element sets from, given the age in whole seconds of the
/// cache file (`None` when there is none or its age cannot be told): the
/// cache while it is younger than two hours, else a download.
pub fn choose_tle_source(cache_age_secs: Option<u64>) -> (source: TleSource)
    ensures
        source == (match cache_age_secs {
            Some(age) => if age < CACHE_MAX_AGE_SECS {
                TleSource::Cache
            } else {
                TleSource::Download
            },
            None => TleSource::Download,
        }),
{
    match cache_age_secs {
        Some(age) => if age < CACHE_MAX_AGE_SECS {
            TleSource::Cache
        } else {
            TleSource::Download
        },
        None => TleSource::Download,
    }
}

/// After a failed download: the cache when there is one, else an error.
pub fn fallback_after_failed_download(cache_exists: bool) -> (r: Result<TleSource, FetchError>)
    ensures
        r == (if cache_exists {
            Ok::<TleSource, FetchError>(TleSource::Cache)
        } else {
            Err::<TleSource, FetchError>(FetchError::NoCache)
        }),
{
    if cache_exists {
        Ok(TleSource::Cache)
    } else {
        Err(FetchError::NoCache)
    }
}

} // verus!
