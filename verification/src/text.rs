use vstd::prelude::*;

verus! {

/// `String::push` appends one character.
pub assume_specification[ String::push ](s: &mut String, ch: char)
    ensures
        final(s)@ == old(s)@.push(ch),
;

/// Unicode `White_Space` property: the characters `char::is_whitespace`
/// (and so `str::trim`) treats as white space.
pub open spec fn is_white_space(c: char) -> bool {
    let u = c as u32;
    ||| 0x09 <= u <= 0x0D
    ||| u == 0x20
    ||| u == 0x85
    ||| u == 0xA0
    ||| u == 0x1680
    ||| 0x2000 <= u <= 0x200A
    ||| u == 0x2028
    ||| u == 0x2029
    ||| u == 0x202F
    ||| u == 0x205F
    ||| u == 0x3000
}

/// `s` without its leading white space.
pub open spec fn trim_start(s: Seq<char>) -> Seq<char>
    decreases s.len(),
{
    if s.len() > 0 && is_white_space(s[0]) {
        trim_start(s.drop_first())
    } else {
        s
    }
}

/// `s` without its trailing white space.
pub open spec fn trim_end(s: Seq<char>) -> Seq<char>
    decreases s.len(),
{
    if s.len() > 0 && is_white_space(s.last()) {
        trim_end(s.drop_last())
    } else {
        s
    }
}

/// `s` without leading and trailing white space, as `str::trim` gives it.
pub open spec fn trim(s: Seq<char>) -> Seq<char> {
    trim_end(trim_start(s))
}

/// Splitting a sequence at each separator, scanned left to right:
/// the pieces completed so far and the piece still open.
pub open spec fn split_scan<T>(s: Seq<T>, sep: T) -> (Seq<Seq<T>>, Seq<T>)
    decreases s.len(),
{
    if s.len() == 0 {
        (Seq::empty(), Seq::empty())
    } else {
        let (done, open) = split_scan(s.drop_last(), sep);
        if s.last() == sep {
            (done.push(open), Seq::empty())
        } else {
            (done, open.push(s.last()))
        }
    }
}

/// The pieces of `s` between separators (one more piece than separators).
pub open spec fn split_all<T>(s: Seq<T>, sep: T) -> Seq<Seq<T>> {
    split_scan(s, sep).0.push(split_scan(s, sep).1)
}

/// A sequence without separators scans as one open piece.
pub proof fn lemma_scan_without_separator<T>(s: Seq<T>, sep: T)
    requires
        !s.contains(sep),
    ensures
        split_scan(s, sep) == (Seq::<Seq<T>>::empty(), s),
    decreases s.len(),
{
    if s.len() > 0 {
        assert(!s.drop_last().contains(sep)) by {
            if s.drop_last().contains(sep) {
                let k = choose|k: int| 0 <= k < s.drop_last().len() && s.drop_last()[k] == sep;
                assert(s[k] == sep);
            }
        }
        lemma_scan_without_separator(s.drop_last(), sep);
        assert(s.drop_last().push(s.last()) =~= s);
    } else {
        assert(s =~= Seq::<T>::empty());
    }
}

/// Scanning `x + y` is scanning `x`, then scanning its open piece followed
/// by `y`.
pub proof fn lemma_scan_concat<T>(x: Seq<T>, y: Seq<T>, sep: T)
    ensures
        split_scan(x + y, sep) == (
            split_scan(x, sep).0 + split_scan(split_scan(x, sep).1 + y, sep).0,
            split_scan(split_scan(x, sep).1 + y, sep).1,
        ),
    decreases y.len(),
{
    let (d, o) = split_scan(x, sep);
    if y.len() == 0 {
        assert(x + y =~= x);
        assert(o + y =~= o);
        lemma_scan_open_piece(x, sep);
        lemma_scan_without_separator(o, sep);
        assert(d + Seq::<Seq<T>>::empty() =~= d);
    } else {
        let y1 = y.drop_last();
        lemma_scan_concat(x, y1, sep);
        assert((x + y).drop_last() =~= x + y1);
        assert((o + y).drop_last() =~= o + y1);
        assert((x + y).last() == y.last());
        assert((o + y).last() == y.last());
        let (d1, o1) = split_scan(o + y1, sep);
        assert((d + d1).push(o1) =~= d + d1.push(o1));
    }
}

/// The open piece of a scan holds no separator.
pub proof fn lemma_scan_open_piece<T>(s: Seq<T>, sep: T)
    ensures
        !split_scan(s, sep).1.contains(sep),
    decreases s.len(),
{
    if s.len() > 0 {
        lemma_scan_open_piece(s.drop_last(), sep);
        let (done, open) = split_scan(s.drop_last(), sep);
        if s.last() != sep {
            assert forall|k: int| 0 <= k < open.push(s.last()).len() implies open.push(s.last())[k]
                != sep by {
                if k < open.len() {
                    assert(open.push(s.last())[k] == open[k]);
                }
            }
        }
    }
}

/// The completed pieces of a scan hold no separator.
pub proof fn lemma_scan_done_pieces<T>(s: Seq<T>, sep: T)
    ensures
        forall|k: int|
            0 <= k < split_scan(s, sep).0.len() ==> !(#[trigger] split_scan(s, sep).0[k]).contains(
                sep,
            ),
    decreases s.len(),
{
    if s.len() > 0 {
        lemma_scan_done_pieces(s.drop_last(), sep);
        lemma_scan_open_piece(s.drop_last(), sep);
    }
}

/// Every piece of `split_all` is free of separators.
pub proof fn lemma_split_all_pieces<T>(s: Seq<T>, sep: T)
    ensures
        forall|k: int|
            0 <= k < split_all(s, sep).len() ==> !(#[trigger] split_all(s, sep)[k]).contains(sep),
{
    lemma_scan_done_pieces(s, sep);
    lemma_scan_open_piece(s, sep);
    let (d, o) = split_scan(s, sep);
    assert forall|k: int| 0 <= k < split_all(s, sep).len() implies !(
    #[trigger] split_all(s, sep)[k]).contains(sep) by {
        if k < d.len() {
            assert(split_all(s, sep)[k] == d[k]);
        }
    }
}

/// Splitting text joined by a separator splits each part.
pub proof fn lemma_split_all_join<T>(a: Seq<T>, b: Seq<T>, sep: T)
    ensures
        split_all(a.push(sep) + b, sep) == split_all(a, sep) + split_all(b, sep),
{
    lemma_scan_concat(a.push(sep), b, sep);
    assert(a.push(sep).drop_last() =~= a);
    assert(Seq::<T>::empty() + b =~= b);
    let (d, o) = split_scan(b, sep);
    assert((split_all(a, sep) + d).push(o) =~= split_all(a, sep) + d.push(o));
}

/// `trim_start` removes a prefix, and what it keeps does not start with
/// white space.
pub proof fn lemma_trim_start_shape(s: Seq<char>)
    ensures
        trim_start(s).len() <= s.len(),
        trim_start(s) == s.subrange(s.len() - trim_start(s).len(), s.len() as int),
        trim_start(s).len() > 0 ==> !is_white_space(trim_start(s)[0]),
    decreases s.len(),
{
    if s.len() > 0 && is_white_space(s[0]) {
        lemma_trim_start_shape(s.drop_first());
        let t = trim_start(s.drop_first());
        assert(s.drop_first().subrange(s.len() - 1 - t.len(), s.len() - 1) =~= s.subrange(
            s.len() - t.len(),
            s.len() as int,
        ));
    } else {
        assert(s.subrange(0, s.len() as int) =~= s);
    }
}

/// `trim_end` removes a suffix, and what it keeps does not end with white
/// space.
pub proof fn lemma_trim_end_shape(s: Seq<char>)
    ensures
        trim_end(s).len() <= s.len(),
        trim_end(s) == s.subrange(0, trim_end(s).len() as int),
        trim_end(s).len() > 0 ==> !is_white_space(trim_end(s).last()),
    decreases s.len(),
{
    if s.len() > 0 && is_white_space(s.last()) {
        lemma_trim_end_shape(s.drop_last());
        let t = trim_end(s.drop_last());
        assert(s.drop_last().subrange(0, t.len() as int) =~= s.subrange(0, t.len() as int));
    } else {
        assert(s.subrange(0, s.len() as int) =~= s);
    }
}

/// A trimmed text is a piece of the original that neither starts nor ends
/// with white space.
pub proof fn lemma_trim_shape(s: Seq<char>)
    ensures
        trim(s).len() > 0 ==> !is_white_space(trim(s)[0]) && !is_white_space(trim(s).last()),
        exists|i: int|
            0 <= i && i + trim(s).len() <= s.len() && #[trigger] s.subrange(i, i + trim(s).len())
                == trim(s),
{
    lemma_trim_start_shape(s);
    let t = trim_start(s);
    lemma_trim_end_shape(t);
    let u = trim_end(t);
    if u.len() > 0 {
        assert(u[0] == t[0]);
    }
    let i = s.len() - t.len();
    assert(s.subrange(i, i + u.len()) =~= u);
}

/// Unicode white-space test.
pub fn is_white_space_char(c: char) -> (b: bool)
    ensures
        b == is_white_space(c),
{
    let u = c as u32;
    (0x09 <= u && u <= 0x0D) || u == 0x20 || u == 0x85 || u == 0xA0 || u == 0x1680 || (0x2000
        <= u && u <= 0x200A) || u == 0x2028 || u == 0x2029 || u == 0x202F || u == 0x205F || u
        == 0x3000
}

proof fn lemma_trim_start_skip(s: Seq<char>, a: int)
    requires
        0 <= a <= s.len(),
        forall|i: int| 0 <= i < a ==> is_white_space(#[trigger] s[i]),
        a < s.len() ==> !is_white_space(s[a]),
    ensures
        trim_start(s) == s.subrange(a, s.len() as int),
    decreases a,
{
    if a == 0 {
        assert(s.subrange(0, s.len() as int) =~= s);
    } else {
        assert(is_white_space(s[0]));
        let t = s.drop_first();
        assert forall|i: int| 0 <= i < a - 1 implies is_white_space(#[trigger] t[i]) by {
            assert(t[i] == s[i + 1]);
        }
        lemma_trim_start_skip(t, a - 1);
        assert(t.subrange(a - 1, t.len() as int) =~= s.subrange(a, s.len() as int));
    }
}

proof fn lemma_trim_end_take(s: Seq<char>, b: int)
    requires
        0 <= b <= s.len(),
        forall|i: int| b <= i < s.len() ==> is_white_space(#[trigger] s[i]),
        b > 0 ==> !is_white_space(s[b - 1]),
    ensures
        trim_end(s) == s.subrange(0, b),
    decreases s.len() - b,
{
    if b == s.len() {
        assert(s.subrange(0, b) =~= s);
    } else {
        assert(is_white_space(s[s.len() - 1]));
        let t = s.drop_last();
        assert forall|i: int| b <= i < t.len() implies is_white_space(#[trigger] t[i]) by {
            assert(t[i] == s[i]);
        }
        lemma_trim_end_take(t, b);
        assert(t.subrange(0, b) =~= s.subrange(0, b));
    }
}

/// The bounds `(a, b)` of `chars[from..to]` with surrounding white space
/// removed, as positions in `chars`.
pub fn trim_bounds(chars: &Vec<char>, from: usize, to: usize) -> (r: (usize, usize))
    requires
        from <= to <= chars@.len(),
    ensures
        from <= r.0 <= r.1 <= to,
        chars@.subrange(r.0 as int, r.1 as int) == trim(chars@.subrange(from as int, to as int)),
        forall|i: int| from <= i < r.0 ==> is_white_space(#[trigger] chars@[i]),
        forall|i: int| r.1 <= i < to ==> is_white_space(#[trigger] chars@[i]),
        r.0 < r.1 ==> !is_white_space(chars@[r.0 as int]) && !is_white_space(chars@[r.1 - 1]),
{
    let mut a = from;
    while a < to && is_white_space_char(chars[a])
        invariant
            from <= a <= to <= chars@.len(),
            forall|i: int| from <= i < a ==> is_white_space(#[trigger] chars@[i]),
        decreases to - a,
    {
        a = a + 1;
    }
    let mut b = to;
    while b > a && is_white_space_char(chars[b - 1])
        invariant
            from <= a <= b <= to <= chars@.len(),
            forall|i: int| b <= i < to ==> is_white_space(#[trigger] chars@[i]),
        decreases b - a,
    {
        b = b - 1;
    }
    proof {
        let s = chars@.subrange(from as int, to as int);
        lemma_trim_start_skip(s, a - from);
        let t = s.subrange(a - from, s.len() as int);
        assert(t =~= chars@.subrange(a as int, to as int));
        if b > a {
            assert(!is_white_space(chars@[b - 1]));
        }
        lemma_trim_end_take(t, b - a);
        assert(t.subrange(0, b - a) =~= chars@.subrange(a as int, b as int));
    }
    (a, b)
}

/// The characters of a string slice, in order.
pub fn chars_of(s: &str) -> (out: Vec<char>)
    ensures
        out@ == s@,
{
    let mut out: Vec<char> = Vec::new();
    for c in it: s.chars()
        invariant
            out@ == it.seq().take(it.index()),
    {
        out.push(c);
    }
    out
}

/// A `String` holding `chars[from..to]`.
pub fn string_from_range(chars: &Vec<char>, from: usize, to: usize) -> (s: String)
    requires
        from <= to <= chars@.len(),
    ensures
        s@ == chars@.subrange(from as int, to as int),
{
    let mut s = String::new();
    let mut i = from;
    while i < to
        invariant
            from <= i <= to <= chars@.len(),
            s@ == chars@.subrange(from as int, i as int),
        decreases to - i,
    {
        s.push(chars[i]);
        assert(chars@.subrange(from as int, i + 1) =~= chars@.subrange(from as int, i as int).push(chars@[i as int]));
        i = i + 1;
    }
    s
}

/// The decimal digit character for `d` (0 to 9).
pub open spec fn digit_char(d: nat) -> char {
    (0x30 + d) as char
}

/// The decimal representation of `n`, without leading zeros.
pub open spec fn decimal(n: nat) -> Seq<char>
    decreases n,
{
    if n < 10 {
        seq![digit_char(n)]
    } else {
        decimal(n / 10).push(digit_char(n % 10))
    }
}

/// Appends the decimal representation of `n` to `s`.
pub fn push_decimal(s: &mut String, n: usize)
    ensures
        final(s)@ == old(s)@ + decimal(n as nat),
    decreases n,
{
    if n >= 10 {
        push_decimal(s, n / 10);
    }
    let d = (n % 10) as u8;
    let c = (0x30u8 + d) as char;
    assert(c == digit_char((n % 10) as nat));
    s.push(c);
    proof {
        if n < 10 {
            assert(old(s)@.push(c) =~= old(s)@ + decimal(n as nat));
        } else {
            assert(decimal(n as nat) == decimal((n / 10) as nat).push(c));
            assert((old(s)@ + decimal((n / 10) as nat)).push(c) =~= old(s)@ + decimal(n as nat));
        }
    }
}

} // verus!
