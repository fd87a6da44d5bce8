//! Text primitives shared by the parsers of this crate.
//!
//! Every parser here works on the characters of its input (`Seq<char>` in
//! specifications, a `Vec<char>` or a range of it at run time).  The spec
//! functions follow the behaviour of the corresponding `str` methods of
//! Rust's standard library (`trim`, `lines`, `split`, `split_whitespace`,
//! integer `parse`, ...), so that contracts can speak of them directly.
use vstd::prelude::*;

verus! {

broadcast use vstd::string::group_string_axioms;

// ---------------------------------------------------------------------------
// Characters
// ---------------------------------------------------------------------------

/// Unicode `White_Space`, as tested by `char::is_whitespace`.
pub open spec fn is_whitespace(c: char) -> bool {
    let n = c as u32;
    (9 <= n && n <= 13) || n == 32 || n == 0x85 || n == 0xA0 || n == 0x1680 || (0x2000 <= n
        && n <= 0x200A) || n == 0x2028 || n == 0x2029 || n == 0x202F || n == 0x205F || n
        == 0x3000
}

/// ASCII decimal digit.
pub open spec fn is_digit(c: char) -> bool {
    '0' <= c && c <= '9'
}

/// Numeric value of an ASCII decimal digit.
pub open spec fn digit_value(c: char) -> nat {
    ((c as u32) - ('0' as u32)) as nat
}

/// The ASCII digit of a value below ten.
pub open spec fn digit_char(d: nat) -> char {
    if d == 0 {
        '0'
    } else if d == 1 {
        '1'
    } else if d == 2 {
        '2'
    } else if d == 3 {
        '3'
    } else if d == 4 {
        '4'
    } else if d == 5 {
        '5'
    } else if d == 6 {
        '6'
    } else if d == 7 {
        '7'
    } else if d == 8 {
        '8'
    } else {
        '9'
    }
}

pub fn is_ws(c: char) -> (b: bool)
    ensures
        b == is_whitespace(c),
{
    let n = c as u32;
    (9 <= n && n <= 13) || n == 32 || n == 0x85 || n == 0xA0 || n == 0x1680 || (0x2000 <= n
        && n <= 0x200A) || n == 0x2028 || n == 0x2029 || n == 0x202F || n == 0x205F || n
        == 0x3000
}

pub fn is_ascii_digit(c: char) -> (b: bool)
    ensures
        b == is_digit(c),
{
    '0' <= c && c <= '9'
}

// ---------------------------------------------------------------------------
// Building strings
// ---------------------------------------------------------------------------

/// `String::push`: appends one character to the string.
#[verifier::external_body]
pub(crate) fn push_char(s: &mut String, c: char)
    ensures
        final(s)@ == old(s)@.push(c),
{
    s.push(c);
}

/// The characters `v[lo..hi]` as a new string.
pub fn string_of(v: &[char], lo: usize, hi: usize) -> (s: String)
    requires
        lo <= hi <= v@.len(),
    ensures
        s@ == v@.subrange(lo as int, hi as int),
{
    let mut s = String::new();
    let mut i = lo;
    while i < hi
        invariant
            lo <= i <= hi <= v@.len(),
            s@ == v@.subrange(lo as int, i as int),
        decreases hi - i,
    {
        push_char(&mut s, v[i]);
        assert(v@.subrange(lo as int, i + 1) =~= v@.subrange(lo as int, i as int).push(v@[i as int]));
        i = i + 1;
    }
    s
}

/// The characters of a string slice, in order.
pub fn chars_of(s: &str) -> (v: Vec<char>)
    ensures
        v@ == s@,
{
    let mut v: Vec<char> = Vec::new();
    for c in it: s.chars()
        invariant
            v@ == it.seq().take(it.index() as int),
    {
        v.push(c);
    }
    v
}

// ---------------------------------------------------------------------------
// Trimming
// ---------------------------------------------------------------------------

/// `str::trim_start`.
pub open spec fn trim_start(s: Seq<char>) -> Seq<char>
    decreases s.len(),
{
    if s.len() > 0 && is_whitespace(s[0]) {
        trim_start(s.drop_first())
    } else {
        s
    }
}

/// `str::trim_end`.
pub open spec fn trim_end(s: Seq<char>) -> Seq<char>
    decreases s.len(),
{
    if s.len() > 0 && is_whitespace(s.last()) {
        trim_end(s.drop_last())
    } else {
        s
    }
}

/// `str::trim`.
pub open spec fn trim(s: Seq<char>) -> Seq<char> {
    trim_end(trim_start(s))
}

/// Bounds of `trim_start(v[lo..hi])` inside `v`.
pub fn trim_start_from(v: &[char], lo: usize, hi: usize) -> (a: usize)
    requires
        lo <= hi <= v@.len(),
    ensures
        lo <= a <= hi,
        v@.subrange(a as int, hi as int) == trim_start(v@.subrange(lo as int, hi as int)),
{
    let mut i = lo;
    while i < hi && is_ws(v[i])
        invariant
            lo <= i <= hi <= v@.len(),
            trim_start(v@.subrange(lo as int, hi as int)) == trim_start(
                v@.subrange(i as int, hi as int),
            ),
        decreases hi - i,
    {
        assert(v@.subrange(i as int, hi as int).drop_first() =~= v@.subrange(i + 1, hi as int));
        i = i + 1;
    }
    i
}

/// Bounds of `trim_end(v[lo..hi])` inside `v`.
pub fn trim_end_to(v: &[char], lo: usize, hi: usize) -> (b: usize)
    requires
        lo <= hi <= v@.len(),
    ensures
        lo <= b <= hi,
        v@.subrange(lo as int, b as int) == trim_end(v@.subrange(lo as int, hi as int)),
{
    let mut j = hi;
    while j > lo && is_ws(v[j - 1])
        invariant
            lo <= j <= hi <= v@.len(),
            trim_end(v@.subrange(lo as int, hi as int)) == trim_end(
                v@.subrange(lo as int, j as int),
            ),
        decreases j,
    {
        assert(v@.subrange(lo as int, j as int).drop_last() =~= v@.subrange(lo as int, j - 1));
        j = j - 1;
    }
    j
}

/// Bounds of `trim(v[lo..hi])` inside `v`.
pub fn trim_range(v: &[char], lo: usize, hi: usize) -> (r: (usize, usize))
    requires
        lo <= hi <= v@.len(),
    ensures
        lo <= r.0 <= r.1 <= hi,
        v@.subrange(r.0 as int, r.1 as int) == trim(v@.subrange(lo as int, hi as int)),
{
    let a = trim_start_from(v, lo, hi);
    let b = trim_end_to(v, a, hi);
    (a, b)
}

// ---------------------------------------------------------------------------
// Prefixes, suffixes, searching
// ---------------------------------------------------------------------------

/// `str::starts_with` with a string pattern.
pub open spec fn starts_with(s: Seq<char>, p: Seq<char>) -> bool {
    p.len() <= s.len() && s.subrange(0, p.len() as int) == p
}

/// `str::ends_with` with a string pattern.
pub open spec fn ends_with(s: Seq<char>, p: Seq<char>) -> bool {
    p.len() <= s.len() && s.subrange(s.len() - p.len(), s.len() as int) == p
}

/// `str::strip_prefix` with a string pattern.
pub open spec fn strip_prefix(s: Seq<char>, p: Seq<char>) -> Option<Seq<char>> {
    if starts_with(s, p) {
        Some(s.subrange(p.len() as int, s.len() as int))
    } else {
        None
    }
}

/// `str::strip_suffix` with a string pattern.
pub open spec fn strip_suffix(s: Seq<char>, p: Seq<char>) -> Option<Seq<char>> {
    if ends_with(s, p) {
        Some(s.subrange(0, s.len() - p.len()))
    } else {
        None
    }
}

/// `str::contains` with a string pattern.
pub open spec fn contains_str(s: Seq<char>, p: Seq<char>) -> bool {
    exists|i: int| 0 <= i && i + p.len() <= s.len() && #[trigger] s.subrange(i, i + p.len()) == p
}

/// Position of the first `c` in `s`, or `s.len()` when there is none.
pub open spec fn char_pos(s: Seq<char>, c: char) -> nat
    decreases s.len(),
{
    if s.len() == 0 {
        0
    } else if s[0] == c {
        0
    } else {
        1 + char_pos(s.drop_first(), c)
    }
}

pub proof fn lemma_char_pos(s: Seq<char>, c: char)
    ensures
        char_pos(s, c) <= s.len(),
        forall|k: int| 0 <= k < char_pos(s, c) ==> s[k] != c,
        char_pos(s, c) < s.len() ==> s[char_pos(s, c) as int] == c,
        (char_pos(s, c) == s.len()) == !s.contains(c),
    decreases s.len(),
{
    if s.len() > 0 && s[0] != c {
        lemma_char_pos(s.drop_first(), c);
        assert forall|k: int| 0 <= k < char_pos(s, c) implies s[k] != c by {
            if k > 0 {
                assert(s[k] == s.drop_first()[k - 1]);
            }
        }
        if s.contains(c) {
            let k = choose|k: int| 0 <= k < s.len() && s[k] == c;
            assert(s.drop_first()[k - 1] == c);
        }
        if s.drop_first().contains(c) {
            let k = choose|k: int| 0 <= k < s.drop_first().len() && s.drop_first()[k] == c;
            assert(s[k + 1] == c);
        }
    }
    if s.len() > 0 && s[0] == c {
        assert(s.contains(c)) by {
            assert(s[0] == c);
        }
    }
}

/// Whether `p` occurs in `v` at position `at`.
pub fn matches_at(v: &[char], at: usize, hi: usize, p: &[char]) -> (b: bool)
    requires
        at <= hi <= v@.len(),
    ensures
        b == (at + p@.len() <= hi && v@.subrange(at as int, at + p@.len()) == p@),
{
    if p.len() > hi - at {
        return false;
    }
    let mut k: usize = 0;
    while k < p.len()
        invariant
            at + p@.len() <= hi <= v@.len(),
            k <= p@.len(),
            v@.subrange(at as int, at + k) == p@.subrange(0, k as int),
        decreases p@.len() - k,
    {
        if v[at + k] != p[k] {
            assert(v@.subrange(at as int, at + p@.len())[k as int] != p@[k as int]);
            return false;
        }
        assert(v@.subrange(at as int, at + k + 1) =~= v@.subrange(at as int, at + k).push(
            v@[at + k],
        ));
        assert(p@.subrange(0, k + 1) =~= p@.subrange(0, k as int).push(p@[k as int]));
        k = k + 1;
    }
    assert(p@.subrange(0, p@.len() as int) =~= p@);
    true
}

/// `v[lo..hi].starts_with(p)`.
pub fn starts_with_at(v: &[char], lo: usize, hi: usize, p: &[char]) -> (b: bool)
    requires
        lo <= hi <= v@.len(),
    ensures
        b == starts_with(v@.subrange(lo as int, hi as int), p@),
{
    let b = matches_at(v, lo, hi, p);
    proof {
        if p@.len() <= hi - lo {
            assert(v@.subrange(lo as int, hi as int).subrange(0, p@.len() as int)
                =~= v@.subrange(lo as int, lo + p@.len()));
        }
    }
    b
}

/// `v[lo..hi].ends_with(p)`.
pub fn ends_with_at(v: &[char], lo: usize, hi: usize, p: &[char]) -> (b: bool)
    requires
        lo <= hi <= v@.len(),
    ensures
        b == ends_with(v@.subrange(lo as int, hi as int), p@),
{
    if p.len() > hi - lo {
        return false;
    }
    let b = matches_at(v, hi - p.len(), hi, p);
    proof {
        let s = v@.subrange(lo as int, hi as int);
        assert(s.subrange(s.len() - p@.len(), s.len() as int) =~= v@.subrange(
            hi - p@.len(),
            hi as int,
        ));
    }
    b
}

/// `v[lo..hi].contains(p)`.
pub fn contains_at(v: &[char], lo: usize, hi: usize, p: &[char]) -> (b: bool)
    requires
        lo <= hi <= v@.len(),
    ensures
        b == contains_str(v@.subrange(lo as int, hi as int), p@),
{
    let ghost s = v@.subrange(lo as int, hi as int);
    if p.len() > hi - lo {
        return false;
    }
    if p.len() == 0 {
        assert(s.subrange(0, 0int + p@.len()) =~= p@);
        return true;
    }
    let last = hi - p.len();
    let mut i = lo;
    while i <= last
        invariant
            lo <= i <= last + 1,
            last + p@.len() == hi,
            hi <= v@.len(),
            p@.len() > 0,
            s == v@.subrange(lo as int, hi as int),
            forall|k: int| 0 <= k < i - lo ==> #[trigger] s.subrange(k, k + p@.len()) != p@,
        decreases last + 1 - i,
    {
        if matches_at(v, i, hi, p) {
            assert(s.subrange(i - lo, i - lo + p@.len()) =~= v@.subrange(i as int, i + p@.len()));
            return true;
        }
        assert(s.subrange(i - lo, i - lo + p@.len()) =~= v@.subrange(i as int, i + p@.len()));
        i = i + 1;
    }
    proof {
        assert forall|k: int| 0 <= k && k + p@.len() <= s.len() implies #[trigger] s.subrange(
            k,
            k + p@.len(),
        ) != p@ by {
            assert(k < i - lo);
        }
    }
    false
}

/// Position of the first `c` in `v[lo..hi]`, as an index into `v` (`hi` when absent).
pub fn find_char(v: &[char], lo: usize, hi: usize, c: char) -> (r: usize)
    requires
        lo <= hi <= v@.len(),
    ensures
        lo <= r <= hi,
        r - lo == char_pos(v@.subrange(lo as int, hi as int), c),
{
    let mut i = lo;
    while i < hi && v[i] != c
        invariant
            lo <= i <= hi <= v@.len(),
            char_pos(v@.subrange(lo as int, hi as int), c) == (i - lo) + char_pos(
                v@.subrange(i as int, hi as int),
                c,
            ),
        decreases hi - i,
    {
        assert(v@.subrange(i as int, hi as int).drop_first() =~= v@.subrange(i + 1, hi as int));
        i = i + 1;
    }
    i
}

/// Whether `c` occurs in `v[lo..hi]`.
pub fn has_char(v: &[char], lo: usize, hi: usize, c: char) -> (b: bool)
    requires
        lo <= hi <= v@.len(),
    ensures
        b == v@.subrange(lo as int, hi as int).contains(c),
{
    let r = find_char(v, lo, hi, c);
    proof {
        lemma_char_pos(v@.subrange(lo as int, hi as int), c);
    }
    r < hi
}

// ---------------------------------------------------------------------------
// Lines, split, split_whitespace
// ---------------------------------------------------------------------------

/// A line without its `\n`, with a `\r` before that `\n` removed.
pub open spec fn strip_cr(l: Seq<char>) -> Seq<char> {
    if l.len() > 0 && l.last() == '\r' {
        l.drop_last()
    } else {
        l
    }
}

/// `str::lines`: the pieces between `\n` separators, a `\r` just before a
/// `\n` removed, no piece after a final `\n`.
pub open spec fn lines(s: Seq<char>) -> Seq<Seq<char>>
    decreases s.len(),
{
    if s.len() == 0 {
        seq![]
    } else {
        let e = char_pos(s, '\n');
        if e >= s.len() {
            seq![s]
        } else {
            seq![strip_cr(s.subrange(0, e as int))] + lines(s.subrange(e as int + 1, s.len() as int))
        }
    }
}

/// `str::split` with a `char` pattern.
pub open spec fn split_char(s: Seq<char>, c: char) -> Seq<Seq<char>>
    decreases s.len(),
{
    let e = char_pos(s, c);
    if e >= s.len() {
        seq![s]
    } else {
        seq![s.subrange(0, e as int)] + split_char(s.subrange(e as int + 1, s.len() as int), c)
    }
}

/// Position of the first whitespace character of `s`, or `s.len()`.
pub open spec fn word_end(s: Seq<char>) -> nat
    decreases s.len(),
{
    if s.len() == 0 {
        0
    } else if is_whitespace(s[0]) {
        0
    } else {
        1 + word_end(s.drop_first())
    }
}

pub proof fn lemma_trim_start_len(s: Seq<char>)
    ensures
        trim_start(s).len() <= s.len(),
        trim_start(s).len() > 0 ==> !is_whitespace(trim_start(s)[0]),
        trim_start(s) == s.subrange(s.len() - trim_start(s).len(), s.len() as int),
    decreases s.len(),
{
    if s.len() > 0 && is_whitespace(s[0]) {
        lemma_trim_start_len(s.drop_first());
        assert(s.drop_first().subrange(
            s.drop_first().len() - trim_start(s).len(),
            s.drop_first().len() as int,
        ) =~= s.subrange(s.len() - trim_start(s).len(), s.len() as int));
    } else {
        assert(s.subrange(0, s.len() as int) =~= s);
    }
}

pub proof fn lemma_word_end(s: Seq<char>)
    ensures
        word_end(s) <= s.len(),
        s.len() > 0 && !is_whitespace(s[0]) ==> word_end(s) >= 1,
    decreases s.len(),
{
    if s.len() > 0 && !is_whitespace(s[0]) {
        lemma_word_end(s.drop_first());
    }
}

/// `str::split_whitespace`.
pub open spec fn words(s: Seq<char>) -> Seq<Seq<char>>
    decreases s.len(),
{
    let t = trim_start(s);
    if t.len() == 0 {
        seq![]
    } else {
        let e = word_end(t);
        proof {
            lemma_trim_start_len(s);
            lemma_word_end(t);
        }
        seq![t.subrange(0, e as int)] + words(t.subrange(e as int, t.len() as int))
    }
}

/// The pieces named by `ranges` inside `v`.
pub open spec fn pieces(v: Seq<char>, ranges: Seq<(usize, usize)>) -> Seq<Seq<char>> {
    Seq::new(ranges.len(), |k: int| v.subrange(ranges[k].0 as int, ranges[k].1 as int))
}

pub open spec fn ranges_within(ranges: Seq<(usize, usize)>, lo: int, hi: int) -> bool {
    forall|k: int|
        0 <= k < ranges.len() ==> lo <= (#[trigger] ranges[k]).0 <= ranges[k].1 <= hi
}

proof fn lemma_pieces_push(v: Seq<char>, ranges: Seq<(usize, usize)>, r: (usize, usize))
    ensures
        pieces(v, ranges.push(r)) == pieces(v, ranges).push(v.subrange(r.0 as int, r.1 as int)),
{
    assert(pieces(v, ranges.push(r)) =~= pieces(v, ranges).push(
        v.subrange(r.0 as int, r.1 as int),
    ));
}

/// The ranges of `v[lo..hi].lines()` inside `v`.
pub fn line_ranges(v: &[char], lo: usize, hi: usize) -> (r: Vec<(usize, usize)>)
    requires
        lo <= hi <= v@.len(),
    ensures
        pieces(v@, r@) == lines(v@.subrange(lo as int, hi as int)),
        ranges_within(r@, lo as int, hi as int),
{
    let mut r: Vec<(usize, usize)> = Vec::new();
    let mut i = lo;
    while i < hi
        invariant
            lo <= i <= hi <= v@.len(),
            lines(v@.subrange(lo as int, hi as int)) == pieces(v@, r@) + lines(
                v@.subrange(i as int, hi as int),
            ),
            ranges_within(r@, lo as int, hi as int),
        decreases hi - i,
    {
        let e = find_char(v, i, hi, '\n');
        let ghost s = v@.subrange(i as int, hi as int);
        proof {
            lemma_char_pos(s, '\n');
            lemma_pieces_push(v@, r@, (i, e));
        }
        if e >= hi {
            r.push((i, hi));
            proof {
                assert(lines(s) == seq![s]);
                assert(lines(v@.subrange(hi as int, hi as int)) =~= Seq::<Seq<char>>::empty());
                assert(pieces(v@, r@) + lines(v@.subrange(hi as int, hi as int)) =~= pieces(
                    v@,
                    r@,
                ));
            }
            i = hi;
        } else {
            let end = if e > i && v[e - 1] == '\r' {
                e - 1
            } else {
                e
            };
            proof {
                assert(s.subrange(0, e - i) =~= v@.subrange(i as int, e as int));
                assert(s.subrange(e - i + 1, s.len() as int) =~= v@.subrange(e + 1, hi as int));
                if e > i && v@[e - 1] == '\r' {
                    assert(v@.subrange(i as int, e as int).drop_last() =~= v@.subrange(
                        i as int,
                        e - 1,
                    ));
                }
                assert(strip_cr(v@.subrange(i as int, e as int)) == v@.subrange(
                    i as int,
                    end as int,
                ));
                lemma_pieces_push(v@, r@, (i, end));
            }
            r.push((i, end));
            proof {
                assert(lines(s) == seq![v@.subrange(i as int, end as int)] + lines(
                    v@.subrange(e + 1, hi as int),
                ));
                assert(pieces(v@, r@) + lines(v@.subrange(e + 1, hi as int)) =~= pieces(
                    v@,
                    r@.drop_last(),
                ) + lines(s));
            }
            i = e + 1;
        }
    }
    proof {
        assert(lines(v@.subrange(i as int, hi as int)) =~= Seq::<Seq<char>>::empty());
        assert(pieces(v@, r@) + Seq::<Seq<char>>::empty() =~= pieces(v@, r@));
    }
    r
}


/// The ranges of `v[lo..hi].split(c)` inside `v`.
pub fn split_ranges(v: &[char], lo: usize, hi: usize, c: char) -> (r: Vec<(usize, usize)>)
    requires
        lo <= hi <= v@.len(),
    ensures
        pieces(v@, r@) == split_char(v@.subrange(lo as int, hi as int), c),
        ranges_within(r@, lo as int, hi as int),
{
    let mut r: Vec<(usize, usize)> = Vec::new();
    let mut i = lo;
    loop
        invariant
            lo <= i <= hi <= v@.len(),
            split_char(v@.subrange(lo as int, hi as int), c) == pieces(v@, r@) + split_char(
                v@.subrange(i as int, hi as int),
                c,
            ),
            ranges_within(r@, lo as int, hi as int),
        decreases hi - i,
    {
        let e = find_char(v, i, hi, c);
        let ghost s = v@.subrange(i as int, hi as int);
        proof {
            lemma_char_pos(s, c);
            lemma_pieces_push(v@, r@, (i, e));
            assert(s.subrange(0, e - i) =~= v@.subrange(i as int, e as int));
        }
        r.push((i, e));
        if e >= hi {
            proof {
                assert(split_char(s, c) == seq![s]);
                assert(s =~= v@.subrange(i as int, e as int));
                assert(pieces(v@, r@) =~= pieces(v@, r@.drop_last()) + split_char(s, c));
            }
            return r;
        }
        proof {
            assert(s.subrange(e - i + 1, s.len() as int) =~= v@.subrange(e + 1, hi as int));
            assert(pieces(v@, r@) + split_char(v@.subrange(e + 1, hi as int), c) =~= pieces(
                v@,
                r@.drop_last(),
            ) + split_char(s, c));
        }
        i = e + 1;
    }
}

/// The ranges of `v[lo..hi].split_whitespace()` inside `v`.
pub fn word_ranges(v: &[char], lo: usize, hi: usize) -> (r: Vec<(usize, usize)>)
    requires
        lo <= hi <= v@.len(),
    ensures
        pieces(v@, r@) == words(v@.subrange(lo as int, hi as int)),
        ranges_within(r@, lo as int, hi as int),
{
    let mut r: Vec<(usize, usize)> = Vec::new();
    let mut i = lo;
    while i < hi
        invariant
            lo <= i <= hi <= v@.len(),
            words(v@.subrange(lo as int, hi as int)) == pieces(v@, r@) + words(
                v@.subrange(i as int, hi as int),
            ),
            ranges_within(r@, lo as int, hi as int),
        decreases hi - i,
    {
        let j = trim_start_from(v, i, hi);
        if j == hi {
            proof {
                assert(words(v@.subrange(i as int, hi as int)) =~= Seq::<Seq<char>>::empty());
                assert(words(v@.subrange(hi as int, hi as int)) =~= Seq::<Seq<char>>::empty());
            }
            i = hi;
        } else {
            let mut k = j;
            while k < hi && !is_ws(v[k])
                invariant
                    j <= k <= hi <= v@.len(),
                    word_end(v@.subrange(j as int, hi as int)) == (k - j) + word_end(
                        v@.subrange(k as int, hi as int),
                    ),
                decreases hi - k,
            {
                assert(v@.subrange(k as int, hi as int).drop_first() =~= v@.subrange(
                    k + 1,
                    hi as int,
                ));
                k = k + 1;
            }
            let ghost t = v@.subrange(j as int, hi as int);
            proof {
                lemma_trim_start_len(v@.subrange(i as int, hi as int));
                assert(!is_whitespace(v@[j as int]));
                assert(t.subrange(0, k - j) =~= v@.subrange(j as int, k as int));
                assert(t.subrange(k - j, t.len() as int) =~= v@.subrange(k as int, hi as int));
                lemma_pieces_push(v@, r@, (j, k));
            }
            r.push((j, k));
            proof {
                assert(words(v@.subrange(i as int, hi as int)) == seq![
                    v@.subrange(j as int, k as int),
                ] + words(v@.subrange(k as int, hi as int)));
                assert(pieces(v@, r@) + words(v@.subrange(k as int, hi as int)) =~= pieces(
                    v@,
                    r@.drop_last(),
                ) + words(v@.subrange(i as int, hi as int)));
            }
            i = k;
        }
    }
    proof {
        assert(words(v@.subrange(i as int, hi as int)) =~= Seq::<Seq<char>>::empty());
        assert(pieces(v@, r@) + Seq::<Seq<char>>::empty() =~= pieces(v@, r@));
    }
    r
}

// ---------------------------------------------------------------------------
// Decimal numbers
// ---------------------------------------------------------------------------

/// Every character of `s` is an ASCII digit.
pub open spec fn all_digits(s: Seq<char>) -> bool {
    forall|i: int| 0 <= i < s.len() ==> is_digit(#[trigger] s[i])
}

/// The number written by the decimal digits `s`.
pub open spec fn digits_value(s: Seq<char>) -> nat
    decreases s.len(),
{
    if s.len() == 0 {
        0
    } else {
        digits_value(s.drop_last()) * 10 + digit_value(s.last())
    }
}

/// The decimal digits that integer `parse` reads from `s` once an optional
/// leading `+` is removed.
pub open spec fn unsigned_digits(s: Seq<char>) -> Seq<char> {
    if s.len() > 1 && s[0] == '+' {
        s.drop_first()
    } else {
        s
    }
}

/// `s.parse::<u64>()` (or of a narrower unsigned type whose largest value is
/// `max`): `Some` of the value exactly when `s` is an optional `+` followed
/// by at least one ASCII digit and the value is at most `max`.
pub open spec fn parse_unsigned(s: Seq<char>, max: nat) -> Option<nat> {
    let d = unsigned_digits(s);
    if d.len() > 0 && all_digits(d) && digits_value(d) <= max {
        Some(digits_value(d))
    } else {
        None
    }
}

/// `s.parse::<u64>()`.
pub open spec fn parse_u64(s: Seq<char>) -> Option<u64> {
    match parse_unsigned(s, u64::MAX as nat) {
        Some(n) => Some(n as u64),
        None => None,
    }
}

/// `s.parse::<u32>()`.
pub open spec fn parse_u32(s: Seq<char>) -> Option<u32> {
    match parse_unsigned(s, u32::MAX as nat) {
        Some(n) => Some(n as u32),
        None => None,
    }
}

/// `s.parse::<i64>()`: an optional sign (`+` or `-`) followed by at least
/// one ASCII digit, with the value inside the range of `i64`.
pub open spec fn parse_i64(s: Seq<char>) -> Option<i64> {
    if s.len() > 1 && s[0] == '-' {
        let d = s.drop_first();
        if all_digits(d) && digits_value(d) <= 0x8000_0000_0000_0000 {
            Some((0 - digits_value(d)) as i64)
        } else {
            None
        }
    } else {
        match parse_unsigned(s, i64::MAX as nat) {
            Some(n) => Some(n as i64),
            None => None,
        }
    }
}

pub proof fn lemma_digits_value_prefix(s: Seq<char>, j: int, k: int)
    requires
        0 <= j <= k <= s.len(),
    ensures
        digits_value(s.subrange(0, j)) <= digits_value(s.subrange(0, k)),
    decreases k - j,
{
    if j < k {
        lemma_digits_value_prefix(s, j, k - 1);
        assert(s.subrange(0, k).drop_last() =~= s.subrange(0, k - 1));
    }
}

/// The value of the ASCII digits `v[lo..hi]` when they are all digits,
/// there is at least one, and the value is at most `max`.
pub fn parse_digits(v: &[char], lo: usize, hi: usize, max: u64) -> (r: Option<u64>)
    requires
        lo <= hi <= v@.len(),
    ensures
        ({
            let d = v@.subrange(lo as int, hi as int);
            r == (if d.len() > 0 && all_digits(d) && digits_value(d) <= max {
                Some(digits_value(d) as u64)
            } else {
                None
            })
        }),
{
    let ghost d = v@.subrange(lo as int, hi as int);
    if lo == hi {
        return None;
    }
    let mut acc: u64 = 0;
    let mut i = lo;
    while i < hi
        invariant
            lo <= i <= hi <= v@.len(),
            d == v@.subrange(lo as int, hi as int),
            all_digits(d.subrange(0, i - lo)),
            acc as nat == digits_value(d.subrange(0, i - lo)),
            acc <= max,
        decreases hi - i,
    {
        let c = v[i];
        assert(d.subrange(0, i - lo + 1).drop_last() =~= d.subrange(0, i - lo));
        assert(d.subrange(0, i - lo + 1).last() == c);
        if !is_ascii_digit(c) {
            assert(!is_digit(d[i - lo]));
            return None;
        }
        let dv = (c as u32 - '0' as u32) as u64;
        assert(dv == digit_value(c));
        if dv > max || acc > (max - dv) / 10 {
            proof {
                assert(acc * 10 + dv > max) by (nonlinear_arith)
                    requires
                        dv > max || acc > (max - dv) / 10,
                        dv < 10,
                ;
                lemma_digits_value_prefix(d, i - lo + 1, d.len() as int);
                assert(d.subrange(0, d.len() as int) =~= d);
            }
            return None;
        }
        proof {
            assert(acc * 10 + dv <= max) by (nonlinear_arith)
                requires
                    acc <= (max - dv) / 10,
                    dv <= max,
            ;
            assert forall|k: int| 0 <= k < i - lo + 1 implies is_digit(
                #[trigger] d.subrange(0, i - lo + 1)[k],
            ) by {
                if k < i - lo {
                    assert(d.subrange(0, i - lo + 1)[k] == d.subrange(0, i - lo)[k]);
                }
            }
        }
        acc = acc * 10 + dv;
        i = i + 1;
    }
    assert(d.subrange(0, d.len() as int) =~= d);
    Some(acc)
}

/// `v[lo..hi].parse::<u64>()` (or of a narrower unsigned type whose largest
/// value is `max`).
pub fn parse_unsigned_at(v: &[char], lo: usize, hi: usize, max: u64) -> (r: Option<u64>)
    requires
        lo <= hi <= v@.len(),
    ensures
        r == (match parse_unsigned(v@.subrange(lo as int, hi as int), max as nat) {
            Some(n) => Some(n as u64),
            None => None,
        }),
{
    let ghost s = v@.subrange(lo as int, hi as int);
    if hi - lo > 1 && v[lo] == '+' {
        assert(s.drop_first() =~= v@.subrange(lo + 1, hi as int));
        parse_digits(v, lo + 1, hi, max)
    } else {
        parse_digits(v, lo, hi, max)
    }
}

/// `v[lo..hi].parse::<u64>()`.
pub fn parse_u64_at(v: &[char], lo: usize, hi: usize) -> (r: Option<u64>)
    requires
        lo <= hi <= v@.len(),
    ensures
        r == parse_u64(v@.subrange(lo as int, hi as int)),
{
    parse_unsigned_at(v, lo, hi, u64::MAX)
}

/// `v[lo..hi].parse::<u32>()`.
pub fn parse_u32_at(v: &[char], lo: usize, hi: usize) -> (r: Option<u32>)
    requires
        lo <= hi <= v@.len(),
    ensures
        r == parse_u32(v@.subrange(lo as int, hi as int)),
{
    match parse_unsigned_at(v, lo, hi, 0xffff_ffff) {
        Some(n) => Some(n as u32),
        None => None,
    }
}

/// `v[lo..hi].parse::<i64>()`.
pub fn parse_i64_at(v: &[char], lo: usize, hi: usize) -> (r: Option<i64>)
    requires
        lo <= hi <= v@.len(),
    ensures
        r == parse_i64(v@.subrange(lo as int, hi as int)),
{
    let ghost s = v@.subrange(lo as int, hi as int);
    if hi - lo > 1 && v[lo] == '-' {
        assert(s.drop_first() =~= v@.subrange(lo + 1, hi as int));
        match parse_digits(v, lo + 1, hi, 0x8000_0000_0000_0000) {
            Some(n) => {
                if n == 0x8000_0000_0000_0000 {
                    Some(i64::MIN)
                } else {
                    Some(0 - (n as i64))
                }
            },
            None => None,
        }
    } else {
        match parse_unsigned_at(v, lo, hi, 0x7fff_ffff_ffff_ffff) {
            Some(n) => Some(n as i64),
            None => None,
        }
    }
}

/// The decimal digits of `n`, most significant first, without leading zeros.
pub open spec fn decimal(n: nat) -> Seq<char>
    decreases n,
{
    if n < 10 {
        seq![digit_char(n)]
    } else {
        decimal(n / 10).push(digit_char(n % 10))
    }
}

fn digit_of(d: u64) -> (c: char)
    requires
        d < 10,
    ensures
        c == digit_char(d as nat),
{
    if d == 0 {
        '0'
    } else if d == 1 {
        '1'
    } else if d == 2 {
        '2'
    } else if d == 3 {
        '3'
    } else if d == 4 {
        '4'
    } else if d == 5 {
        '5'
    } else if d == 6 {
        '6'
    } else if d == 7 {
        '7'
    } else if d == 8 {
        '8'
    } else {
        '9'
    }
}

/// Appends the decimal digits of `n` (`format!("{}", n)`).
pub fn push_decimal(s: &mut String, n: u64)
    ensures
        final(s)@ == old(s)@ + decimal(n as nat),
    decreases n,
{
    if n >= 10 {
        push_decimal(s, n / 10);
    }
    let c = digit_of(n % 10);
    push_char(s, c);
    proof {
        if n < 10 {
            assert(decimal(n as nat) == seq![digit_char(n as nat)]);
        }
    }
    assert(final(s)@ =~= old(s)@ + decimal(n as nat));
}

pub proof fn lemma_digit_char(d: nat)
    requires
        d < 10,
    ensures
        is_digit(digit_char(d)),
        digit_value(digit_char(d)) == d,
{
}

pub proof fn lemma_decimal_digits(n: nat)
    ensures
        decimal(n).len() > 0,
        all_digits(decimal(n)),
        digits_value(decimal(n)) == n,
    decreases n,
{
    lemma_digit_char(n % 10);
    if n < 10 {
        lemma_digit_char(n);
        assert(decimal(n) == seq![digit_char(n)]);
        assert(decimal(n).drop_last() =~= Seq::<char>::empty());
        assert(digits_value(Seq::<char>::empty()) == 0);
        assert(decimal(n).last() == digit_char(n));
        assert(digits_value(decimal(n)) == digits_value(decimal(n).drop_last()) * 10
            + digit_value(decimal(n).last()));
    }
    if n >= 10 {
        lemma_decimal_digits(n / 10);
        let t = decimal(n / 10);
        assert(decimal(n).drop_last() =~= t);
        assert(decimal(n).last() == digit_char(n % 10));
        assert(digits_value(decimal(n)) == digits_value(t) * 10 + digit_value(digit_char(n % 10)));
        assert(n == (n / 10) * 10 + n % 10);
        assert forall|i: int| 0 <= i < decimal(n).len() implies is_digit(
            #[trigger] decimal(n)[i],
        ) by {
            if i < t.len() {
                assert(decimal(n)[i] == t[i]);
            }
        }
    }
}

/// A number written in decimal reads back as itself.
pub proof fn lemma_parse_decimal(n: nat, max: nat)
    requires
        n <= max,
    ensures
        parse_unsigned(decimal(n), max) == Some(n),
{
    lemma_decimal_digits(n);
    let d = decimal(n);
    assert(unsigned_digits(d) == d) by {
        if d.len() > 1 && d[0] == '+' {
            assert(is_digit(d[0]));
        }
    }
}

// ---------------------------------------------------------------------------
// Case
// ---------------------------------------------------------------------------

/// `char::to_ascii_lowercase`.
pub open spec fn ascii_lower(c: char) -> char {
    if 'A' <= c && c <= 'Z' {
        ((c as u32) + 32) as char
    } else {
        c
    }
}

/// `str::to_ascii_lowercase`.
pub open spec fn ascii_lowercase(s: Seq<char>) -> Seq<char> {
    Seq::new(s.len(), |i: int| ascii_lower(s[i]))
}

/// `str::eq_ignore_ascii_case`.
pub open spec fn eq_ignore_ascii_case(a: Seq<char>, b: Seq<char>) -> bool {
    a.len() == b.len() && forall|i: int| 0 <= i < a.len() ==> ascii_lower(a[i]) == ascii_lower(b[i])
}

pub fn to_ascii_lower(c: char) -> (r: char)
    ensures
        r == ascii_lower(c),
{
    if 'A' <= c && c <= 'Z' {
        let b = (c as u8) + 32;
        b as char
    } else {
        c
    }
}

/// Whether `v[lo..hi]` and `p` are equal up to ASCII case.
pub fn eq_ignore_case_at(v: &[char], lo: usize, hi: usize, p: &[char]) -> (b: bool)
    requires
        lo <= hi <= v@.len(),
    ensures
        b == eq_ignore_ascii_case(v@.subrange(lo as int, hi as int), p@),
{
    let ghost s = v@.subrange(lo as int, hi as int);
    if hi - lo != p.len() {
        return false;
    }
    let mut k: usize = 0;
    while k < p.len()
        invariant
            hi - lo == p@.len(),
            lo <= hi <= v@.len(),
            k <= p@.len(),
            s == v@.subrange(lo as int, hi as int),
            forall|i: int| 0 <= i < k ==> ascii_lower(s[i]) == ascii_lower(p@[i]),
        decreases p@.len() - k,
    {
        if to_ascii_lower(v[lo + k]) != to_ascii_lower(p[k]) {
            return false;
        }
        k = k + 1;
    }
    true
}

/// What `str::to_lowercase` returns for a string: its lower-case equivalent
/// under the Unicode `Lowercase` mapping, which depends on nothing but the
/// string.
pub uninterp spec fn unicode_lowercase(s: Seq<char>) -> Seq<char>;

/// `str::to_lowercase` (Unicode lower case).  Its contract names the
/// result; the Unicode case tables are not restated here.
#[verifier::external_body]
pub(crate) fn to_lowercase(s: &str) -> (r: String)
    ensures
        r@ == unicode_lowercase(s@),
{
    s.to_lowercase()
}

// ---------------------------------------------------------------------------
// Trimming a given character
// ---------------------------------------------------------------------------

/// `str::trim_start_matches` with a `char` pattern.
pub open spec fn trim_char_start(s: Seq<char>, c: char) -> Seq<char>
    decreases s.len(),
{
    if s.len() > 0 && s[0] == c {
        trim_char_start(s.drop_first(), c)
    } else {
        s
    }
}

/// `str::trim_end_matches` with a `char` pattern.
pub open spec fn trim_char_end(s: Seq<char>, c: char) -> Seq<char>
    decreases s.len(),
{
    if s.len() > 0 && s.last() == c {
        trim_char_end(s.drop_last(), c)
    } else {
        s
    }
}

/// `str::trim_matches` with a `char` pattern.
pub open spec fn trim_char(s: Seq<char>, c: char) -> Seq<char> {
    trim_char_end(trim_char_start(s, c), c)
}

/// Bounds of `trim_char(v[lo..hi], c)` inside `v`.
pub fn trim_char_range(v: &[char], lo: usize, hi: usize, c: char) -> (r: (usize, usize))
    requires
        lo <= hi <= v@.len(),
    ensures
        lo <= r.0 <= r.1 <= hi,
        v@.subrange(r.0 as int, r.1 as int) == trim_char(v@.subrange(lo as int, hi as int), c),
{
    let mut i = lo;
    while i < hi && v[i] == c
        invariant
            lo <= i <= hi <= v@.len(),
            trim_char_start(v@.subrange(lo as int, hi as int), c) == trim_char_start(
                v@.subrange(i as int, hi as int),
                c,
            ),
        decreases hi - i,
    {
        assert(v@.subrange(i as int, hi as int).drop_first() =~= v@.subrange(i + 1, hi as int));
        i = i + 1;
    }
    let mut j = hi;
    while j > i && v[j - 1] == c
        invariant
            lo <= i <= j <= hi <= v@.len(),
            trim_char_end(v@.subrange(i as int, hi as int), c) == trim_char_end(
                v@.subrange(i as int, j as int),
                c,
            ),
        decreases j,
    {
        assert(v@.subrange(i as int, j as int).drop_last() =~= v@.subrange(i as int, j - 1));
        j = j - 1;
    }
    (i, j)
}

/// The view of an optional string slice.
pub open spec fn opt_view(o: Option<&str>) -> Option<Seq<char>> {
    match o {
        Some(s) => Some(s@),
        None => None,
    }
}

/// The view of an optional string.
pub open spec fn opt_string_view(o: Option<String>) -> Option<Seq<char>> {
    match o {
        Some(s) => Some(s@),
        None => None,
    }
}

/// Borrows the contents of an optional string.
pub fn opt_as_str(o: &Option<String>) -> (r: Option<&str>)
    ensures
        opt_view(r) == opt_string_view(*o),
{
    match o {
        Some(s) => Some(s.as_str()),
        None => None,
    }
}

/// A string with the given contents.
pub fn owned(s: &str) -> (r: String)
    ensures
        r@ == s@,
{
    s.to_owned()
}


// ---------------------------------------------------------------------------
// Trimming a repeated string pattern
// ---------------------------------------------------------------------------

/// `str::trim_end_matches` with a non-empty string pattern.
pub open spec fn trim_str_end(s: Seq<char>, p: Seq<char>) -> Seq<char>
    decreases s.len(),
{
    if p.len() > 0 && ends_with(s, p) {
        trim_str_end(s.subrange(0, s.len() - p.len()), p)
    } else {
        s
    }
}

/// `str::trim_start_matches` with a non-empty string pattern.
pub open spec fn trim_str_start(s: Seq<char>, p: Seq<char>) -> Seq<char>
    decreases s.len(),
{
    if p.len() > 0 && starts_with(s, p) {
        trim_str_start(s.subrange(p.len() as int, s.len() as int), p)
    } else {
        s
    }
}

/// End of `trim_str_end(v[lo..hi], p)` inside `v`.
pub fn trim_str_end_to(v: &[char], lo: usize, hi: usize, p: &[char]) -> (b: usize)
    requires
        lo <= hi <= v@.len(),
    ensures
        lo <= b <= hi,
        v@.subrange(lo as int, b as int) == trim_str_end(v@.subrange(lo as int, hi as int), p@),
{
    let mut j = hi;
    while p.len() > 0 && ends_with_at(v, lo, j, p)
        invariant
            lo <= j <= hi <= v@.len(),
            trim_str_end(v@.subrange(lo as int, hi as int), p@) == trim_str_end(
                v@.subrange(lo as int, j as int),
                p@,
            ),
        decreases j,
    {
        let ghost s = v@.subrange(lo as int, j as int);
        assert(s.subrange(0, s.len() - p@.len()) =~= v@.subrange(lo as int, j - p@.len()));
        j = j - p.len();
    }
    j
}

/// Start of `trim_str_start(v[lo..hi], p)` inside `v`.
pub fn trim_str_start_from(v: &[char], lo: usize, hi: usize, p: &[char]) -> (a: usize)
    requires
        lo <= hi <= v@.len(),
    ensures
        lo <= a <= hi,
        v@.subrange(a as int, hi as int) == trim_str_start(v@.subrange(lo as int, hi as int), p@),
{
    let mut i = lo;
    while p.len() > 0 && starts_with_at(v, i, hi, p)
        invariant
            lo <= i <= hi <= v@.len(),
            trim_str_start(v@.subrange(lo as int, hi as int), p@) == trim_str_start(
                v@.subrange(i as int, hi as int),
                p@,
            ),
        decreases hi - i,
    {
        let ghost s = v@.subrange(i as int, hi as int);
        assert(s.subrange(p@.len() as int, s.len() as int) =~= v@.subrange(
            i + p@.len(),
            hi as int,
        ));
        i = i + p.len();
    }
    i
}


/// Whether `v[lo..hi]` equals `p`.
pub fn eq_at(v: &[char], lo: usize, hi: usize, p: &[char]) -> (b: bool)
    requires
        lo <= hi <= v@.len(),
    ensures
        b == (v@.subrange(lo as int, hi as int) == p@),
{
    if hi - lo != p.len() {
        assert(v@.subrange(lo as int, hi as int).len() != p@.len());
        return false;
    }
    matches_at(v, lo, hi, p)
}

/// Whether the string `s` equals `p`.
pub fn str_eq(s: &str, p: &str) -> (b: bool)
    ensures
        b == (s@ == p@),
{
    let v = chars_of(s);
    let w = chars_of(p);
    assert(v@.subrange(0, v@.len() as int) =~= v@);
    eq_at(&v, 0, v.len(), &w)
}

/// The trimmed contents of a string (`str::trim`, owned).
pub fn trimmed(s: &str) -> (r: String)
    ensures
        r@ == trim(s@),
{
    let v = chars_of(s);
    let (a, b) = trim_range(&v, 0, v.len());
    assert(v@.subrange(0, v@.len() as int) =~= v@);
    string_of(&v, a, b)
}


/// `str::to_ascii_lowercase`.
pub fn ascii_lowercased(s: &str) -> (r: String)
    ensures
        r@ == ascii_lowercase(s@),
{
    let v = chars_of(s);
    let mut r = String::new();
    let mut i: usize = 0;
    while i < v.len()
        invariant
            i <= v@.len(),
            v@ == s@,
            r@ == ascii_lowercase(v@.subrange(0, i as int)),
        decreases v@.len() - i,
    {
        push_char(&mut r, to_ascii_lower(v[i]));
        assert(ascii_lowercase(v@.subrange(0, i + 1)) =~= ascii_lowercase(
            v@.subrange(0, i as int),
        ).push(ascii_lower(v@[i as int])));
        i = i + 1;
    }
    assert(v@.subrange(0, v@.len() as int) =~= v@);
    r
}


// ---------------------------------------------------------------------------
// Replacing, leading digits
// ---------------------------------------------------------------------------

/// `str::replace` with a non-empty pattern: every non-overlapping
/// occurrence of `from`, scanning left to right, replaced by `to`.
pub open spec fn replace_all(s: Seq<char>, from: Seq<char>, to: Seq<char>) -> Seq<char>
    decreases s.len(),
{
    if s.len() == 0 || from.len() == 0 {
        s
    } else if starts_with(s, from) {
        to + replace_all(s.subrange(from.len() as int, s.len() as int), from, to)
    } else {
        seq![s[0]] + replace_all(s.drop_first(), from, to)
    }
}

/// `s.replace(from, to)` for a non-empty `from`.
pub fn replace_str(s: &str, from: &str, to: &str) -> (r: String)
    ensures
        r@ == replace_all(s@, from@, to@),
{
    let v = chars_of(s);
    let f = chars_of(from);
    let mut out = String::new();
    let mut i: usize = 0;
    if f.len() == 0 {
        return owned(s);
    }
    assert(v@.subrange(0, v@.len() as int) =~= v@);
    while i < v.len()
        invariant
            i <= v@.len(),
            f@ == from@,
            f@.len() > 0,
            replace_all(v@, f@, to@) == out@ + replace_all(
                v@.subrange(i as int, v@.len() as int),
                f@,
                to@,
            ),
        decreases v@.len() - i,
    {
        let ghost rest = v@.subrange(i as int, v@.len() as int);
        if starts_with_at(&v, i, v.len(), &f) {
            assert(rest.subrange(f@.len() as int, rest.len() as int) =~= v@.subrange(
                i + f@.len(),
                v@.len() as int,
            ));
            let ghost before = out@;
            out.append(to);
            assert(out@ + replace_all(v@.subrange(i + f@.len(), v@.len() as int), f@, to@)
                =~= before + replace_all(rest, f@, to@));
            i = i + f.len();
        } else {
            assert(rest.drop_first() =~= v@.subrange(i + 1, v@.len() as int));
            let ghost before = out@;
            push_char(&mut out, v[i]);
            assert(out@ + replace_all(v@.subrange(i + 1, v@.len() as int), f@, to@) =~= before
                + replace_all(rest, f@, to@));
            i = i + 1;
        }
    }
    assert(replace_all(v@.subrange(i as int, v@.len() as int), f@, to@) =~= Seq::<char>::empty());
    assert(out@ + Seq::<char>::empty() =~= out@);
    out
}

/// Number of leading ASCII digits of `s`.
pub open spec fn digit_run(s: Seq<char>) -> nat
    decreases s.len(),
{
    if s.len() > 0 && is_digit(s[0]) {
        1 + digit_run(s.drop_first())
    } else {
        0
    }
}

/// End of the leading ASCII digits of `v[lo..hi]`.
pub fn digit_run_end(v: &[char], lo: usize, hi: usize) -> (e: usize)
    requires
        lo <= hi <= v@.len(),
    ensures
        lo <= e <= hi,
        e - lo == digit_run(v@.subrange(lo as int, hi as int)),
{
    let mut i = lo;
    while i < hi && is_ascii_digit(v[i])
        invariant
            lo <= i <= hi <= v@.len(),
            digit_run(v@.subrange(lo as int, hi as int)) == (i - lo) + digit_run(
                v@.subrange(i as int, hi as int),
            ),
        decreases hi - i,
    {
        assert(v@.subrange(i as int, hi as int).drop_first() =~= v@.subrange(i + 1, hi as int));
        i = i + 1;
    }
    i
}


/// `str::trim_end_matches(|c: char| c.is_ascii_digit())`.
pub open spec fn trim_digits_end(s: Seq<char>) -> Seq<char>
    decreases s.len(),
{
    if s.len() > 0 && is_digit(s.last()) {
        trim_digits_end(s.drop_last())
    } else {
        s
    }
}

/// End of `trim_digits_end(v[lo..hi])` inside `v`.
pub fn trim_digits_end_to(v: &[char], lo: usize, hi: usize) -> (b: usize)
    requires
        lo <= hi <= v@.len(),
    ensures
        lo <= b <= hi,
        v@.subrange(lo as int, b as int) == trim_digits_end(v@.subrange(lo as int, hi as int)),
{
    let mut j = hi;
    while j > lo && is_ascii_digit(v[j - 1])
        invariant
            lo <= j <= hi <= v@.len(),
            trim_digits_end(v@.subrange(lo as int, hi as int)) == trim_digits_end(
                v@.subrange(lo as int, j as int),
            ),
        decreases j,
    {
        assert(v@.subrange(lo as int, j as int).drop_last() =~= v@.subrange(lo as int, j - 1));
        j = j - 1;
    }
    j
}

/// Position of the last `c` in `s` (`str::rfind` with a `char`).
pub open spec fn last_index_of(s: Seq<char>, c: char) -> Option<int>
    decreases s.len(),
{
    if s.len() == 0 {
        None
    } else if s.last() == c {
        Some(s.len() - 1)
    } else {
        last_index_of(s.drop_last(), c)
    }
}

/// Position (relative to `lo`) of the last `c` in `v[lo..hi]`.
pub fn rfind_char(v: &[char], lo: usize, hi: usize, c: char) -> (r: Option<usize>)
    requires
        lo <= hi <= v@.len(),
    ensures
        (match r {
            Some(i) => Some(i as int),
            None => None,
        }) == last_index_of(v@.subrange(lo as int, hi as int), c),
        r matches Some(i) ==> i < hi - lo,
{
    let mut j = hi;
    while j > lo && v[j - 1] != c
        invariant
            lo <= j <= hi <= v@.len(),
            last_index_of(v@.subrange(lo as int, hi as int), c) == last_index_of(
                v@.subrange(lo as int, j as int),
                c,
            ),
        decreases j,
    {
        assert(v@.subrange(lo as int, j as int).drop_last() =~= v@.subrange(lo as int, j - 1));
        j = j - 1;
    }
    if j > lo {
        Some(j - 1 - lo)
    } else {
        None
    }
}

} // verus!
