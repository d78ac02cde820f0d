use std::cmp::Ordering;
use vstd::prelude::*;

verus! {

/// The characters of a string.
/// Relies on `str::chars`: it yields the string's characters in order.
#[verifier::external_body]
pub(crate) fn chars_of(s: &str) -> (r: Vec<char>)
    ensures
        r@ == s@,
{
    s.chars().collect()
}

/// A string made of the given characters.
/// Relies on `String`'s `FromIterator<char>`: it appends the characters in order.
#[verifier::external_body]
pub(crate) fn string_of(cs: &[char]) -> (r: String)
    ensures
        r@ == cs@,
{
    cs.iter().collect()
}

/// Whether a key names an operator: it starts with `$`.
pub open spec fn is_dollar(s: Seq<char>) -> bool {
    s.len() > 0 && s[0] == '$'
}

/// Whether a key names an operator: it starts with `$`.
pub fn starts_with_dollar(s: &String) -> (r: bool)
    ensures
        r == is_dollar(s@),
{
    let cs = chars_of(s.as_str());
    cs.len() > 0 && cs[0] == '$'
}

/// The segments of a dot-separated path: `"a.b"` has segments `"a"` and `"b"`,
/// and a path without a dot is its own single segment.
pub open spec fn split_dots(s: Seq<char>) -> Seq<Seq<char>>
    decreases s.len(),
{
    if s.len() == 0 {
        seq![Seq::empty()]
    } else {
        let p = split_dots(s.drop_last());
        if s.last() == '.' {
            p.push(Seq::empty())
        } else {
            p.update(p.len() - 1, p.last().push(s.last()))
        }
    }
}

pub proof fn lemma_split_nonempty(s: Seq<char>)
    ensures
        split_dots(s).len() >= 1,
    decreases s.len(),
{
    if s.len() > 0 {
        lemma_split_nonempty(s.drop_last());
    }
}

/// Whether a path has more than one segment.
pub open spec fn has_dot(s: Seq<char>) -> bool {
    exists|i: int| 0 <= i < s.len() && s[i] == '.'
}

/// Splits a path at its dots.
pub fn split_path(path: &String) -> (r: Vec<String>)
    ensures
        r@.map_values(|x: String| x@) == split_dots(path@),
{
    let cs = chars_of(path.as_str());
    let mut segs: Vec<String> = Vec::new();
    let mut cur: Vec<char> = Vec::new();
    let mut i: usize = 0;
    while i < cs.len()
        invariant
            i <= cs.len(),
            cs@ == path@,
            segs@.map_values(|x: String| x@).push(cur@) == split_dots(cs@.take(i as int)),
        decreases cs.len() - i,
    {
        let c = cs[i];
        proof {
            assert(cs@.take(i as int + 1).drop_last() =~= cs@.take(i as int));
            lemma_split_nonempty(cs@.take(i as int));
        }
        if c == '.' {
            let seg = string_of(cur.as_slice());
            segs.push(seg);
            cur = Vec::new();
            assert(segs@.map_values(|x: String| x@).push(cur@) =~= split_dots(cs@.take(i as int + 1)));
        } else {
            let ghost before = segs@.map_values(|x: String| x@).push(cur@);
            cur.push(c);
            assert(segs@.map_values(|x: String| x@).push(cur@) =~= before.update(before.len() - 1, before.last().push(c)));
        }
        i = i + 1;
    }
    let last = string_of(cur.as_slice());
    segs.push(last);
    assert(cs@.take(cs.len() as int) =~= cs@);
    assert(segs@.map_values(|x: String| x@) =~= split_dots(path@));
    segs
}

/// Whether `path` contains a dot.
pub fn contains_dot(path: &String) -> (r: bool)
    ensures
        r == has_dot(path@),
{
    let cs = chars_of(path.as_str());
    let mut i: usize = 0;
    while i < cs.len()
        invariant
            i <= cs.len(),
            cs@ == path@,
            forall|j: int| 0 <= j < i ==> cs@[j] != '.',
        decreases cs.len() - i,
    {
        if cs[i] == '.' {
            return true;
        }
        i = i + 1;
    }
    false
}

pub open spec fn is_digit(c: char) -> bool {
    '0' <= c <= '9'
}

/// The number written by a string of decimal digits.
pub open spec fn digits_value(s: Seq<char>) -> int
    decreases s.len(),
{
    if s.len() == 0 {
        0
    } else {
        10 * digits_value(s.drop_last()) + (s.last() as int - '0' as int)
    }
}

/// The digits of a segment read as an array index: an optional `+`
/// followed by one or more decimal digits.
pub open spec fn index_digits(s: Seq<char>) -> Seq<char> {
    if s.len() > 0 && s[0] == '+' {
        s.subrange(1, s.len() as int)
    } else {
        s
    }
}

/// A path segment read as an array index, as `usize::from_str` reads it:
/// an optional `+`, then at least one decimal digit, with a value that fits
/// in a `usize`.
pub open spec fn parse_index(s: Seq<char>) -> Option<int> {
    if index_digits(s).len() > 0 && all_digits(index_digits(s)) && digits_value(index_digits(s)) <= usize::MAX {
        Some(digits_value(index_digits(s)))
    } else {
        None
    }
}

/// Whether every character of `d` is a decimal digit.
pub open spec fn all_digits(d: Seq<char>) -> bool {
    forall|i: int| 0 <= i < d.len() ==> #[trigger] is_digit(d[i])
}

proof fn lemma_digits_grow(d: Seq<char>, i: int, j: int)
    requires
        0 <= i <= j <= d.len(),
        forall|k: int| 0 <= k < d.len() ==> #[trigger] is_digit(d[k]),
    ensures
        0 <= digits_value(d.take(i)) <= digits_value(d.take(j)),
    decreases j - i,
{
    if i < j {
        lemma_digits_grow(d, i, j - 1);
        assert(d.take(j).drop_last() =~= d.take(j - 1));
        assert(is_digit(d[j - 1]));
    } else {
        lemma_digits_nonneg(d.take(i), d);
    }
}

proof fn lemma_digits_nonneg(p: Seq<char>, d: Seq<char>)
    requires
        p.len() <= d.len(),
        p =~= d.take(p.len() as int),
        forall|k: int| 0 <= k < d.len() ==> #[trigger] is_digit(d[k]),
    ensures
        digits_value(p) >= 0,
    decreases p.len(),
{
    if p.len() > 0 {
        lemma_digits_nonneg(p.drop_last(), d);
        assert(is_digit(d[p.len() - 1]));
    }
}

/// Reads a path segment as an array index (see [`parse_index`]).
pub fn parse_index_exec(seg: &String) -> (r: Option<usize>)
    ensures
        match r {
            Some(n) => parse_index(seg@) == Some(n as int),
            None => parse_index(seg@) is None,
        },
{
    let cs = chars_of(seg.as_str());
    let start: usize = if cs.len() > 0 && cs[0] == '+' { 1 } else { 0 };
    let ghost d = index_digits(seg@);
    assert(d =~= cs@.subrange(start as int, cs@.len() as int));
    if start >= cs.len() {
        assert(d.len() == 0);
        assert(parse_index(seg@) is None);
        return None;
    }
    let mut i: usize = start;
    let mut acc: usize = 0;
    while i < cs.len()
        invariant
            start <= i <= cs.len(),
            cs@ == seg@,
            d =~= cs@.subrange(start as int, cs@.len() as int),
            d == index_digits(seg@),
            forall|k: int| 0 <= k < i - start ==> #[trigger] is_digit(d[k]),
            acc as int == digits_value(d.take(i - start)),
        decreases cs.len() - i,
    {
        let c = cs[i];
        if c < '0' || c > '9' {
            assert(!is_digit(d[i - start]));
            assert(!all_digits(d));
            assert(parse_index(seg@) is None);
            return None;
        }
        proof {
            assert(d.take(i - start + 1).drop_last() =~= d.take(i - start));
            assert(is_digit(d[i - start]));
        }
        let digit = (c as u32 - '0' as u32) as usize;
        match acc.checked_mul(10) {
            Some(m) => match m.checked_add(digit) {
                Some(n) => {
                    acc = n;
                },
                None => {
                    proof { lemma_overflow_stays(d, i - start + 1, cs.len() - start); }
                    return None;
                },
            },
            None => {
                proof {
                    assert(acc as int * 10 > usize::MAX);
                    lemma_overflow_stays(d, i - start + 1, cs.len() - start);
                }
                return None;
            },
        }
        i = i + 1;
    }
    assert(d.take(d.len() as int) =~= d);
    Some(acc)
}

/// Once a prefix of the digits reads as more than `usize::MAX`, so does
/// every longer prefix, provided the rest are digits too.
proof fn lemma_overflow_stays(d: Seq<char>, i: int, n: int)
    requires
        0 < i <= n == d.len(),
        forall|k: int| 0 <= k < i ==> #[trigger] is_digit(d[k]),
        digits_value(d.take(i)) > usize::MAX,
    ensures
        parse_index_rest(d),
    decreases n - i,
{
    if all_digits(d) {
        lemma_digits_grow(d, i, n);
        assert(d.take(n) =~= d);
    }
}

/// `d` does not read as an index: a character is not a digit, or the
/// value does not fit in a `usize`.
pub open spec fn parse_index_rest(d: Seq<char>) -> bool {
    !all_digits(d) || digits_value(d) > usize::MAX
}

/// Lexicographic order of two strings by their characters' code points,
/// which is the byte order of their UTF-8 encodings.
pub open spec fn lex_order(a: Seq<char>, b: Seq<char>) -> Ordering
    decreases a.len(),
{
    if a.len() == 0 {
        if b.len() == 0 { Ordering::Equal } else { Ordering::Less }
    } else if b.len() == 0 {
        Ordering::Greater
    } else if (a[0] as u32) < (b[0] as u32) {
        Ordering::Less
    } else if (a[0] as u32) > (b[0] as u32) {
        Ordering::Greater
    } else {
        lex_order(a.subrange(1, a.len() as int), b.subrange(1, b.len() as int))
    }
}

/// Compares two strings as [`lex_order`] states.
pub fn compare_strings(a: &String, b: &String) -> (r: Ordering)
    ensures
        r == lex_order(a@, b@),
{
    let x = chars_of(a.as_str());
    let y = chars_of(b.as_str());
    let mut i: usize = 0;
    assert(x@.subrange(0, x@.len() as int) =~= a@);
    assert(y@.subrange(0, y@.len() as int) =~= b@);
    while i < x.len() && i < y.len()
        invariant
            i <= x.len(),
            i <= y.len(),
            x@ == a@,
            y@ == b@,
            lex_order(a@, b@) == lex_order(x@.subrange(i as int, x@.len() as int), y@.subrange(i as int, y@.len() as int)),
        decreases x.len() - i,
    {
        let ghost xs = x@.subrange(i as int, x@.len() as int);
        let ghost ys = y@.subrange(i as int, y@.len() as int);
        assert(xs.subrange(1, xs.len() as int) =~= x@.subrange(i as int + 1, x@.len() as int));
        assert(ys.subrange(1, ys.len() as int) =~= y@.subrange(i as int + 1, y@.len() as int));
        assert(xs[0] == x@[i as int]);
        assert(ys[0] == y@[i as int]);
        if (x[i] as u32) < (y[i] as u32) {
            return Ordering::Less;
        }
        if (x[i] as u32) > (y[i] as u32) {
            return Ordering::Greater;
        }
        i = i + 1;
    }
    if i < x.len() {
        Ordering::Greater
    } else if i < y.len() {
        Ordering::Less
    } else {
        Ordering::Equal
    }
}

/// The number of bytes a character takes in UTF-8.
pub open spec fn utf8_width(c: char) -> int {
    if (c as u32) < 0x80 {
        1
    } else if (c as u32) < 0x800 {
        2
    } else if (c as u32) < 0x10000 {
        3
    } else {
        4
    }
}

/// The number of bytes a string takes in UTF-8.
pub open spec fn utf8_len(s: Seq<char>) -> int
    decreases s.len(),
{
    if s.len() == 0 {
        0
    } else {
        utf8_len(s.drop_last()) + utf8_width(s.last())
    }
}

/// The length of a string in bytes, as `str::len` counts it.
pub fn byte_len(s: &String) -> (r: u128)
    ensures
        r as int == utf8_len(s@),
{
    let cs = chars_of(s.as_str());
    let mut n: u128 = 0;
    let mut i: usize = 0;
    while i < cs.len()
        invariant
            i <= cs.len(),
            cs@ == s@,
            n as int == utf8_len(cs@.take(i as int)),
            n as int <= 4 * i,
        decreases cs.len() - i,
    {
        proof {
            assert(cs@.take(i as int + 1).drop_last() =~= cs@.take(i as int));
        }
        let c = cs[i] as u32;
        let w: u128 = if c < 0x80 { 1 } else if c < 0x800 { 2 } else if c < 0x10000 { 3 } else { 4 };
        n = n + w;
        i = i + 1;
    }
    assert(cs@.take(cs.len() as int) =~= cs@);
    n
}

} // verus!
