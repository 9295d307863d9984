//! Character-level helpers: conversion between `String` and character
//! vectors, whitespace trimming and splitting, and decimal integers.
use vstd::prelude::*;

verus! {

/// The characters of `s`, in order.
pub fn chars_of(s: &str) -> (r: Vec<char>)
    ensures
        r@ == s@,
{
    let mut r: Vec<char> = Vec::new();
    for c in it: s.chars()
        invariant
            r@ == it.seq().take(it.index() as int),
            it.seq() == s@,
    {
        r.push(c);
    }
    r
}

/// Relies on `String`'s `FromIterator<char>`: the string holds exactly the
/// given characters, in order.
#[verifier::external_body]
pub(crate) fn string_of(v: &Vec<char>) -> (r: String)
    ensures
        r@ == v@,
{
    v.iter().collect()
}

/// Whether `a` and `b` hold the same characters.
pub fn same_text(a: &str, b: &str) -> (r: bool)
    ensures
        r == (a@ == b@),
{
    let x = chars_of(a);
    let y = chars_of(b);
    same_chars(&x, &y)
}

/// Whether two character vectors are equal.
pub fn same_chars(x: &Vec<char>, y: &Vec<char>) -> (r: bool)
    ensures
        r == (x@ == y@),
{
    if x.len() != y.len() {
        return false;
    }
    let mut i: usize = 0;
    while i < x.len()
        invariant
            x.len() == y.len(),
            i <= x.len(),
            forall|k: int| 0 <= k < i ==> x@[k] == y@[k],
        decreases x.len() - i,
    {
        if x[i] != y[i] {
            return false;
        }
        i = i + 1;
    }
    assert(x@ =~= y@);
    true
}

/// Unicode white space, as `char::is_whitespace` defines it.
pub open spec fn is_ws(c: char) -> bool {
    let u = c as u32;
    (0x9 <= u && u <= 0xd) || u == 0x20 || u == 0x85 || u == 0xa0 || u == 0x1680 || (0x2000 <= u
        && u <= 0x200a) || u == 0x2028 || u == 0x2029 || u == 0x202f || u == 0x205f || u == 0x3000
}

/// The character class that a strip removes: white space, or the double
/// quote when `quotes` is set.
pub open spec fn stripped(c: char, quotes: bool) -> bool {
    if quotes {
        c == '"'
    } else {
        is_ws(c)
    }
}

/// `s` without its leading characters of the class.
pub open spec fn strip_start(s: Seq<char>, quotes: bool) -> Seq<char>
    decreases s.len(),
{
    if s.len() > 0 && stripped(s[0], quotes) {
        strip_start(s.drop_first(), quotes)
    } else {
        s
    }
}

/// `s` without its trailing characters of the class.
pub open spec fn strip_end(s: Seq<char>, quotes: bool) -> Seq<char>
    decreases s.len(),
{
    if s.len() > 0 && stripped(s.last(), quotes) {
        strip_end(s.drop_last(), quotes)
    } else {
        s
    }
}

/// `s` without leading and trailing white space (`str::trim`).
pub open spec fn trim(s: Seq<char>) -> Seq<char> {
    strip_end(strip_start(s, false), false)
}

/// `s` without leading and trailing double quotes (`str::trim_matches('"')`).
pub open spec fn unquote(s: Seq<char>) -> Seq<char> {
    strip_end(strip_start(s, true), true)
}

fn is_stripped(c: char, quotes: bool) -> (r: bool)
    ensures
        r == stripped(c, quotes),
{
    if quotes {
        c == '"'
    } else {
        let u = c as u32;
        (0x9 <= u && u <= 0xd) || u == 0x20 || u == 0x85 || u == 0xa0 || u == 0x1680 || (0x2000
            <= u && u <= 0x200a) || u == 0x2028 || u == 0x2029 || u == 0x202f || u == 0x205f || u
            == 0x3000
    }
}

/// The characters of `v` from `lo` up to `hi`.
pub fn slice_chars(v: &Vec<char>, lo: usize, hi: usize) -> (r: Vec<char>)
    requires
        lo <= hi <= v.len(),
    ensures
        r@ == v@.subrange(lo as int, hi as int),
{
    let mut r: Vec<char> = Vec::new();
    let mut i = lo;
    while i < hi
        invariant
            lo <= i <= hi <= v.len(),
            r@ == v@.subrange(lo as int, i as int),
        decreases hi - i,
    {
        r.push(v[i]);
        i = i + 1;
    }
    r
}

/// Removes the leading and trailing characters of the class.
pub fn strip(v: &Vec<char>, quotes: bool) -> (r: Vec<char>)
    ensures
        r@ == strip_end(strip_start(v@, quotes), quotes),
{
    let mut lo: usize = 0;
    assert(v@.subrange(0, v.len() as int) =~= v@);
    while lo < v.len() && is_stripped(v[lo], quotes)
        invariant
            lo <= v.len(),
            strip_start(v@, quotes) == strip_start(v@.subrange(lo as int, v.len() as int), quotes),
        decreases v.len() - lo,
    {
        assert(v@.subrange(lo as int, v.len() as int).drop_first() =~= v@.subrange(
            lo + 1,
            v.len() as int,
        ));
        lo = lo + 1;
    }
    let ghost t = v@.subrange(lo as int, v.len() as int);
    assert(strip_start(t, quotes) == t);
    let mut hi: usize = v.len();
    while hi > lo && is_stripped(v[hi - 1], quotes)
        invariant
            lo <= hi <= v.len(),
            strip_end(t, quotes) == strip_end(v@.subrange(lo as int, hi as int), quotes),
        decreases hi,
    {
        assert(v@.subrange(lo as int, hi as int).drop_last() =~= v@.subrange(
            lo as int,
            hi - 1,
        ));
        hi = hi - 1;
    }
    slice_chars(v, lo, hi)
}

/// The views of a vector of character vectors.
pub open spec fn views_of(parts: Seq<Vec<char>>) -> Seq<Seq<char>> {
    parts.map_values(|p: Vec<char>| p@)
}

/// The maximal runs of non-white-space characters of `s`, in order
/// (`str::split_whitespace`).
pub open spec fn words(s: Seq<char>) -> Seq<Seq<char>>
    decreases s.len(),
{
    if s.len() == 0 {
        seq![]
    } else {
        let w = words(s.drop_last());
        let c = s.last();
        if is_ws(c) {
            w
        } else if s.len() >= 2 && !is_ws(s[s.len() - 2]) {
            w.drop_last().push(w.last().push(c))
        } else {
            w.push(seq![c])
        }
    }
}

proof fn lemma_words_open(s: Seq<char>)
    requires
        s.len() > 0,
        !is_ws(s.last()),
    ensures
        words(s).len() > 0,
    decreases s.len(),
{
    if s.len() >= 2 && !is_ws(s[s.len() - 2]) {
        lemma_words_open(s.drop_last());
    }
}

/// Splits `v` at white space, dropping empty pieces.
pub fn split_words(v: &Vec<char>) -> (r: Vec<Vec<char>>)
    ensures
        views_of(r@) == words(v@),
{
    let mut parts: Vec<Vec<char>> = Vec::new();
    let mut i: usize = 0;
    while i < v.len()
        invariant
            i <= v.len(),
            views_of(parts@) == words(v@.take(i as int)),
        decreases v.len() - i,
    {
        let c = v[i];
        let ghost pre = v@.take(i as int);
        let ghost next = v@.take(i + 1);
        assert(next.drop_last() =~= pre);
        if is_stripped(c, false) {
        } else if i >= 1 && !is_stripped(v[i - 1], false) {
            proof {
                lemma_words_open(pre);
            }
            let mut last = parts.pop().unwrap();
            last.push(c);
            parts.push(last);
            assert(views_of(parts@) =~= words(next));
        } else {
            let mut w: Vec<char> = Vec::new();
            w.push(c);
            parts.push(w);
            assert(views_of(parts@) =~= words(next));
        }
        i = i + 1;
    }
    assert(v@.take(v.len() as int) =~= v@);
    parts
}

/// The pieces of `s` between occurrences of `sep`, empty ones included
/// (`str::split`).
pub open spec fn split_on(s: Seq<char>, sep: char) -> Seq<Seq<char>>
    decreases s.len(),
{
    if s.len() == 0 {
        seq![seq![]]
    } else {
        let w = split_on(s.drop_last(), sep);
        if s.last() == sep {
            w.push(seq![])
        } else {
            w.drop_last().push(w.last().push(s.last()))
        }
    }
}

proof fn lemma_split_on_len(s: Seq<char>, sep: char)
    ensures
        split_on(s, sep).len() >= 1,
    decreases s.len(),
{
    if s.len() > 0 {
        lemma_split_on_len(s.drop_last(), sep);
    }
}

/// Splits `v` at each `sep`.
pub fn split_at_char(v: &Vec<char>, sep: char) -> (r: Vec<Vec<char>>)
    ensures
        views_of(r@) == split_on(v@, sep),
{
    let mut parts: Vec<Vec<char>> = Vec::new();
    parts.push(Vec::new());
    assert(views_of(parts@) =~= split_on(v@.take(0), sep));
    let mut i: usize = 0;
    while i < v.len()
        invariant
            i <= v.len(),
            views_of(parts@) == split_on(v@.take(i as int), sep),
        decreases v.len() - i,
    {
        let c = v[i];
        let ghost pre = v@.take(i as int);
        let ghost next = v@.take(i + 1);
        assert(next.drop_last() =~= pre);
        proof {
            lemma_split_on_len(pre, sep);
        }
        if c == sep {
            parts.push(Vec::new());
            assert(views_of(parts@) =~= split_on(next, sep));
        } else {
            let mut last = parts.pop().unwrap();
            last.push(c);
            parts.push(last);
            assert(views_of(parts@) =~= split_on(next, sep));
        }
        i = i + 1;
    }
    assert(v@.take(v.len() as int) =~= v@);
    parts
}

pub open spec fn is_digit(c: char) -> bool {
    '0' <= c && c <= '9'
}

pub open spec fn digit_value(c: char) -> int {
    (c as u32) - ('0' as u32)
}

/// The value of a run of decimal digits.
pub open spec fn digits_value(s: Seq<char>) -> int
    decreases s.len(),
{
    if s.len() == 0 {
        0
    } else {
        digits_value(s.drop_last()) * 10 + digit_value(s.last())
    }
}

pub open spec fn all_digits(s: Seq<char>) -> bool {
    s.len() > 0 && forall|i: int| 0 <= i < s.len() ==> is_digit(#[trigger] s[i])
}

/// The integer that `s` writes in base ten: an optional sign, then one or
/// more digits.
pub open spec fn decimal_value(s: Seq<char>) -> Option<int> {
    if s.len() > 0 && (s[0] == '-' || s[0] == '+') {
        if all_digits(s.drop_first()) {
            if s[0] == '-' {
                Some(-digits_value(s.drop_first()))
            } else {
                Some(digits_value(s.drop_first()))
            }
        } else {
            None
        }
    } else if all_digits(s) {
        Some(digits_value(s))
    } else {
        None
    }
}

/// What `str::parse::<i64>` gives for `s`: its decimal value where that
/// fits in 64 bits.
pub open spec fn parse_i64_spec(s: Seq<char>) -> Option<i64> {
    match decimal_value(s) {
        Some(v) => if i64::MIN <= v <= i64::MAX {
            Some(v as i64)
        } else {
            None
        },
        None => None,
    }
}

proof fn lemma_digits_grow(s: Seq<char>, k: int)
    requires
        0 <= k <= s.len(),
        forall|i: int| 0 <= i < s.len() ==> is_digit(#[trigger] s[i]),
    ensures
        digits_value(s) >= digits_value(s.take(k)) >= 0,
    decreases s.len(),
{
    if s.len() > 0 {
        if k == s.len() {
            assert(s.take(k) =~= s);
            lemma_digits_grow(s.drop_last(), k - 1);
            assert(s.drop_last().take(k - 1) =~= s.drop_last());
        } else {
            lemma_digits_grow(s.drop_last(), k);
            assert(s.drop_last().take(k) =~= s.take(k));
            lemma_digits_grow(s.drop_last(), s.len() - 1);
            assert(s.drop_last().take(s.len() - 1) =~= s.drop_last());
        }
    } else {
        assert(s.take(k) =~= s);
    }
}

proof fn lemma_not_decimal(v: Seq<char>, ds: Seq<char>, signed: bool)
    requires
        signed == (v.len() > 0 && (v[0] == '-' || v[0] == '+')),
        signed ==> ds == v.drop_first(),
        !signed ==> ds == v,
        !all_digits(ds),
    ensures
        decimal_value(v) is None,
{
}

proof fn lemma_too_large(v: Seq<char>, ds: Seq<char>, signed: bool)
    requires
        signed == (v.len() > 0 && (v[0] == '-' || v[0] == '+')),
        signed ==> ds == v.drop_first(),
        !signed ==> ds == v,
        all_digits(ds),
        digits_value(ds) > 9223372036854775808,
    ensures
        parse_i64_spec(v) is None,
{
}

/// Reads a signed decimal integer, as `str::parse::<i64>` does.
pub fn parse_i64(v: &Vec<char>) -> (r: Option<i64>)
    ensures
        r == parse_i64_spec(v@),
{
    let n = v.len();
    let mut start: usize = 0;
    let mut negative = false;
    if n > 0 && (v[0] == '-' || v[0] == '+') {
        start = 1;
        negative = v[0] == '-';
    }
    let ghost ds = v@.subrange(start as int, n as int);
    let ghost signed = n > 0 && (v@[0] == '-' || v@[0] == '+');
    assert(signed ==> ds =~= v@.drop_first());
    assert(!signed ==> ds =~= v@);
    if start >= n {
        proof {
            lemma_not_decimal(v@, ds, signed);
        }
        return None;
    }
    let mut i = start;
    let mut acc: i128 = 0;
    while i < n
        invariant
            start <= i <= n == v.len(),
            ds == v@.subrange(start as int, n as int),
            signed == (v@.len() > 0 && (v@[0] == '-' || v@[0] == '+')),
            signed ==> ds == v@.drop_first() && start == 1 && (negative <==> v@[0] == '-'),
            !signed ==> ds == v@ && start == 0 && !negative,
            forall|k: int| start <= k < i ==> is_digit(#[trigger] v@[k]),
            acc == digits_value(v@.subrange(start as int, i as int)),
            0 <= acc <= 9223372036854775808,
        decreases n - i,
    {
        let c = v[i];
        if !('0' <= c && c <= '9') {
            assert(!is_digit(ds[i - start]));
            proof {
                lemma_not_decimal(v@, ds, signed);
            }
            return None;
        }
        let d = (c as u32 - '0' as u32) as i128;
        assert(v@.subrange(start as int, i + 1).drop_last() =~= v@.subrange(start as int, i as int));
        acc = acc * 10 + d;
        if acc > 9223372036854775808 {
            let ghost pre = v@.subrange(start as int, i + 1);
            let mut j = i + 1;
            while j < n
                invariant
                    start < j <= n == v.len(),
                    ds == v@.subrange(start as int, n as int),
                    signed == (v@.len() > 0 && (v@[0] == '-' || v@[0] == '+')),
                    signed ==> ds == v@.drop_first(),
                    !signed ==> ds == v@,
                    forall|k: int| start <= k < j ==> is_digit(#[trigger] v@[k]),
                decreases n - j,
            {
                if !('0' <= v[j] && v[j] <= '9') {
                    assert(!is_digit(ds[j - start]));
                    proof {
                        lemma_not_decimal(v@, ds, signed);
                    }
                    return None;
                }
                j = j + 1;
            }
            proof {
                assert forall|k: int| 0 <= k < ds.len() implies is_digit(#[trigger] ds[k]) by {
                    assert(is_digit(v@[k + start]));
                }
                lemma_digits_grow(ds, i + 1 - start);
                assert(ds.take(i + 1 - start) =~= pre);
                lemma_too_large(v@, ds, signed);
            }
            return None;
        }
        i = i + 1;
    }
    proof {
        assert(v@.subrange(start as int, i as int) =~= ds);
        assert forall|k: int| 0 <= k < ds.len() implies is_digit(#[trigger] ds[k]) by {
            assert(is_digit(v@[k + start]));
        }
    }
    if negative {
        Some((0 - acc) as i64)
    } else if acc > 9223372036854775807 {
        None
    } else {
        Some(acc as i64)
    }
}

pub open spec fn digit_char(d: nat) -> char {
    ((d + ('0' as u32)) as u32) as char
}

/// The decimal digits of `n`, most significant first, without leading zeros.
pub open spec fn natural_digits(n: nat) -> Seq<char>
    decreases n,
{
    if n < 10 {
        seq![digit_char(n)]
    } else {
        natural_digits(n / 10).push(digit_char(n % 10))
    }
}

/// The base-ten rendering of `v`, with a leading `-` when negative.
pub open spec fn decimal_text(v: int) -> Seq<char> {
    if v < 0 {
        seq!['-'] + natural_digits((-v) as nat)
    } else {
        natural_digits(v as nat)
    }
}

pub fn push_digits(n: u64, out: &mut Vec<char>)
    ensures
        final(out)@ == old(out)@ + natural_digits(n as nat),
    decreases n,
{
    if n >= 10 {
        push_digits(n / 10, out);
    }
    let d = (n % 10) as u8;
    let c = (d + 48) as char;
    out.push(c);
}

/// Renders `v` in base ten (`i64::to_string`).
pub fn decimal_of(v: i64) -> (r: Vec<char>)
    ensures
        r@ == decimal_text(v as int),
{
    let mut out: Vec<char> = Vec::new();
    if v < 0 {
        out.push('-');
        let m: u64 = (0i128 - v as i128) as u64;
        push_digits(m, &mut out);
    } else {
        push_digits(v as u64, &mut out);
    }
    out
}

} // verus!
