//! Text primitives for the engine's parsers: conversion between `String` and
//! character vectors, ASCII case mapping, whitespace trimming, and substring
//! search with exact first/last-occurrence contracts.

use vstd::prelude::*;

verus! {

/// Relies on str::chars and Iterator::collect: the characters of a string
/// slice, in order.
#[verifier::external_body]
pub fn str_chars(s: &str) -> (r: Vec<char>)
    ensures
        r@ == s@,
{
    s.chars().collect()
}

/// Relies on Iterator::collect for String: a string built from exactly the
/// given characters, in order.
#[verifier::external_body]
pub fn string_from_chars(v: &Vec<char>) -> (r: String)
    ensures
        r@ == v@,
{
    v.iter().collect()
}

/// ASCII lower-casing of one character.
pub open spec fn spec_lower_char(c: char) -> char {
    if 'A' <= c && c <= 'Z' {
        (c as u8 + 32) as char
    } else {
        c
    }
}

/// ASCII upper-casing of one character.
pub open spec fn spec_upper_char(c: char) -> char {
    if 'a' <= c && c <= 'z' {
        (c as u8 - 32) as char
    } else {
        c
    }
}

/// A sequence of characters, ASCII lower-cased.
pub open spec fn lower_seq(s: Seq<char>) -> Seq<char> {
    s.map_values(|c: char| spec_lower_char(c))
}

/// A sequence of characters, ASCII upper-cased.
pub open spec fn upper_seq(s: Seq<char>) -> Seq<char> {
    s.map_values(|c: char| spec_upper_char(c))
}

/// ASCII lower-casing of one character.
pub fn lower_char(c: char) -> (r: char)
    ensures
        r == spec_lower_char(c),
{
    if 'A' <= c && c <= 'Z' {
        (c as u8 + 32) as char
    } else {
        c
    }
}

/// ASCII upper-casing of one character.
pub fn upper_char(c: char) -> (r: char)
    ensures
        r == spec_upper_char(c),
{
    if 'a' <= c && c <= 'z' {
        (c as u8 - 32) as char
    } else {
        c
    }
}

/// ASCII lower-cased copy of a character vector.
pub fn to_lower(v: &Vec<char>) -> (r: Vec<char>)
    ensures
        r@ == lower_seq(v@),
{
    let mut r: Vec<char> = Vec::new();
    let mut i: usize = 0;
    while i < v.len()
        invariant
            0 <= i <= v@.len(),
            r@ == lower_seq(v@.take(i as int)),
        decreases v@.len() - i,
    {
        r.push(lower_char(v[i]));
        proof {
            assert(r@ =~= lower_seq(v@.take(i + 1)));
        }
        i = i + 1;
    }
    proof {
        assert(v@.take(v@.len() as int) =~= v@);
    }
    r
}

/// ASCII upper-cased copy of a character vector.
pub fn to_upper(v: &Vec<char>) -> (r: Vec<char>)
    ensures
        r@ == upper_seq(v@),
{
    let mut r: Vec<char> = Vec::new();
    let mut i: usize = 0;
    while i < v.len()
        invariant
            0 <= i <= v@.len(),
            r@ == upper_seq(v@.take(i as int)),
        decreases v@.len() - i,
    {
        r.push(upper_char(v[i]));
        proof {
            assert(r@ =~= upper_seq(v@.take(i + 1)));
        }
        i = i + 1;
    }
    proof {
        assert(v@.take(v@.len() as int) =~= v@);
    }
    r
}

/// The ASCII whitespace characters this crate trims: tab through carriage
/// return, and the space.
pub open spec fn spec_is_space(c: char) -> bool {
    c == ' ' || ('\u{9}' <= c && c <= '\u{d}')
}

/// Whether `c` counts as trimmable whitespace.
pub fn is_space(c: char) -> (r: bool)
    ensures
        r == spec_is_space(c),
{
    c == ' ' || ('\u{9}' <= c && c <= '\u{d}')
}

/// A copy of `v@.subrange(lo, hi)`.
pub fn subvec(v: &Vec<char>, lo: usize, hi: usize) -> (r: Vec<char>)
    requires
        lo <= hi <= v@.len(),
    ensures
        r@ == v@.subrange(lo as int, hi as int),
{
    let mut r: Vec<char> = Vec::new();
    let mut i: usize = lo;
    while i < hi
        invariant
            lo <= i <= hi <= v@.len(),
            r@ == v@.subrange(lo as int, i as int),
        decreases hi - i,
    {
        r.push(v[i]);
        proof {
            assert(r@ =~= v@.subrange(lo as int, i + 1));
        }
        i = i + 1;
    }
    r
}

/// The bounds that trimming whitespace from both ends of `v@.subrange(lo, hi)`
/// leaves: everything outside `[r.0, r.1)` but inside `[lo, hi)` is
/// whitespace, and the ends of the trimmed range are not.
pub fn trim_bounds(v: &Vec<char>, lo: usize, hi: usize) -> (r: (usize, usize))
    requires
        lo <= hi <= v@.len(),
    ensures
        lo <= r.0 <= r.1 <= hi,
        forall|i: int| lo <= i < r.0 ==> spec_is_space(#[trigger] v@[i]),
        forall|i: int| r.1 <= i < hi ==> spec_is_space(#[trigger] v@[i]),
        r.0 < r.1 ==> !spec_is_space(v@[r.0 as int]) && !spec_is_space(v@[r.1 - 1]),
        r.0 == r.1 ==> forall|i: int| lo <= i < hi ==> spec_is_space(#[trigger] v@[i]),
{
    let mut a: usize = lo;
    let mut b: usize = hi;
    while a < b && is_space(v[a])
        invariant
            lo <= a <= b <= hi <= v@.len(),
            b == hi,
            forall|i: int| lo <= i < a ==> spec_is_space(#[trigger] v@[i]),
        decreases b - a,
    {
        a = a + 1;
    }
    while a < b && is_space(v[b - 1])
        invariant
            lo <= a <= b <= hi <= v@.len(),
            forall|i: int| lo <= i < a ==> spec_is_space(#[trigger] v@[i]),
            forall|i: int| b <= i < hi ==> spec_is_space(#[trigger] v@[i]),
            a < b ==> !spec_is_space(v@[a as int]),
        decreases b - a,
    {
        b = b - 1;
    }
    (a, b)
}

/// Whether the characters `n` stand in `h` at position `i`.
pub open spec fn match_at(h: Seq<char>, n: Seq<char>, i: int) -> bool {
    0 <= i && i + n.len() <= h.len() && h.subrange(i, i + n.len()) == n
}

/// Whether `n` stands in `h` at `i`, decided by comparing characters.
pub fn match_at_exec(h: &Vec<char>, n: &Vec<char>, i: usize) -> (r: bool)
    requires
        i <= h@.len(),
    ensures
        r == match_at(h@, n@, i as int),
{
    let hl: usize = h.len();
    let nl: usize = n.len();
    if hl - i < nl {
        proof {
            assert(!match_at(h@, n@, i as int));
        }
        return false;
    }
    let mut j: usize = 0;
    while j < nl
        invariant
            hl == h@.len(),
            nl == n@.len(),
            i + nl <= hl,
            0 <= j <= nl,
            forall|k: int| 0 <= k < j ==> h@[i + k] == n@[k],
        decreases nl - j,
    {
        if h[i + j] != n[j] {
            proof {
                assert(h@.subrange(i as int, i + n@.len())[j as int] == h@[i + j]);
            }
            return false;
        }
        j = j + 1;
    }
    proof {
        assert(h@.subrange(i as int, i + n@.len()) =~= n@);
    }
    true
}

/// The first position at or after `from` where `n` stands in `h`, if any.
pub fn find_sub(h: &Vec<char>, n: &Vec<char>, from: usize) -> (r: Option<usize>)
    requires
        from <= h@.len(),
    ensures
        match r {
            Some(i) => from <= i && match_at(h@, n@, i as int) && (forall|ii: int|
                from <= ii < i ==> !match_at(h@, n@, ii)),
            None => forall|ii: int| from <= ii ==> !match_at(h@, n@, ii),
        },
{
    let hl: usize = h.len();
    let mut i: usize = from;
    loop
        invariant
            hl == h@.len(),
            from <= i <= hl,
            forall|ii: int| from <= ii < i ==> !match_at(h@, n@, ii),
        decreases hl - i,
    {
        if match_at_exec(h, n, i) {
            return Some(i);
        }
        if i == hl {
            proof {
                assert forall|ii: int| from <= ii implies !match_at(h@, n@, ii) by {
                    if ii > hl {
                        assert(!match_at(h@, n@, ii));
                    }
                }
            }
            return None;
        }
        i = i + 1;
    }
}

/// The last position at or after `from` where `n` stands in `h`, if any.
pub fn rfind_sub(h: &Vec<char>, n: &Vec<char>, from: usize) -> (r: Option<usize>)
    requires
        from <= h@.len(),
    ensures
        match r {
            Some(i) => from <= i && match_at(h@, n@, i as int) && (forall|ii: int|
                i < ii ==> !match_at(h@, n@, ii)),
            None => forall|ii: int| from <= ii ==> !match_at(h@, n@, ii),
        },
{
    let hl: usize = h.len();
    let mut i: usize = hl;
    loop
        invariant
            hl == h@.len(),
            from <= i <= hl,
            forall|ii: int| i < ii ==> !match_at(h@, n@, ii),
        decreases i,
    {
        if match_at_exec(h, n, i) {
            return Some(i);
        }
        if i <= from {
            proof {
                assert(forall|ii: int| from <= ii ==> !match_at(h@, n@, ii));
            }
            return None;
        }
        i = i - 1;
    }
}

/// Whether `n` stands anywhere in `h`.
pub fn contains_sub(h: &Vec<char>, n: &Vec<char>) -> (r: bool)
    ensures
        r == exists|i: int| match_at(h@, n@, i),
{
    match find_sub(h, n, 0) {
        Some(i) => {
            proof {
                assert(match_at(h@, n@, i as int));
            }
            true
        },
        None => false,
    }
}

/// Whether `h` begins with `n`.
pub fn starts_with(h: &Vec<char>, n: &Vec<char>) -> (r: bool)
    ensures
        r == match_at(h@, n@, 0),
{
    match_at_exec(h, n, 0)
}

/// Whether `h` ends with `n`.
pub fn ends_with(h: &Vec<char>, n: &Vec<char>) -> (r: bool)
    ensures
        r == (n@.len() <= h@.len() && match_at(h@, n@, h@.len() - n@.len())),
{
    if n.len() > h.len() {
        false
    } else {
        match_at_exec(h, n, h.len() - n.len())
    }
}

/// The first position at or after `from` holding character `c`, if any.
pub fn find_char(h: &Vec<char>, c: char, from: usize) -> (r: Option<usize>)
    requires
        from <= h@.len(),
    ensures
        match r {
            Some(i) => from <= i < h@.len() && h@[i as int] == c && (forall|ii: int|
                from <= ii < i ==> h@[ii] != c),
            None => forall|ii: int| from <= ii < h@.len() ==> h@[ii] != c,
        },
{
    let mut i: usize = from;
    while i < h.len()
        invariant
            from <= i <= h@.len(),
            forall|ii: int| from <= ii < i ==> h@[ii] != c,
        decreases h@.len() - i,
    {
        if h[i] == c {
            return Some(i);
        }
        i = i + 1;
    }
    None
}

/// Whether two character vectors hold the same characters.
pub fn chars_eq(a: &Vec<char>, b: &Vec<char>) -> (r: bool)
    ensures
        r == (a@ == b@),
{
    if a.len() != b.len() {
        return false;
    }
    let mut i: usize = 0;
    while i < a.len()
        invariant
            a@.len() == b@.len(),
            0 <= i <= a@.len(),
            forall|k: int| 0 <= k < i ==> a@[k] == b@[k],
        decreases a@.len() - i,
    {
        if a[i] != b[i] {
            return false;
        }
        i = i + 1;
    }
    proof {
        assert(a@ =~= b@);
    }
    true
}

/// The first position of `s` whose character satisfies `p`, or `s.len()`
/// when none does.
pub open spec fn first_sat(s: Seq<char>, p: spec_fn(char) -> bool) -> int
    decreases s.len(),
{
    if s.len() == 0 {
        0
    } else if p(s[0]) {
        0
    } else {
        1 + first_sat(s.drop_first(), p)
    }
}

/// `first_sat` lies between 0 and the length; nothing before it satisfies
/// `p`, and the character at it (when in range) does.
pub proof fn lemma_first_sat_bounds(s: Seq<char>, p: spec_fn(char) -> bool)
    ensures
        0 <= first_sat(s, p) <= s.len(),
        forall|i: int| 0 <= i < first_sat(s, p) ==> !p(s[i]),
        first_sat(s, p) < s.len() ==> p(s[first_sat(s, p)]),
    decreases s.len(),
{
    if s.len() > 0 && !p(s[0]) {
        lemma_first_sat_bounds(s.drop_first(), p);
        assert forall|i: int| 0 <= i < first_sat(s, p) implies !p(s[i]) by {
            if i > 0 {
                assert(s.drop_first()[i - 1] == s[i]);
            }
        }
    }
}

/// A position with nothing satisfying `p` before it, and `p` holding at it
/// when in range, is exactly `first_sat`.
pub proof fn lemma_first_sat_at(s: Seq<char>, p: spec_fn(char) -> bool, k: int)
    requires
        0 <= k <= s.len(),
        forall|i: int| 0 <= i < k ==> !p(s[i]),
        k < s.len() ==> p(s[k]),
    ensures
        first_sat(s, p) == k,
    decreases s.len(),
{
    if s.len() == 0 {
    } else if p(s[0]) {
        assert(k == 0);
    } else {
        assert(k >= 1);
        assert forall|i: int| 0 <= i < k - 1 implies !p(s.drop_first()[i]) by {
            assert(s.drop_first()[i] == s[i + 1]);
        }
        if k - 1 < s.drop_first().len() {
            assert(s.drop_first()[k - 1] == s[k]);
        }
        lemma_first_sat_at(s.drop_first(), p, k - 1);
    }
}

/// One past the last position of `s` whose character satisfies `p`, or 0
/// when none does.
pub open spec fn last_sat_end(s: Seq<char>, p: spec_fn(char) -> bool) -> int
    decreases s.len(),
{
    if s.len() == 0 {
        0
    } else if p(s.last()) {
        s.len() as int
    } else {
        last_sat_end(s.drop_last(), p)
    }
}

/// A bound with nothing satisfying `p` at or after it, and `p` holding just
/// before it when positive, is exactly `last_sat_end`.
pub proof fn lemma_last_sat_end_at(s: Seq<char>, p: spec_fn(char) -> bool, k: int)
    requires
        0 <= k <= s.len(),
        forall|i: int| k <= i < s.len() ==> !p(s[i]),
        k > 0 ==> p(s[k - 1]),
    ensures
        last_sat_end(s, p) == k,
    decreases s.len(),
{
    if s.len() == 0 {
    } else if p(s.last()) {
        assert(k == s.len());
    } else {
        assert(k < s.len());
        assert forall|i: int| k <= i < s.drop_last().len() implies !p(s.drop_last()[i]) by {
            assert(s.drop_last()[i] == s[i]);
        }
        if k > 0 {
            assert(s.drop_last()[k - 1] == s[k - 1]);
        }
        lemma_last_sat_end_at(s.drop_last(), p, k);
    }
}

/// `s` with leading and trailing whitespace removed.
pub open spec fn spec_trim(s: Seq<char>) -> Seq<char> {
    let a = first_sat(s, |c: char| !spec_is_space(c));
    let b = last_sat_end(s, |c: char| !spec_is_space(c));
    if a >= b {
        Seq::empty()
    } else {
        s.subrange(a, b)
    }
}

/// What `trim_bounds` returns delimits exactly `spec_trim` of the range.
pub proof fn lemma_trim_bounds_spec(s: Seq<char>, a: int, b: int)
    requires
        0 <= a <= b <= s.len(),
        forall|i: int| 0 <= i < a ==> spec_is_space(#[trigger] s[i]),
        forall|i: int| b <= i < s.len() ==> spec_is_space(#[trigger] s[i]),
        a < b ==> !spec_is_space(s[a]) && !spec_is_space(s[b - 1]),
        a == b ==> forall|i: int| 0 <= i < s.len() ==> spec_is_space(#[trigger] s[i]),
    ensures
        spec_trim(s) == s.subrange(a, b),
{
    let p = |c: char| !spec_is_space(c);
    if a < b {
        lemma_first_sat_at(s, p, a);
        lemma_last_sat_end_at(s, p, b);
    } else {
        lemma_first_sat_at(s, p, s.len() as int);
        lemma_last_sat_end_at(s, p, 0);
        assert(spec_trim(s) =~= s.subrange(a, b));
    }
}

/// A trimmed copy of `v@.subrange(lo, hi)`.
pub fn trim_range(v: &Vec<char>, lo: usize, hi: usize) -> (r: Vec<char>)
    requires
        lo <= hi <= v@.len(),
    ensures
        r@ == spec_trim(v@.subrange(lo as int, hi as int)),
{
    let ghost s = v@.subrange(lo as int, hi as int);
    let (a, b) = trim_bounds(v, lo, hi);
    let r = subvec(v, a, b);
    proof {
        assert forall|i: int| 0 <= i < a - lo implies spec_is_space(#[trigger] s[i]) by {
            assert(s[i] == v@[lo + i]);
        }
        assert forall|i: int| b - lo <= i < s.len() implies spec_is_space(#[trigger] s[i]) by {
            assert(s[i] == v@[lo + i]);
        }
        if a < b {
            assert(s[a - lo] == v@[a as int]);
            assert(s[b - lo - 1] == v@[b - 1]);
        }
        lemma_trim_bounds_spec(s, a - lo, b - lo);
        assert(r@ =~= s.subrange(a - lo, b - lo));
    }
    r
}

/// The first position of `s` where the characters `n` stand, or `s.len()`
/// when they stand nowhere (for a non-empty `n`).
pub open spec fn first_sub(s: Seq<char>, n: Seq<char>) -> int
    decreases s.len(),
{
    if s.len() == 0 {
        0
    } else if match_at(s, n, 0) {
        0
    } else {
        1 + first_sub(s.drop_first(), n)
    }
}

/// A match one position further in `s` is a match in `s.drop_first()`.
pub proof fn lemma_match_at_shift(s: Seq<char>, n: Seq<char>, i: int)
    requires
        i >= 0,
        s.len() >= 1,
    ensures
        match_at(s, n, i + 1) == match_at(s.drop_first(), n, i),
{
    if i + 1 + n.len() <= s.len() {
        assert(s.subrange(i + 1, i + 1 + n.len()) =~= s.drop_first().subrange(i, i + n.len()));
    } else {
        assert(!match_at(s, n, i + 1));
        assert(!match_at(s.drop_first(), n, i));
    }
}

/// A position with no match before it, and a match at it when in range, is
/// exactly `first_sub`; with no match anywhere, `first_sub` is the length.
pub proof fn lemma_first_sub_at(s: Seq<char>, n: Seq<char>, k: int)
    requires
        n.len() >= 1,
        0 <= k <= s.len(),
        forall|i: int| 0 <= i < k ==> !match_at(s, n, i),
        k < s.len() ==> match_at(s, n, k),
        k == s.len() ==> forall|i: int| 0 <= i ==> !match_at(s, n, i),
    ensures
        first_sub(s, n) == k,
    decreases s.len(),
{
    if s.len() == 0 {
    } else if match_at(s, n, 0) {
        assert(k == 0);
    } else {
        assert(k >= 1);
        assert forall|i: int| 0 <= i < k - 1 implies !match_at(s.drop_first(), n, i) by {
            lemma_match_at_shift(s, n, i);
        }
        if k - 1 < s.drop_first().len() {
            lemma_match_at_shift(s, n, k - 1);
        } else {
            assert forall|i: int| 0 <= i implies !match_at(s.drop_first(), n, i) by {
                lemma_match_at_shift(s, n, i);
            }
        }
        lemma_first_sub_at(s.drop_first(), n, k - 1);
    }
}

/// `first_sub` lies between 0 and the length; a match there exists when it
/// is short of the length (for a non-empty `n`).
pub proof fn lemma_first_sub_bounds(s: Seq<char>, n: Seq<char>)
    requires
        n.len() >= 1,
    ensures
        0 <= first_sub(s, n) <= s.len(),
        first_sub(s, n) < s.len() ==> match_at(s, n, first_sub(s, n)),
        forall|i: int| 0 <= i < first_sub(s, n) ==> !match_at(s, n, i),
    decreases s.len(),
{
    if s.len() > 0 && !match_at(s, n, 0) {
        lemma_first_sub_bounds(s.drop_first(), n);
        if first_sub(s.drop_first(), n) < s.drop_first().len() {
            lemma_match_at_shift(s, n, first_sub(s.drop_first(), n));
        }
        assert forall|i: int| 0 <= i < first_sub(s, n) implies !match_at(s, n, i) by {
            if i > 0 {
                lemma_match_at_shift(s, n, i - 1);
            }
        }
    }
}

/// Find the first occurrence of `n` in `h`, as the position `first_sub`
/// names: the length of `h` when there is none.
pub fn find_first_sub(h: &Vec<char>, n: &Vec<char>) -> (r: usize)
    requires
        n@.len() >= 1,
    ensures
        r == first_sub(h@, n@),
        r <= h@.len(),
{
    match find_sub(h, n, 0) {
        Some(i) => {
            proof {
                lemma_first_sub_at(h@, n@, i as int);
            }
            i
        },
        None => {
            proof {
                lemma_first_sub_at(h@, n@, h@.len() as int);
            }
            h.len()
        },
    }
}

/// The last position of `s` where the characters `n` stand, or -1 when
/// they stand nowhere (for a non-empty `n`).
pub open spec fn last_sub(s: Seq<char>, n: Seq<char>) -> int
    decreases s.len(),
{
    if n.len() == 0 || n.len() > s.len() {
        -1
    } else if match_at(s, n, s.len() - n.len()) {
        s.len() - n.len()
    } else {
        last_sub(s.drop_last(), n)
    }
}

/// A match below the length is a match in `s.drop_last()`.
pub proof fn lemma_match_at_shrink(s: Seq<char>, n: Seq<char>, i: int)
    requires
        s.len() >= 1,
        0 <= i,
        i + n.len() <= s.len() - 1,
    ensures
        match_at(s, n, i) == match_at(s.drop_last(), n, i),
{
    assert(s.subrange(i, i + n.len()) =~= s.drop_last().subrange(i, i + n.len()));
}

/// A position with a match and no match above it is exactly `last_sub`.
pub proof fn lemma_last_sub_at(s: Seq<char>, n: Seq<char>, k: int)
    requires
        n.len() >= 1,
        match_at(s, n, k),
        forall|ii: int| ii > k ==> !match_at(s, n, ii),
    ensures
        last_sub(s, n) == k,
    decreases s.len(),
{
    if match_at(s, n, s.len() - n.len()) {
        assert(k == s.len() - n.len());
    } else {
        assert(k + n.len() <= s.len());
        assert(k != s.len() - n.len());
        lemma_match_at_shrink(s, n, k);
        assert forall|ii: int| ii > k implies !match_at(s.drop_last(), n, ii) by {
            if ii + n.len() <= s.len() - 1 {
                lemma_match_at_shrink(s, n, ii);
            }
        }
        lemma_last_sub_at(s.drop_last(), n, k);
    }
}

/// With no match anywhere, `last_sub` is -1.
pub proof fn lemma_last_sub_none(s: Seq<char>, n: Seq<char>)
    requires
        n.len() >= 1,
        forall|ii: int| 0 <= ii ==> !match_at(s, n, ii),
    ensures
        last_sub(s, n) == -1,
    decreases s.len(),
{
    if n.len() <= s.len() {
        assert(!match_at(s, n, s.len() - n.len()));
        assert forall|ii: int| 0 <= ii implies !match_at(s.drop_last(), n, ii) by {
            if ii + n.len() <= s.len() - 1 {
                lemma_match_at_shrink(s, n, ii);
            }
        }
        lemma_last_sub_none(s.drop_last(), n);
    }
}

/// `s` with its leading whitespace removed.
pub open spec fn spec_trim_start(s: Seq<char>) -> Seq<char> {
    s.skip(first_sat(s, |c: char| !spec_is_space(c)))
}

/// A copy of `v@.subrange(lo, hi)` with its leading whitespace removed.
pub fn trim_start_range(v: &Vec<char>, lo: usize, hi: usize) -> (r: Vec<char>)
    requires
        lo <= hi <= v@.len(),
    ensures
        r@ == spec_trim_start(v@.subrange(lo as int, hi as int)),
{
    let ghost s = v@.subrange(lo as int, hi as int);
    let mut a: usize = lo;
    while a < hi && is_space(v[a])
        invariant
            lo <= a <= hi <= v@.len(),
            s == v@.subrange(lo as int, hi as int),
            forall|i: int| 0 <= i < a - lo ==> spec_is_space(#[trigger] s[i]),
        decreases hi - a,
    {
        proof {
            assert(s[a - lo] == v@[a as int]);
        }
        a = a + 1;
    }
    proof {
        if a < hi {
            assert(s[a - lo] == v@[a as int]);
        }
        lemma_first_sat_at(s, |c: char| !spec_is_space(c), a - lo);
    }
    let r = subvec(v, a, hi);
    proof {
        assert(r@ =~= s.skip(a - lo));
    }
    r
}

/// `s` split at every occurrence of `pat`, first occurrence first: the
/// pieces between occurrences, in order. An absent pattern leaves one piece.
pub open spec fn split_sub(s: Seq<char>, pat: Seq<char>) -> Seq<Seq<char>>
    decreases s.len(),
{
    if pat.len() == 0 {
        seq![s]
    } else {
        let p = first_sub(s, pat);
        if !(0 <= p && p + pat.len() <= s.len()) {
            seq![s]
        } else {
            seq![s.take(p)] + split_sub(s.skip(p + pat.len()), pat)
        }
    }
}

/// Split `h` at every occurrence of `pat`.
pub fn split_on(h: &Vec<char>, pat: &Vec<char>) -> (r: Vec<Vec<char>>)
    requires
        pat@.len() >= 1,
    ensures
        r@.map_values(|p: Vec<char>| p@) == split_sub(h@, pat@),
{
    let mut pieces: Vec<Vec<char>> = Vec::new();
    let mut rest = subvec(h, 0, h.len());
    proof {
        assert(rest@ =~= h@);
    }
    loop
        invariant
            pat@.len() >= 1,
            split_sub(h@, pat@) == pieces@.map_values(|p: Vec<char>| p@) + split_sub(
                rest@,
                pat@,
            ),
        decreases rest@.len(),
    {
        let p = find_first_sub(&rest, pat);
        if p == rest.len() {
            proof {
                lemma_first_sub_bounds(rest@, pat@);
            }
            pieces.push(rest);
            proof {
                assert(pieces@.map_values(|q: Vec<char>| q@) =~= split_sub(h@, pat@));
            }
            return pieces;
        }
        proof {
            lemma_first_sub_bounds(rest@, pat@);
        }
        let piece = subvec(&rest, 0, p);
        proof {
            assert(piece@ =~= rest@.take(p as int));
        }
        let next = subvec(&rest, p + pat.len(), rest.len());
        proof {
            assert(next@ =~= rest@.skip(p + pat@.len()));
        }
        let ghost pre = pieces@.map_values(|q: Vec<char>| q@);
        pieces.push(piece);
        proof {
            assert(pieces@.map_values(|q: Vec<char>| q@) =~= pre + seq![rest@.take(p as int)]);
            assert(pre + (seq![rest@.take(p as int)] + split_sub(next@, pat@)) =~= (pre + seq![
                rest@.take(p as int),
            ]) + split_sub(next@, pat@));
        }
        rest = next;
    }
}

/// Whether the bytes `n` stand in `h` at position `i`.
pub open spec fn bytes_match_at(h: Seq<u8>, n: Seq<u8>, i: int) -> bool {
    0 <= i && i + n.len() <= h.len() && h.subrange(i, i + n.len()) == n
}

/// Whether `needle` occurs as a contiguous run of bytes inside `haystack`;
/// an empty needle always matches.
pub fn bytes_contains(haystack: &[u8], needle: &[u8]) -> (r: bool)
    ensures
        r == exists|i: int| bytes_match_at(haystack@, needle@, i),
{
    let hl: usize = haystack.len();
    let nl: usize = needle.len();
    if nl > hl {
        proof {
            assert(forall|i: int| !bytes_match_at(haystack@, needle@, i));
        }
        return false;
    }
    if nl == 0 {
        proof {
            assert(haystack@.subrange(0, 0) =~= needle@);
            assert(bytes_match_at(haystack@, needle@, 0));
        }
        return true;
    }
    let mut i: usize = 0;
    while i <= hl - nl
        invariant
            hl == haystack@.len(),
            nl == needle@.len(),
            1 <= nl <= hl,
            0 <= i <= hl - nl + 1,
            forall|ii: int| 0 <= ii < i ==> !bytes_match_at(haystack@, needle@, ii),
        decreases hl - nl + 1 - i,
    {
        let mut j: usize = 0;
        let mut hit: bool = true;
        while j < nl && hit
            invariant
                hl == haystack@.len(),
                nl == needle@.len(),
                0 <= i <= hl - nl,
                0 <= j <= nl,
                hit ==> forall|k: int| 0 <= k < j ==> haystack@[i + k] == needle@[k],
                !hit ==> !bytes_match_at(haystack@, needle@, i as int),
            decreases nl - j + (if hit { 1int } else { 0int }),
        {
            if haystack[i + j] != needle[j] {
                proof {
                    assert(haystack@.subrange(i as int, i + needle@.len())[j as int] == haystack@[i
                        + j]);
                }
                hit = false;
            } else {
                j = j + 1;
            }
        }
        if hit {
            proof {
                assert(haystack@.subrange(i as int, i + needle@.len()) =~= needle@);
                assert(bytes_match_at(haystack@, needle@, i as int));
            }
            return true;
        }
        i = i + 1;
    }
    false
}

} // verus!
