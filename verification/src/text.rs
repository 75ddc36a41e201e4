//! Character-sequence utilities for the assemblers: conversion between `str`/`String` and
//! `Vec<char>`, whitespace handling, splitting, searching and number parsing, each stated
//! over `Seq<char>`.

use vstd::prelude::*;

verus! {

/// The characters of a string slice.
pub fn chars_of(s: &str) -> (r: Vec<char>)
    ensures
        r@ == s@,
{
    let mut v: Vec<char> = Vec::new();
    for c in it: s.chars()
        invariant
            v@ == it.seq().take(it.index() as int),
    {
        v.push(c);
    }
    v
}

/// Appends one character to a `String` (`String::push`).
#[verifier::external_body]
fn push_char(s: &mut String, c: char)
    ensures
        final(s)@ == old(s)@.push(c),
{
    s.push(c);
}

/// The string made of the given characters.
pub fn string_of(v: &[char]) -> (r: String)
    ensures
        r@ == v@,
{
    let mut s = String::new();
    let mut i: usize = 0;
    while i < v.len()
        invariant
            i <= v@.len(),
            s@ == v@.take(i as int),
        decreases v@.len() - i,
    {
        push_char(&mut s, v[i]);
        i += 1;
        assert(s@ =~= v@.take(i as int));
    }
    assert(v@.take(v@.len() as int) =~= v@);
    s
}

/// Whether a character sequence equals a string slice.
pub fn eq_str(v: &[char], lit: &str) -> (r: bool)
    ensures
        r == (v@ == lit@),
{
    let w = chars_of(lit);
    if v.len() != w.len() {
        return false;
    }
    let mut i: usize = 0;
    while i < v.len()
        invariant
            v@.len() == w@.len(),
            w@ == lit@,
            i <= v@.len(),
            forall|j: int| 0 <= j < i ==> v@[j] == w@[j],
        decreases v@.len() - i,
    {
        if v[i] != w[i] {
            assert(v@[i as int] != w@[i as int]);
            return false;
        }
        i += 1;
    }
    assert(v@ =~= w@);
    true
}

} // verus!

verus! {

/// Unicode `White_Space`, the characters `str::trim` and `str::split_whitespace` treat as
/// whitespace.
pub open spec fn is_ws(c: char) -> bool {
    let u = c as u32;
    ||| 0x09 <= u <= 0x0D
    ||| u == 0x20
    ||| u == 0x85
    ||| u == 0xA0
    ||| u == 0x1680
    ||| 0x2000 <= u <= 0x200A
    ||| u == 0x2028
    ||| u == 0x2029
    ||| u == 0x202F
    ||| u == 0x205F
    ||| u == 0x3000
}

/// Whether a character is Unicode whitespace.
pub fn is_whitespace(c: char) -> (r: bool)
    ensures
        r == is_ws(c),
{
    let u = c as u32;
    (0x09 <= u && u <= 0x0D) || u == 0x20 || u == 0x85 || u == 0xA0 || u == 0x1680 || (0x2000
        <= u && u <= 0x200A) || u == 0x2028 || u == 0x2029 || u == 0x202F || u == 0x205F || u
        == 0x3000
}

/// The first index at or after `i` whose character does not satisfy `p` (the length if none).
pub open spec fn skip_from(s: Seq<char>, p: spec_fn(char) -> bool, i: int) -> int
    decreases s.len() - i,
{
    if i < 0 || i >= s.len() {
        s.len() as int
    } else if p(s[i]) {
        skip_from(s, p, i + 1)
    } else {
        i
    }
}

/// The end of the prefix of `s.take(j)` that remains once trailing characters satisfying `p`
/// are removed.
pub open spec fn rskip_to(s: Seq<char>, p: spec_fn(char) -> bool, j: int) -> int
    decreases j,
{
    if j <= 0 || j > s.len() {
        0
    } else if p(s[j - 1]) {
        rskip_to(s, p, j - 1)
    } else {
        j
    }
}

/// `s` with leading and trailing characters satisfying `p` removed.
pub open spec fn trim_by(s: Seq<char>, p: spec_fn(char) -> bool) -> Seq<char> {
    let a = skip_from(s, p, 0);
    let b = rskip_to(s, p, s.len() as int);
    if a < b {
        s.subrange(a, b)
    } else {
        Seq::empty()
    }
}

/// Whitespace predicate as a value.
pub open spec fn ws() -> spec_fn(char) -> bool {
    |c: char| is_ws(c)
}

/// Non-whitespace predicate as a value.
pub open spec fn non_ws() -> spec_fn(char) -> bool {
    |c: char| !is_ws(c)
}

/// The predicate of being one given character.
pub open spec fn is_char(x: char) -> spec_fn(char) -> bool {
    |c: char| c == x
}

/// The predicate of not being one given character.
pub open spec fn not_char(x: char) -> spec_fn(char) -> bool {
    |c: char| c != x
}

/// `str::trim`: leading and trailing whitespace removed.
#[verifier::opaque]
pub open spec fn trim(s: Seq<char>) -> Seq<char> {
    trim_by(s, ws())
}

/// `str::trim_matches(c)`: all leading and trailing copies of `c` removed.
pub open spec fn trim_char(s: Seq<char>, c: char) -> Seq<char> {
    trim_by(s, is_char(c))
}

/// Index of the first `c` at or after `i`, if any.
pub open spec fn find_from(s: Seq<char>, c: char, i: int) -> Option<int> {
    let k = skip_from(s, not_char(c), i);
    if k < s.len() {
        Some(k)
    } else {
        None
    }
}

/// Index of the first `c`, if any (`str::find`).
pub open spec fn find(s: Seq<char>, c: char) -> Option<int> {
    find_from(s, c, 0)
}

/// Index of the last `c`, if any (`str::rfind`).
pub open spec fn rfind(s: Seq<char>, c: char) -> Option<int> {
    let j = rskip_to(s, not_char(c), s.len() as int);
    if j > 0 {
        Some(j - 1)
    } else {
        None
    }
}

/// `str::starts_with`.
pub open spec fn starts_with(s: Seq<char>, prefix: Seq<char>) -> bool {
    s.len() >= prefix.len() && s.subrange(0, prefix.len() as int) == prefix
}

/// The pieces of `s.skip(start)` separated by `c` (`str::split`).
pub open spec fn split_from(s: Seq<char>, c: char, start: int) -> Seq<Seq<char>>
    decreases s.len() - start,
{
    if start < 0 || start > s.len() {
        Seq::empty()
    } else {
        let k = skip_from(s, not_char(c), start);
        proof {
            lemma_skip_from_bounds(s, not_char(c), start);
        }
        if k >= s.len() {
            seq![s.subrange(start, s.len() as int)]
        } else {
            seq![s.subrange(start, k)] + split_from(s, c, k + 1)
        }
    }
}

/// `str::split(c)`.
pub open spec fn split(s: Seq<char>, c: char) -> Seq<Seq<char>> {
    split_from(s, c, 0)
}

/// The whitespace-separated words of `s.skip(start)` (`str::split_whitespace`).
pub open spec fn words_from(s: Seq<char>, start: int) -> Seq<Seq<char>>
    decreases s.len() - start,
{
    if start < 0 || start >= s.len() {
        Seq::empty()
    } else {
        let a = skip_from(s, ws(), start);
        let b = skip_from(s, non_ws(), a);
        proof {
            lemma_skip_from_bounds(s, ws(), start);
            lemma_skip_from_bounds(s, non_ws(), a);
        }
        if a >= s.len() {
            Seq::empty()
        } else {
            seq![s.subrange(a, b)] + words_from(s, b)
        }
    }
}

/// `str::split_whitespace`.
pub open spec fn words(s: Seq<char>) -> Seq<Seq<char>> {
    words_from(s, 0)
}

/// The pieces joined with a separator between each two (`[..].join(sep)`).
pub open spec fn join(parts: Seq<Seq<char>>, sep: Seq<char>) -> Seq<char>
    decreases parts.len(),
{
    if parts.len() == 0 {
        Seq::empty()
    } else if parts.len() == 1 {
        parts[0]
    } else {
        join(parts.drop_last(), sep) + sep + parts.last()
    }
}

/// Bounds of `skip_from`: it never moves backwards and stops at the first character that fails `p`.
pub proof fn lemma_skip_from_bounds(s: Seq<char>, p: spec_fn(char) -> bool, i: int)
    ensures
        0 <= i <= s.len() ==> i <= skip_from(s, p, i) <= s.len(),
        skip_from(s, p, i) < s.len() ==> !p(s[skip_from(s, p, i)]),
        0 <= i <= s.len() ==> forall|j: int| i <= j < skip_from(s, p, i) ==> #[trigger] p(s[j]),
        0 <= i < s.len() && !p(s[i]) ==> skip_from(s, p, i) == i,
    decreases s.len() - i,
{
    if 0 <= i < s.len() && p(s[i]) {
        lemma_skip_from_bounds(s, p, i + 1);
    }
}

/// Bounds of `rskip_to`.
pub proof fn lemma_rskip_to_bounds(s: Seq<char>, p: spec_fn(char) -> bool, j: int)
    ensures
        0 <= j <= s.len() ==> 0 <= rskip_to(s, p, j) <= j,
        rskip_to(s, p, j) > 0 ==> !p(s[rskip_to(s, p, j) - 1]),
        0 <= j <= s.len() ==> forall|k: int| rskip_to(s, p, j) <= k < j ==> #[trigger] p(s[k]),
    decreases j,
{
    if 0 < j <= s.len() && p(s[j - 1]) {
        lemma_rskip_to_bounds(s, p, j - 1);
    }
}

/// Joining puts the separator between the first part and the join of the rest.
proof fn lemma_join_cons(x: Seq<char>, rest: Seq<Seq<char>>, sep: Seq<char>)
    requires
        rest.len() > 0,
    ensures
        join(seq![x] + rest, sep) == x + sep + join(rest, sep),
    decreases rest.len(),
{
    let all = seq![x] + rest;
    assert(all.len() >= 2);
    assert(join(all, sep) == join(all.drop_last(), sep) + sep + all.last());
    if rest.len() == 1 {
        assert(all.drop_last() =~= seq![x]);
        assert(join(seq![x], sep) == x);
        assert(all.last() == rest[0]);
        assert(join(rest, sep) == rest[0]);
    } else {
        lemma_join_cons(x, rest.drop_last(), sep);
        assert(all.drop_last() =~= seq![x] + rest.drop_last());
        assert(all.last() == rest.last());
        assert(join(rest, sep) == join(rest.drop_last(), sep) + sep + rest.last());
        assert(x + sep + join(rest.drop_last(), sep) + sep + rest.last() =~= x + sep + (join(
            rest.drop_last(),
            sep,
        ) + sep + rest.last()));
    }
}

/// The parts of `s.skip(start)` split at `c` hold no `c`, and joined with `c` give the text
/// back.
proof fn lemma_split_from_join(s: Seq<char>, c: char, start: int)
    requires
        0 <= start <= s.len(),
    ensures
        split_from(s, c, start).len() > 0,
        join(split_from(s, c, start), seq![c]) == s.skip(start),
        forall|i: int, j: int|
            0 <= i < split_from(s, c, start).len() && 0 <= j < split_from(s, c, start)[i].len() ==> #[trigger] split_from(s, c, start)[i][j] != c,
    decreases s.len() - start,
{
    let k = skip_from(s, not_char(c), start);
    lemma_skip_from_bounds(s, not_char(c), start);
    assert forall|j: int| start <= j < k implies s[j] != c by {
        assert(not_char(c)(s[j]));
    }
    if k >= s.len() {
        assert(s.subrange(start, s.len() as int) =~= s.skip(start));
    } else {
        assert(!not_char(c)(s[k]));
        assert(s[k] == c);
        lemma_split_from_join(s, c, k + 1);
        let rest = split_from(s, c, k + 1);
        lemma_join_cons(s.subrange(start, k), rest, seq![c]);
        assert(s.subrange(start, k) + seq![c] + s.skip(k + 1) =~= s.skip(start));
        let parts = split_from(s, c, start);
        assert(parts == seq![s.subrange(start, k)] + rest);
        assert forall|i: int, j: int| 0 <= i < parts.len() && 0 <= j < parts[i].len() implies #[trigger] parts[i][j] != c by {
            if i == 0 {
                assert(parts[0][j] == s[start + j]);
            } else {
                assert(parts[i] == rest[i - 1]);
            }
        }
    }
}

/// `split` at `c` cuts a text into parts that hold no `c` and that, joined with `c`, give
/// the text back.
pub proof fn lemma_split_join(s: Seq<char>, c: char)
    ensures
        split(s, c).len() > 0,
        join(split(s, c), seq![c]) == s,
        forall|i: int, j: int| 0 <= i < split(s, c).len() && 0 <= j < split(s, c)[i].len() ==> #[trigger] split(s, c)[i][j] != c,
{
    lemma_split_from_join(s, c, 0);
    assert(s.skip(0) =~= s);
}

/// `trim` removes exactly the leading and trailing whitespace: what it keeps is a contiguous
/// part of the text, everything before and after that part is whitespace, and the part is
/// either empty (all whitespace) or starts and ends with a non-whitespace character.
pub proof fn lemma_trim_shape(s: Seq<char>)
    ensures
        exists|i: int, j: int|
            #![trigger s.subrange(i, j)]
            0 <= i <= j <= s.len() && trim(s) == s.subrange(i, j) && (forall|k: int|
                0 <= k < i ==> is_ws(#[trigger] s[k])) && (forall|k: int| j <= k < s.len() ==> is_ws(
                #[trigger] s[k])),
        trim(s).len() > 0 ==> !is_ws(trim(s)[0]) && !is_ws(trim(s).last()),
        trim(s).len() == 0 ==> forall|k: int| 0 <= k < s.len() ==> is_ws(#[trigger] s[k]),
{
    reveal(trim);
    let p = ws();
    let a = skip_from(s, p, 0);
    let b = rskip_to(s, p, s.len() as int);
    lemma_skip_from_bounds(s, p, 0);
    lemma_rskip_to_bounds(s, p, s.len() as int);
    assert forall|k: int| 0 <= k < a implies is_ws(#[trigger] s[k]) by {
        assert(p(s[k]));
    }
    assert forall|k: int| b <= k < s.len() implies is_ws(#[trigger] s[k]) by {
        assert(p(s[k]));
    }
    if a < b {
        assert(trim(s) == s.subrange(a, b));
        assert(trim(s)[0] == s[a]);
        assert(trim(s).last() == s[b - 1]);
        assert(0 <= a <= b <= s.len() && trim(s) == s.subrange(a, b));
    } else {
        assert(trim(s) == s.subrange(a, a)) by {
            assert(s.subrange(a, a) =~= Seq::<char>::empty());
        }
        assert forall|k: int| 0 <= k < s.len() implies is_ws(#[trigger] s[k]) by {
            if k < a {
                assert(p(s[k]));
            } else {
                assert(p(s[k]));
            }
        }
        assert(forall|k: int| a <= k < s.len() ==> is_ws(#[trigger] s[k]));
    }
}

/// A text without whitespace is its own trim.
pub proof fn lemma_trim_no_ws(s: Seq<char>)
    requires
        forall|k: int| 0 <= k < s.len() ==> !is_ws(#[trigger] s[k]),
    ensures
        trim(s) == s,
{
    lemma_trim_shape(s);
    let (i, j) = choose|i: int, j: int|
        #![trigger s.subrange(i, j)]
        0 <= i <= j <= s.len() && trim(s) == s.subrange(i, j) && (forall|k: int|
            0 <= k < i ==> is_ws(#[trigger] s[k])) && (forall|k: int| j <= k < s.len() ==> is_ws(
            #[trigger] s[k]));
    if i > 0 {
        assert(is_ws(s[0]));
    }
    if j < s.len() {
        assert(is_ws(s[s.len() - 1]));
    }
    assert(s.subrange(0, s.len() as int) =~= s);
}

/// The first index at or after `i` where the character is (`want_ws`) or is not whitespace.
fn scan_ws(v: &[char], i: usize, want_ws: bool) -> (r: usize)
    requires
        i <= v@.len(),
    ensures
        r == skip_from(v@, if want_ws { non_ws() } else { ws() }, i as int),
{
    let ghost p = if want_ws { non_ws() } else { ws() };
    let mut k = i;
    while k < v.len()
        invariant
            i <= k <= v@.len(),
            skip_from(v@, p, i as int) == skip_from(v@, p, k as int),
            p == (if want_ws { non_ws() } else { ws() }),
        decreases v@.len() - k,
    {
        if is_whitespace(v[k]) == want_ws {
            return k;
        }
        k += 1;
    }
    k
}

/// The first index at or after `i` holding `c`, or the length.
fn scan_char(v: &[char], c: char, i: usize) -> (r: usize)
    requires
        i <= v@.len(),
    ensures
        r == skip_from(v@, not_char(c), i as int),
{
    let mut k = i;
    while k < v.len()
        invariant
            i <= k <= v@.len(),
            skip_from(v@, not_char(c), i as int) == skip_from(v@, not_char(c), k as int),
        decreases v@.len() - k,
    {
        if v[k] == c {
            return k;
        }
        k += 1;
    }
    k
}

/// The characters `v[a..b]`.
pub fn subrange(v: &[char], a: usize, b: usize) -> (r: Vec<char>)
    requires
        a <= b <= v@.len(),
    ensures
        r@ == v@.subrange(a as int, b as int),
{
    let mut out: Vec<char> = Vec::new();
    let mut i = a;
    while i < b
        invariant
            a <= i <= b <= v@.len(),
            out@ == v@.subrange(a as int, i as int),
        decreases b - i,
    {
        out.push(v[i]);
        i += 1;
        assert(out@ =~= v@.subrange(a as int, i as int));
    }
    out
}

/// `str::trim`.
pub fn trim_chars(v: &[char]) -> (r: Vec<char>)
    ensures
        r@ == trim(v@),
{
    reveal(trim);
    let a = scan_ws(v, 0, false);
    let mut b = v.len();
    while b > 0 && is_whitespace(v[b - 1])
        invariant
            b <= v@.len(),
            rskip_to(v@, ws(), v@.len() as int) == rskip_to(v@, ws(), b as int),
        decreases b,
    {
        b -= 1;
    }
    proof {
        lemma_skip_from_bounds(v@, ws(), 0);
    }
    if a < b {
        subrange(v, a, b)
    } else {
        Vec::new()
    }
}

/// `str::trim_matches(c)`.
pub fn trim_char_chars(v: &[char], c: char) -> (r: Vec<char>)
    ensures
        r@ == trim_char(v@, c),
{
    let mut a: usize = 0;
    while a < v.len() && v[a] == c
        invariant
            a <= v@.len(),
            skip_from(v@, is_char(c), 0) == skip_from(v@, is_char(c), a as int),
        decreases v@.len() - a,
    {
        a += 1;
    }
    let mut b = v.len();
    while b > 0 && v[b - 1] == c
        invariant
            b <= v@.len(),
            rskip_to(v@, is_char(c), v@.len() as int) == rskip_to(v@, is_char(c), b as int),
        decreases b,
    {
        b -= 1;
    }
    if a < b {
        subrange(v, a, b)
    } else {
        Vec::new()
    }
}

/// `str::find(c)`.
pub fn find_char(v: &[char], c: char) -> (r: Option<usize>)
    ensures
        r matches Some(k) ==> find(v@, c) == Some(k as int) && k < v@.len() && v@[k as int] == c,
        r is None ==> find(v@, c) is None,
{
    let k = scan_char(v, c, 0);
    proof {
        lemma_skip_from_bounds(v@, not_char(c), 0);
    }
    if k < v.len() {
        Some(k)
    } else {
        None
    }
}

/// `str::rfind(c)`.
pub fn rfind_char(v: &[char], c: char) -> (r: Option<usize>)
    ensures
        r matches Some(k) ==> rfind(v@, c) == Some(k as int) && k < v@.len() && v@[k as int] == c,
        r is None ==> rfind(v@, c) is None,
{
    let mut b = v.len();
    while b > 0
        invariant
            b <= v@.len(),
            rskip_to(v@, not_char(c), v@.len() as int) == rskip_to(v@, not_char(c), b as int),
        decreases b,
    {
        if v[b - 1] == c {
            return Some(b - 1);
        }
        b -= 1;
    }
    None
}

/// `str::starts_with(prefix)`.
pub fn starts_with_str(v: &[char], prefix: &str) -> (r: bool)
    ensures
        r == starts_with(v@, prefix@),
{
    let p = chars_of(prefix);
    if v.len() < p.len() {
        return false;
    }
    let head = subrange(v, 0, p.len());
    eq_str(&head, prefix)
}

/// The views of a sequence of character vectors.
pub open spec fn views(v: Seq<Vec<char>>) -> Seq<Seq<char>> {
    Seq::new(v.len(), |i: int| v[i]@)
}

/// `str::split(c)`, each piece as a character vector.
pub fn split_chars(v: &[char], c: char) -> (r: Vec<Vec<char>>)
    ensures
        views(r@) == split(v@, c),
{
    let mut out: Vec<Vec<char>> = Vec::new();
    let mut start: usize = 0;
    loop
        invariant
            start <= v@.len(),
            split(v@, c) == views(out@) + split_from(v@, c, start as int),
        decreases v@.len() - start,
    {
        let k = scan_char(v, c, start);
        proof {
            lemma_skip_from_bounds(v@, not_char(c), start as int);
        }
        let piece = subrange(v, start, k);
        out.push(piece);
        if k >= v.len() {
            assert(views(out@) =~= split(v@, c));
            return out;
        }
        assert(views(out@) + split_from(v@, c, k + 1) =~= split(v@, c));
        start = k + 1;
    }
}

/// `str::split_whitespace`, each word as a character vector.
pub fn words_chars(v: &[char]) -> (r: Vec<Vec<char>>)
    ensures
        views(r@) == words(v@),
{
    let mut out: Vec<Vec<char>> = Vec::new();
    let mut start: usize = 0;
    loop
        invariant
            start <= v@.len(),
            words(v@) == views(out@) + words_from(v@, start as int),
        decreases v@.len() - start,
    {
        if start >= v.len() {
            assert(views(out@) =~= words(v@));
            return out;
        }
        let a = scan_ws(v, start, false);
        proof {
            lemma_skip_from_bounds(v@, ws(), start as int);
        }
        if a >= v.len() {
            assert(views(out@) =~= words(v@));
            return out;
        }
        let b = scan_ws(v, a, true);
        proof {
            lemma_skip_from_bounds(v@, non_ws(), a as int);
        }
        let word = subrange(v, a, b);
        out.push(word);
        assert(views(out@) + words_from(v@, b as int) =~= words(v@));
        start = b;
    }
}

/// `parts[start..].join(sep)`.
pub fn join_chars(parts: &[Vec<char>], start: usize, sep: char) -> (r: Vec<char>)
    requires
        start <= parts@.len(),
    ensures
        r@ == join(views(parts@).skip(start as int), seq![sep]),
{
    let ghost ps = views(parts@).skip(start as int);
    let mut out: Vec<char> = Vec::new();
    let mut i: usize = start;
    while i < parts.len()
        invariant
            start <= i <= parts@.len(),
            ps == views(parts@).skip(start as int),
            out@ == join(ps.take(i - start), seq![sep]),
        decreases parts@.len() - i,
    {
        if i > start {
            out.push(sep);
        }
        let mut j: usize = 0;
        let ghost before = out@;
        while j < parts[i].len()
            invariant
                start <= i < parts@.len(),
                j <= parts@[i as int]@.len(),
                out@ == before + parts@[i as int]@.take(j as int),
            decreases parts@[i as int]@.len() - j,
        {
            out.push(parts[i][j]);
            j += 1;
            assert(out@ =~= before + parts@[i as int]@.take(j as int));
        }
        assert(parts@[i as int]@.take(j as int) =~= parts@[i as int]@);
        let ghost taken = ps.take(i - start + 1);
        assert(taken.drop_last() =~= ps.take(i - start));
        assert(taken.last() == parts@[i as int]@);
        i += 1;
    }
    assert(ps.take(parts@.len() - start) =~= ps);
    out
}

/// Whether two character sequences are equal.
pub fn chars_eq(a: &[char], b: &[char]) -> (r: bool)
    ensures
        r == (a@ == b@),
{
    if a.len() != b.len() {
        return false;
    }
    let mut i: usize = 0;
    while i < a.len()
        invariant
            a@.len() == b@.len(),
            i <= a@.len(),
            forall|j: int| 0 <= j < i ==> a@[j] == b@[j],
        decreases a@.len() - i,
    {
        if a[i] != b[i] {
            assert(a@[i as int] != b@[i as int]);
            return false;
        }
        i += 1;
    }
    assert(a@ =~= b@);
    true
}

/// A copy of a character sequence.
pub fn copy_chars(v: &[char]) -> (r: Vec<char>)
    ensures
        r@ == v@,
{
    let r = subrange(v, 0, v.len());
    assert(v@.subrange(0, v@.len() as int) =~= v@);
    r
}

} // verus!

verus! {

/// The lowercase form of a string, as `str::to_lowercase` computes it from the Unicode tables.
pub uninterp spec fn lowercase(s: Seq<char>) -> Seq<char>;

/// Every character is ASCII.
pub open spec fn ascii_text(s: Seq<char>) -> bool {
    forall|i: int| 0 <= i < s.len() ==> (#[trigger] s[i] as u32) < 128
}

/// A character with `A`..`Z` mapped to `a`..`z`.
pub open spec fn ascii_lower_char(c: char) -> char {
    if 'A' <= c <= 'Z' {
        ((c as u32) + 32) as char
    } else {
        c
    }
}

/// A text with `A`..`Z` mapped to `a`..`z` and every other character kept.
pub open spec fn ascii_lower(s: Seq<char>) -> Seq<char> {
    s.map_values(|c: char| ascii_lower_char(c))
}

/// The lowercase form of a text: on ASCII text `A`..`Z` become `a`..`z`, other text is
/// lowercased by the Unicode tables.
pub open spec fn fold_case(s: Seq<char>) -> Seq<char> {
    if ascii_text(s) {
        ascii_lower(s)
    } else {
        lowercase(s)
    }
}

/// `str::to_lowercase`: the Unicode lowercase mapping of a string slice. The contract names
/// the result (`lowercase`), since the mapping is defined by the Unicode tables, and states
/// it on ASCII text, where Unicode lowercasing maps `A`..`Z` to `a`..`z` and keeps every
/// other character (as `to_ascii_lowercase` does).
#[verifier::external_body]
fn to_lowercase(s: &str) -> (r: String)
    ensures
        r@ == lowercase(s@),
        ascii_text(s@) ==> r@ == ascii_lower(s@),
{
    s.to_lowercase()
}

/// The lowercase form of a character sequence.
pub fn lowercase_chars(v: &[char]) -> (r: Vec<char>)
    ensures
        r@ == fold_case(v@),
{
    let s = string_of(v);
    let l = to_lowercase(s.as_str());
    chars_of(l.as_str())
}

/// The decimal digit character for `d < 10`.
pub open spec fn digit_char(d: nat) -> char {
    if d == 0 { '0' }
    else if d == 1 { '1' }
    else if d == 2 { '2' }
    else if d == 3 { '3' }
    else if d == 4 { '4' }
    else if d == 5 { '5' }
    else if d == 6 { '6' }
    else if d == 7 { '7' }
    else if d == 8 { '8' }
    else { '9' }
}

/// The decimal representation of a natural number, as `{}` formats it.
pub open spec fn decimal(n: nat) -> Seq<char>
    decreases n,
{
    if n < 10 {
        seq![digit_char(n)]
    } else {
        decimal(n / 10).push(digit_char(n % 10))
    }
}

/// A decimal digit character reads back as its digit.
proof fn lemma_digit_char_value(d: nat)
    requires
        d < 10,
    ensures
        digit_value(digit_char(d), 10) == Some(d),
{
}

/// The decimal representation of a number reads back, digit by digit, as that number.
pub proof fn lemma_decimal_value(n: nat)
    ensures
        digits_value(decimal(n), 10) == Some(n),
        decimal(n).len() > 0,
    decreases n,
{
    if n < 10 {
        lemma_digit_char_value(n);
        assert(seq![digit_char(n)].drop_last() =~= Seq::<char>::empty());
        reveal_with_fuel(digits_value, 2);
    } else {
        lemma_decimal_value(n / 10);
        lemma_digit_char_value(n % 10);
        let s = decimal(n / 10).push(digit_char(n % 10));
        assert(s.drop_last() =~= decimal(n / 10));
        assert((n / 10) * 10 + n % 10 == n);
    }
}

/// The decimal representation consists of the digits `0` to `9`.
pub proof fn lemma_decimal_digits(n: nat)
    ensures
        forall|k: int| 0 <= k < decimal(n).len() ==> 0x30 <= (#[trigger] decimal(n)[k]) as u32 <= 0x39,
    decreases n,
{
    if n >= 10 {
        lemma_decimal_digits(n / 10);
        let s = decimal(n);
        assert forall|k: int| 0 <= k < s.len() implies 0x30 <= (#[trigger] s[k]) as u32 <= 0x39 by {
            if k < s.len() - 1 {
                assert(s[k] == decimal(n / 10)[k]);
            }
        }
    }
}

/// Appends the decimal representation of `n`.
pub fn push_decimal(out: &mut Vec<char>, n: u128)
    ensures
        final(out)@ == old(out)@ + decimal(n as nat),
    decreases n,
{
    if n >= 10 {
        push_decimal(out, n / 10);
    }
    let d = n % 10;
    let c = if d == 0 { '0' }
        else if d == 1 { '1' }
        else if d == 2 { '2' }
        else if d == 3 { '3' }
        else if d == 4 { '4' }
        else if d == 5 { '5' }
        else if d == 6 { '6' }
        else if d == 7 { '7' }
        else if d == 8 { '8' }
        else { '9' };
    out.push(c);
    proof {
        if n >= 10 {
            assert(decimal(n as nat) == decimal((n / 10) as nat).push(digit_char((n % 10) as nat)));
        }
    }
    assert(final(out)@ =~= old(out)@ + decimal(n as nat)) by {
        if n >= 10 {
        } else {
            assert(n % 10 == n);
        }
    }
}

/// Appends the characters of a string slice.
pub fn push_str(out: &mut Vec<char>, s: &str)
    ensures
        final(out)@ == old(out)@ + s@,
{
    let w = chars_of(s);
    let mut i: usize = 0;
    let ghost start = out@;
    while i < w.len()
        invariant
            i <= w@.len(),
            w@ == s@,
            out@ == start + w@.take(i as int),
            start == old(out)@,
        decreases w@.len() - i,
    {
        out.push(w[i]);
        i += 1;
        assert(out@ =~= start + w@.take(i as int));
    }
    assert(w@.take(w@.len() as int) =~= w@);
}

/// Appends a character sequence.
pub fn push_chars(out: &mut Vec<char>, s: &[char])
    ensures
        final(out)@ == old(out)@ + s@,
{
    let mut i: usize = 0;
    let ghost start = out@;
    while i < s.len()
        invariant
            i <= s@.len(),
            out@ == start + s@.take(i as int),
            start == old(out)@,
        decreases s@.len() - i,
    {
        out.push(s[i]);
        i += 1;
        assert(out@ =~= start + s@.take(i as int));
    }
    assert(s@.take(s@.len() as int) =~= s@);
}

/// The value of a digit character in base 10 or 16 (`char::to_digit`).
pub open spec fn digit_value(c: char, radix: nat) -> Option<nat> {
    let u = c as u32;
    if 0x30 <= u <= 0x39 {
        Some((u - 0x30) as nat)
    } else if radix == 16 && 0x61 <= u <= 0x66 {
        Some((u - 0x61 + 10) as nat)
    } else if radix == 16 && 0x41 <= u <= 0x46 {
        Some((u - 0x41 + 10) as nat)
    } else {
        None
    }
}

/// The number a digit string denotes, if every character is a digit.
pub open spec fn digits_value(d: Seq<char>, radix: nat) -> Option<nat>
    decreases d.len(),
{
    if d.len() == 0 {
        Some(0)
    } else {
        match (digits_value(d.drop_last(), radix), digit_value(d.last(), radix)) {
            (Some(v), Some(x)) => Some(v * radix + x),
            _ => None,
        }
    }
}

/// `u32::from_str_radix(s, radix)` (and `str::parse::<u32>` for radix 10): an optional `+`,
/// then at least one digit, and a value that fits.
pub open spec fn parse_u32_radix(s: Seq<char>, radix: nat) -> Option<u32> {
    if s.len() == 0 || ((s[0] == '+' || s[0] == '-') && s.len() == 1) {
        None
    } else {
        let d = if s[0] == '+' { s.drop_first() } else { s };
        match digits_value(d, radix) {
            Some(v) => if v <= u32::MAX { Some(v as u32) } else { None },
            None => None,
        }
    }
}

/// `str::parse::<i32>`: an optional sign, then at least one decimal digit, and a value in range.
pub open spec fn parse_i32(s: Seq<char>) -> Option<i32> {
    if s.len() == 0 || ((s[0] == '+' || s[0] == '-') && s.len() == 1) {
        None
    } else {
        let neg = s[0] == '-';
        let d = if s[0] == '+' || s[0] == '-' { s.drop_first() } else { s };
        match digits_value(d, 10) {
            Some(v) => if neg {
                if v <= 0x8000_0000 { Some((0 - v) as i32) } else { None }
            } else {
                if v <= 0x7FFF_FFFF { Some(v as i32) } else { None }
            },
            None => None,
        }
    }
}

/// A digit string's value only grows when digits are appended.
pub proof fn lemma_digits_value_grows(d: Seq<char>, radix: nat, n: int)
    requires
        radix >= 1,
        0 <= n <= d.len(),
        digits_value(d, radix) is Some,
    ensures
        digits_value(d.take(n), radix) is Some,
        digits_value(d.take(n), radix).unwrap() <= digits_value(d, radix).unwrap(),
    decreases d.len() - n,
{
    if n < d.len() {
        assert(d.take(d.len() as int) =~= d);
        let e = d.drop_last();
        assert(e.take(n) =~= d.take(n));
        lemma_digits_value_grows(e, radix, n);
        let v = digits_value(e, radix).unwrap();
        assert(v * radix >= v) by (nonlinear_arith)
            requires
                radix >= 1,
        ;
    } else {
        assert(d.take(n) =~= d);
    }
}

/// The value of the digit characters `v[i..]` in the given base, if all of them are digits and
/// the value fits in `limit`; `Err(true)` for a character that is not a digit, `Err(false)` for a
/// value above `limit`.
fn digits_upto(v: &[char], i: usize, radix: u64, limit: u64) -> (r: Result<u64, bool>)
    requires
        i <= v@.len(),
        radix == 10 || radix == 16,
        limit <= u32::MAX + 1,
    ensures
        r matches Ok(x) ==> digits_value(v@.skip(i as int), radix as nat) == Some(x as nat) && x
            <= limit,
        r matches Err(bad) ==> if bad {
            digits_value(v@.skip(i as int), radix as nat) is None
        } else {
            digits_value(v@.skip(i as int), radix as nat) is None || digits_value(
                v@.skip(i as int),
                radix as nat,
            ).unwrap() > limit
        },
{
    let ghost d = v@.skip(i as int);
    let mut acc: u64 = 0;
    let mut k = i;
    let mut over = false;
    while k < v.len()
        invariant
            i <= k <= v@.len(),
            d == v@.skip(i as int),
            radix == 10 || radix == 16,
            limit <= u32::MAX + 1,
            digits_value(d.take(k - i), radix as nat) is Some,
            !over ==> acc <= limit && digits_value(d.take(k - i), radix as nat) == Some(
                acc as nat,
            ),
            over ==> digits_value(d.take(k - i), radix as nat).unwrap() > limit,
        decreases v@.len() - k,
    {
        let c = v[k];
        let u = c as u32;
        let x: u64 = if 0x30 <= u && u <= 0x39 {
            (u - 0x30) as u64
        } else if radix == 16 && 0x61 <= u && u <= 0x66 {
            (u - 0x61 + 10) as u64
        } else if radix == 16 && 0x41 <= u && u <= 0x46 {
            (u - 0x41 + 10) as u64
        } else {
            proof {
                assert(d.take(k - i + 1).drop_last() =~= d.take(k - i));
                assert(d.take(k - i + 1).last() == c);
                lemma_none_extends(d, radix as nat, k - i + 1);
            }
            return Err(true);
        };
        proof {
            assert(d.take(k - i + 1).drop_last() =~= d.take(k - i));
            assert(d.take(k - i + 1).last() == c);
        }
        let ghost prev = digits_value(d.take(k - i), radix as nat).unwrap();
        if !over {
            let next = acc * radix + x;
            if next > limit {
                over = true;
            } else {
                acc = next;
            }
        } else {
            assert(prev * radix + x >= prev) by (nonlinear_arith)
                requires
                    radix >= 1,
                    x >= 0,
            ;
        }
        k += 1;
    }
    assert(d.take(k - i) =~= d);
    if over {
        Err(false)
    } else {
        Ok(acc)
    }
}

/// Once a prefix holds a non-digit, so does every longer digit string.
pub proof fn lemma_none_extends(d: Seq<char>, radix: nat, n: int)
    requires
        0 <= n <= d.len(),
        digits_value(d.take(n), radix) is None,
    ensures
        digits_value(d, radix) is None,
    decreases d.len() - n,
{
    if n < d.len() {
        assert(d.take(n + 1).drop_last() =~= d.take(n));
        lemma_none_extends(d, radix, n + 1);
    } else {
        assert(d.take(n) =~= d);
    }
}

/// `u32::from_str_radix` on `v[i..]` (radix 10 or 16).
pub fn parse_u32_chars(v: &[char], i: usize, radix: u64) -> (r: Option<u32>)
    requires
        i <= v@.len(),
        radix == 10 || radix == 16,
    ensures
        r == parse_u32_radix(v@.skip(i as int), radix as nat),
{
    let ghost s = v@.skip(i as int);
    if i >= v.len() {
        return None;
    }
    if (v[i] == '+' || v[i] == '-') && i + 1 == v.len() {
        return None;
    }
    let start = if v[i] == '+' { i + 1 } else { i };
    proof {
        if v[i as int] == '+' {
            assert(s.drop_first() =~= v@.skip(start as int));
        } else {
            assert(s =~= v@.skip(start as int));
        }
    }
    match digits_upto(v, start, radix, 0xFFFF_FFFF) {
        Ok(x) => Some(x as u32),
        Err(_) => None,
    }
}

/// `str::parse::<i32>` on `v[i..]`.
pub fn parse_i32_chars(v: &[char], i: usize) -> (r: Option<i32>)
    requires
        i <= v@.len(),
    ensures
        r == parse_i32(v@.skip(i as int)),
{
    let ghost s = v@.skip(i as int);
    if i >= v.len() {
        return None;
    }
    if (v[i] == '+' || v[i] == '-') && i + 1 == v.len() {
        return None;
    }
    let neg = v[i] == '-';
    let start = if v[i] == '+' || v[i] == '-' { i + 1 } else { i };
    proof {
        if v[i as int] == '+' || v[i as int] == '-' {
            assert(s.drop_first() =~= v@.skip(start as int));
        } else {
            assert(s =~= v@.skip(start as int));
        }
    }
    let limit: u64 = if neg { 0x8000_0000 } else { 0x7FFF_FFFF };
    match digits_upto(v, start, 10, limit) {
        Ok(x) => if neg {
            if x == 0x8000_0000 {
                Some(i32::MIN)
            } else {
                Some(-(x as i32))
            }
        } else {
            Some(x as i32)
        },
        Err(_) => None,
    }
}

} // verus!

verus! {

/// The lines of `s.skip(start)` as `str::lines` yields them: split at `\n`, a `\r` before the
/// `\n` removed, no empty last line after a final `\n`.
pub open spec fn lines_from(s: Seq<char>, start: int) -> Seq<Seq<char>>
    decreases s.len() - start,
{
    if start < 0 || start >= s.len() {
        Seq::empty()
    } else {
        let k = skip_from(s, not_char('\n'), start);
        proof {
            lemma_skip_from_bounds(s, not_char('\n'), start);
        }
        let raw = s.subrange(start, k);
        let line = if k < s.len() && raw.len() > 0 && raw.last() == '\r' {
            raw.drop_last()
        } else {
            raw
        };
        if k >= s.len() {
            seq![line]
        } else {
            seq![line] + lines_from(s, k + 1)
        }
    }
}

/// `str::lines`.
pub open spec fn lines(s: Seq<char>) -> Seq<Seq<char>> {
    lines_from(s, 0)
}

/// `str::lines`, each line as a character vector.
pub fn lines_chars(v: &[char]) -> (r: Vec<Vec<char>>)
    ensures
        views(r@) == lines(v@),
        r@.len() <= v@.len(),
{
    let mut out: Vec<Vec<char>> = Vec::new();
    let mut start: usize = 0;
    while start < v.len()
        invariant
            start <= v@.len(),
            lines(v@) == views(out@) + lines_from(v@, start as int),
            out@.len() <= start,
        decreases v@.len() - start,
    {
        let k = scan_char(v, '\n', start);
        proof {
            lemma_skip_from_bounds(v@, not_char('\n'), start as int);
        }
        let end = if k < v.len() && k > start && v[k - 1] == '\r' { k - 1 } else { k };
        let line = subrange(v, start, end);
        proof {
            let raw = v@.subrange(start as int, k as int);
            if k < v@.len() && k > start && v@[k - 1] == '\r' {
                assert(raw.drop_last() =~= line@);
            } else {
                assert(raw =~= line@);
            }
        }
        out.push(line);
        if k >= v.len() {
            assert(views(out@) =~= lines(v@));
            return out;
        }
        assert(views(out@) + lines_from(v@, k + 1) =~= lines(v@));
        start = k + 1;
    }
    assert(views(out@) =~= lines(v@));
    out
}

/// `str::ends_with` for one character.
pub open spec fn ends_with_char(s: Seq<char>, c: char) -> bool {
    s.len() > 0 && s.last() == c
}

/// `str::trim_end_matches(c)`: trailing copies of `c` removed.
pub open spec fn trim_end_char(s: Seq<char>, c: char) -> Seq<char> {
    s.take(rskip_to(s, is_char(c), s.len() as int))
}

/// `str::trim_end_matches(c)`.
pub fn trim_end_char_chars(v: &[char], c: char) -> (r: Vec<char>)
    ensures
        r@ == trim_end_char(v@, c),
{
    let mut b = v.len();
    while b > 0 && v[b - 1] == c
        invariant
            b <= v@.len(),
            rskip_to(v@, is_char(c), v@.len() as int) == rskip_to(v@, is_char(c), b as int),
        decreases b,
    {
        b -= 1;
    }
    subrange(v, 0, b)
}

/// The uppercase hexadecimal digit for `d < 16`.
pub open spec fn hex_digit(d: nat) -> char {
    (if d < 10 {
        0x30 + d
    } else {
        0x37 + d
    }) as char
}

/// The uppercase hexadecimal representation of a natural number, without leading zeros.
pub open spec fn hex(n: nat) -> Seq<char>
    decreases n,
{
    if n < 16 {
        seq![hex_digit(n)]
    } else {
        hex(n / 16).push(hex_digit(n % 16))
    }
}

/// An uppercase hexadecimal digit character reads back as its digit.
proof fn lemma_hex_digit_value(d: nat)
    requires
        d < 16,
    ensures
        digit_value(hex_digit(d), 16) == Some(d),
{
}

/// The hexadecimal representation of a number reads back, digit by digit, as that number.
pub proof fn lemma_hex_value(n: nat)
    ensures
        digits_value(hex(n), 16) == Some(n),
        hex(n).len() > 0,
    decreases n,
{
    if n < 16 {
        lemma_hex_digit_value(n);
        assert(seq![hex_digit(n)].drop_last() =~= Seq::<char>::empty());
        reveal_with_fuel(digits_value, 2);
    } else {
        lemma_hex_value(n / 16);
        lemma_hex_digit_value(n % 16);
        let s = hex(n / 16).push(hex_digit(n % 16));
        assert(s.drop_last() =~= hex(n / 16));
        assert((n / 16) * 16 + n % 16 == n);
    }
}

/// The hexadecimal representation consists of the digits `0` to `9` and `A` to `F`.
pub proof fn lemma_hex_digits(n: nat)
    ensures
        forall|k: int| 0 <= k < hex(n).len() ==> {
            let u = (#[trigger] hex(n)[k]) as u32;
            (0x30 <= u <= 0x39) || (0x41 <= u <= 0x46)
        },
    decreases n,
{
    if n >= 16 {
        lemma_hex_digits(n / 16);
        let s = hex(n);
        assert forall|k: int| 0 <= k < s.len() implies {
            let u = (#[trigger] s[k]) as u32;
            (0x30 <= u <= 0x39) || (0x41 <= u <= 0x46)
        } by {
            if k < s.len() - 1 {
                assert(s[k] == hex(n / 16)[k]);
            }
        }
    }
}

/// Leading zeros do not change the value of a digit string.
proof fn lemma_leading_zeros(k: nat, d: Seq<char>, radix: nat)
    requires
        radix == 10 || radix == 16,
    ensures
        digits_value(Seq::new(k, |i: int| '0') + d, radix) == digits_value(d, radix),
    decreases d.len(),
{
    let z = Seq::new(k, |i: int| '0');
    if d.len() == 0 {
        lemma_zeros_value(k, radix);
        assert(z + d =~= z);
    } else {
        lemma_leading_zeros(k, d.drop_last(), radix);
        assert((z + d).drop_last() =~= z + d.drop_last());
        assert((z + d).last() == d.last());
    }
}

/// A string of zeros is worth zero.
proof fn lemma_zeros_value(k: nat, radix: nat)
    ensures
        digits_value(Seq::new(k, |i: int| '0'), radix) == Some(0nat),
    decreases k,
{
    if k > 0 {
        lemma_zeros_value((k - 1) as nat, radix);
        let z = Seq::new(k, |i: int| '0');
        assert(z.drop_last() =~= Seq::new((k - 1) as nat, |i: int| '0'));
        assert(z.last() == '0');
        assert(('0' as u32) == 0x30);
        assert(digit_value('0', radix) == Some(0nat));
        assert(0 * radix == 0) by (nonlinear_arith);
    }
}

/// A number printed in hexadecimal with zero padding (`{:0wX}`) reads back as that number.
pub proof fn lemma_hex_upper_value(n: nat, width: nat)
    ensures
        digits_value(hex_upper(n, width), 16) == Some(n),
        hex_upper(n, width).len() >= width,
{
    lemma_hex_value(n);
    if hex(n).len() < width {
        lemma_leading_zeros((width - hex(n).len()) as nat, hex(n), 16);
    }
}

/// `s` preceded by enough copies of `fill` to make it `width` long.
pub open spec fn pad_left(s: Seq<char>, width: nat, fill: char) -> Seq<char> {
    if s.len() >= width {
        s
    } else {
        Seq::new((width - s.len()) as nat, |i: int| fill) + s
    }
}

/// `s` followed by enough copies of `fill` to make it `width` long.
pub open spec fn pad_right(s: Seq<char>, width: nat, fill: char) -> Seq<char> {
    if s.len() >= width {
        s
    } else {
        s + Seq::new((width - s.len()) as nat, |i: int| fill)
    }
}

/// `n` formatted as `{:0W X}`: uppercase hexadecimal, zero-padded to `width` digits.
pub open spec fn hex_upper(n: nat, width: nat) -> Seq<char> {
    pad_left(hex(n), width, '0')
}

/// Bytes as `{:02X}` pairs separated by spaces.
pub open spec fn hex_bytes(bs: Seq<u8>) -> Seq<char> {
    join(bs.map_values(|b: u8| hex_upper(b as nat, 2)), seq![' '])
}

/// Bytes as `{:02X}` pairs separated by spaces.
pub fn push_hex_bytes(out: &mut Vec<char>, bytes: &[u8])
    ensures
        final(out)@ == old(out)@ + hex_bytes(bytes@),
{
    let ghost start = out@;
    let mut i: usize = 0;
    while i < bytes.len()
        invariant
            i <= bytes@.len(),
            start == old(out)@,
            out@ == start + join(bytes@.map_values(|b: u8| hex_upper(b as nat, 2)).take(i as int), seq![' ']),
        decreases bytes@.len() - i,
    {
        let ghost before = out@;
        if i > 0 {
            out.push(' ');
        }
        push_hex(out, bytes[i] as u64, 2);
        proof {
            let t = bytes@.map_values(|b: u8| hex_upper(b as nat, 2)).take(i + 1);
            assert(t.drop_last() =~= bytes@.map_values(|b: u8| hex_upper(b as nat, 2)).take(i as int));
            assert(out@ =~= start + join(t, seq![' ']));
        }
        i += 1;
    }
    assert(bytes@.map_values(|b: u8| hex_upper(b as nat, 2)).take(bytes@.len() as int)
        =~= bytes@.map_values(|b: u8| hex_upper(b as nat, 2)));
}

/// Appends the uppercase hexadecimal digits of `n`.
fn push_hex_digits(out: &mut Vec<char>, n: u64)
    ensures
        final(out)@ == old(out)@ + hex(n as nat),
    decreases n,
{
    if n >= 16 {
        push_hex_digits(out, n / 16);
    }
    let d = n % 16;
    let code: u8 = if d < 10 { (0x30 + d) as u8 } else { (0x37 + d) as u8 };
    let c = code as char;
    out.push(c);
    assert(final(out)@ =~= old(out)@ + hex(n as nat)) by {
        if n >= 16 {
            assert(hex(n as nat) == hex((n / 16) as nat).push(hex_digit((n % 16) as nat)));
        } else {
            assert(n % 16 == n);
        }
    }
}

/// Appends `n` formatted as uppercase hexadecimal zero-padded to `width` digits.
pub fn push_hex(out: &mut Vec<char>, n: u64, width: usize)
    ensures
        final(out)@ == old(out)@ + hex_upper(n as nat, width as nat),
{
    let mut digits: Vec<char> = Vec::new();
    push_hex_digits(&mut digits, n);
    assert(digits@ =~= hex(n as nat));
    let ghost start = out@;
    let mut k = digits.len();
    while k < width
        invariant
            digits@.len() <= k <= width || (k == digits@.len() && k >= width),
            out@ == start + Seq::new((k - digits@.len()) as nat, |i: int| '0'),
            start == old(out)@,
        decreases width - k,
    {
        out.push('0');
        k += 1;
        assert(out@ =~= start + Seq::new((k - digits@.len()) as nat, |i: int| '0'));
    }
    push_chars(out, &digits);
    assert(final(out)@ =~= old(out)@ + hex_upper(n as nat, width as nat)) by {
        if digits@.len() >= width {
            assert(Seq::new((k - digits@.len()) as nat, |i: int| '0') =~= Seq::<char>::empty());
        }
    }
}

/// Appends a string padded on the right with spaces to `width` characters (`{:W}`).
pub fn push_padded(out: &mut Vec<char>, s: &[char], width: usize)
    ensures
        final(out)@ == old(out)@ + pad_right(s@, width as nat, ' '),
{
    push_chars(out, s);
    let ghost mid = out@;
    let mut k = s.len();
    while k < width
        invariant
            s@.len() <= k <= width || (k == s@.len() && k >= width),
            out@ == mid + Seq::new((k - s@.len()) as nat, |i: int| ' '),
            mid == old(out)@ + s@,
        decreases width - k,
    {
        out.push(' ');
        k += 1;
        assert(out@ =~= mid + Seq::new((k - s@.len()) as nat, |i: int| ' '));
    }
    assert(final(out)@ =~= old(out)@ + pad_right(s@, width as nat, ' ')) by {
        if s@.len() >= width {
            assert(Seq::new((k - s@.len()) as nat, |i: int| ' ') =~= Seq::<char>::empty());
        }
    }
}

} // verus!
