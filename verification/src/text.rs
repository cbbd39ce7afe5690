//! Character-level text handling shared by the parsers and formatters: conversion between
//! strings and character vectors, trimming, splitting, case mapping and decimal rendering.
use vstd::prelude::*;

verus! {

/// Characters of `s`, in order (`str::chars`, collected).
#[verifier::external_body]
pub(crate) fn chars_of(s: &str) -> (v: Vec<char>)
    ensures
        v@ == s@,
{
    s.chars().collect()
}

/// The string whose characters are those of `v` (`Iterator::collect` into a `String`).
#[verifier::external_body]
pub(crate) fn string_of(v: &Vec<char>) -> (s: String)
    ensures
        s@ == v@,
{
    v.iter().collect()
}

/// What `str::to_uppercase` returns for a string with these characters (Unicode case mapping).
pub uninterp spec fn upper_case_of(s: Seq<char>) -> Seq<char>;

/// What `str::to_lowercase` returns for a string with these characters (Unicode case mapping).
pub uninterp spec fn lower_case_of(s: Seq<char>) -> Seq<char>;

/// Every character of `s` is ASCII.
pub open spec fn is_ascii(s: Seq<char>) -> bool {
    forall|i: int| 0 <= i < s.len() ==> (#[trigger] s[i] as u32) < 128
}

pub open spec fn ascii_upper_char(c: char) -> char {
    if 97 <= (c as int) <= 122 {
        ((c as int) - 32) as char
    } else {
        c
    }
}

pub open spec fn ascii_lower_char(c: char) -> char {
    if 65 <= (c as int) <= 90 {
        ((c as int) + 32) as char
    } else {
        c
    }
}

/// `w` with its ASCII lower-case letters upper-cased.
pub open spec fn ascii_upper(w: Seq<char>) -> Seq<char> {
    w.map_values(|c: char| ascii_upper_char(c))
}

/// `w` with its ASCII upper-case letters lower-cased.
pub open spec fn ascii_lower(w: Seq<char>) -> Seq<char> {
    w.map_values(|c: char| ascii_lower_char(c))
}

/// `s` upper-cased as `str::to_uppercase` does: the ASCII mapping on ASCII text, the Unicode
/// mapping otherwise.
pub open spec fn upper_text(s: Seq<char>) -> Seq<char> {
    if is_ascii(s) {
        ascii_upper(s)
    } else {
        upper_case_of(s)
    }
}

/// `s` lower-cased as `str::to_lowercase` does: the ASCII mapping on ASCII text, the Unicode
/// mapping otherwise.
pub open spec fn lower_text(s: Seq<char>) -> Seq<char> {
    if is_ascii(s) {
        ascii_lower(s)
    } else {
        lower_case_of(s)
    }
}

/// `str::to_uppercase` on the string made of `s`. The result is named; on ASCII text the Unicode
/// upper-case mapping is the ASCII one, `a`..`z` to `A`..`Z` with every other character kept.
#[verifier::external_body]
pub(crate) fn to_uppercase(s: &Vec<char>) -> (r: Vec<char>)
    ensures
        r@ == upper_case_of(s@),
        is_ascii(s@) ==> r@ == ascii_upper(s@),
{
    let t: String = s.iter().collect();
    t.to_uppercase().chars().collect()
}

/// `str::to_lowercase` on the string made of `s`. The result is named; on ASCII text the Unicode
/// lower-case mapping is the ASCII one, `A`..`Z` to `a`..`z` with every other character kept.
#[verifier::external_body]
pub(crate) fn to_lowercase(s: &Vec<char>) -> (r: Vec<char>)
    ensures
        r@ == lower_case_of(s@),
        is_ascii(s@) ==> r@ == ascii_lower(s@),
{
    let t: String = s.iter().collect();
    t.to_lowercase().chars().collect()
}

/// The Unicode `White_Space` property, which `char::is_whitespace` tests and `str::trim` and
/// `str::split_whitespace` use.
pub open spec fn is_white_space(c: char) -> bool {
    let u = c as u32;
    ||| 0x9 <= u <= 0xd
    ||| u == 0x20
    ||| u == 0x85
    ||| u == 0xa0
    ||| u == 0x1680
    ||| 0x2000 <= u <= 0x200a
    ||| u == 0x2028
    ||| u == 0x2029
    ||| u == 0x202f
    ||| u == 0x205f
    ||| u == 0x3000
}

/// Sets of characters that the parsers strip or split on.
#[derive(Clone, Copy, PartialEq, Eq, Structural, Debug)]
pub enum CharClass {
    /// Unicode white space.
    WhiteSpace,
    /// The punctuation stripped around the words of a cash entry: `:` `,` `;`.
    EntryPunct,
    /// Thousands separators: `,` and `'`.
    Separator,
    /// `/`.
    Slash,
    /// The space character alone.
    Space,
    /// `.`.
    Dot,
    /// The exponent marks of a numeral: `e` and `E`.
    ExpMark,
}

pub open spec fn in_class(k: CharClass, c: char) -> bool {
    match k {
        CharClass::WhiteSpace => is_white_space(c),
        CharClass::EntryPunct => c == ':' || c == ',' || c == ';',
        CharClass::Separator => c == ',' || c == '\'',
        CharClass::Slash => c == '/',
        CharClass::Space => c == ' ',
        CharClass::Dot => c == '.',
        CharClass::ExpMark => c == 'e' || c == 'E',
    }
}

pub fn is_in_class(k: CharClass, c: char) -> (b: bool)
    ensures
        b == in_class(k, c),
{
    match k {
        CharClass::WhiteSpace => {
            let u = c as u32;
            (0x9 <= u && u <= 0xd) || u == 0x20 || u == 0x85 || u == 0xa0 || u == 0x1680 || (0x2000
                <= u && u <= 0x200a) || u == 0x2028 || u == 0x2029 || u == 0x202f || u == 0x205f
                || u == 0x3000
        },
        CharClass::EntryPunct => c == ':' || c == ',' || c == ';',
        CharClass::Separator => c == ',' || c == '\'',
        CharClass::Slash => c == '/',
        CharClass::Space => c == ' ',
        CharClass::Dot => c == '.',
        CharClass::ExpMark => c == 'e' || c == 'E',
    }
}

/// `s` without its leading characters of class `k`.
pub open spec fn strip_start(s: Seq<char>, k: CharClass) -> Seq<char>
    decreases s.len(),
{
    if s.len() > 0 && in_class(k, s[0]) {
        strip_start(s.drop_first(), k)
    } else {
        s
    }
}

/// `s` without its trailing characters of class `k`.
pub open spec fn strip_end(s: Seq<char>, k: CharClass) -> Seq<char>
    decreases s.len(),
{
    if s.len() > 0 && in_class(k, s.last()) {
        strip_end(s.drop_last(), k)
    } else {
        s
    }
}

/// `s` without leading and trailing characters of class `k` (`str::trim_matches`; for white
/// space, `str::trim`).
pub open spec fn strip_both(s: Seq<char>, k: CharClass) -> Seq<char> {
    strip_end(strip_start(s, k), k)
}

/// `s` with white space trimmed from both ends, as `str::trim` does.
pub open spec fn trim(s: Seq<char>) -> Seq<char> {
    strip_both(s, CharClass::WhiteSpace)
}

/// The pieces of `s` between characters of class `k`, empty pieces included (`str::split`).
pub open spec fn split_on(s: Seq<char>, k: CharClass) -> Seq<Seq<char>>
    decreases s.len(),
{
    if s.len() == 0 {
        seq![Seq::<char>::empty()]
    } else {
        let r = split_on(s.drop_last(), k);
        if in_class(k, s.last()) {
            r.push(Seq::<char>::empty())
        } else {
            r.update(r.len() - 1, r.last().push(s.last()))
        }
    }
}

/// The non-empty members of `ss`, in order.
pub open spec fn non_empty(ss: Seq<Seq<char>>) -> Seq<Seq<char>>
    decreases ss.len(),
{
    if ss.len() == 0 {
        ss
    } else if ss.last().len() == 0 {
        non_empty(ss.drop_last())
    } else {
        non_empty(ss.drop_last()).push(ss.last())
    }
}

/// The words of `s`, as `str::split_whitespace` yields them.
pub open spec fn words(s: Seq<char>) -> Seq<Seq<char>> {
    non_empty(split_on(s, CharClass::WhiteSpace))
}

/// The views of a sequence of character vectors.
pub open spec fn views(vs: Seq<Vec<char>>) -> Seq<Seq<char>> {
    vs.map_values(|v: Vec<char>| v@)
}

pub proof fn lemma_split_on_nonempty(s: Seq<char>, k: CharClass)
    ensures
        split_on(s, k).len() >= 1,
    decreases s.len(),
{
    if s.len() > 0 {
        lemma_split_on_nonempty(s.drop_last(), k);
    }
}

/// A copy of `v[a..b]`.
pub fn copy_range(v: &Vec<char>, a: usize, b: usize) -> (r: Vec<char>)
    requires
        a <= b <= v.len(),
    ensures
        r@ == v@.subrange(a as int, b as int),
{
    let mut r: Vec<char> = Vec::new();
    let mut i = a;
    while i < b
        invariant
            a <= i <= b <= v.len(),
            r@ == v@.subrange(a as int, i as int),
        decreases b - i,
    {
        r.push(v[i]);
        i += 1;
        assert(r@ =~= v@.subrange(a as int, i as int));
    }
    r
}

proof fn lemma_strip_start_skip(s: Seq<char>, i: int, k: CharClass)
    requires
        0 <= i < s.len(),
        in_class(k, s[i]),
    ensures
        strip_start(s.subrange(i, s.len() as int), k) == strip_start(
            s.subrange(i + 1, s.len() as int),
            k,
        ),
{
    let t = s.subrange(i, s.len() as int);
    assert(t.drop_first() =~= s.subrange(i + 1, s.len() as int));
}

proof fn lemma_strip_end_skip(s: Seq<char>, j: int, k: CharClass)
    requires
        0 < j <= s.len(),
        in_class(k, s[j - 1]),
    ensures
        strip_end(s.subrange(0, j), k) == strip_end(s.subrange(0, j - 1), k),
{
    let t = s.subrange(0, j);
    assert(t.drop_last() =~= s.subrange(0, j - 1));
}

/// The bounds of `v` once leading and trailing characters of class `k` are left out.
pub fn strip_bounds(v: &Vec<char>, k: CharClass) -> (r: (usize, usize))
    ensures
        r.0 <= r.1 <= v.len(),
        v@.subrange(r.0 as int, r.1 as int) == strip_both(v@, k),
{
    let n = v.len();
    let mut i: usize = 0;
    assert(v@.subrange(0, n as int) =~= v@);
    while i < n && is_in_class(k, v[i])
        invariant
            i <= n == v.len(),
            strip_start(v@, k) == strip_start(v@.subrange(i as int, n as int), k),
        decreases n - i,
    {
        proof {
            lemma_strip_start_skip(v@, i as int, k);
        }
        i += 1;
    }
    let ghost t = v@.subrange(i as int, n as int);
    assert(strip_start(t, k) == t);
    assert(strip_start(v@, k) == t);
    let mut j: usize = n;
    assert(t.subrange(0, t.len() as int) =~= t);
    while j > i && is_in_class(k, v[j - 1])
        invariant
            i <= j <= n == v.len(),
            t == v@.subrange(i as int, n as int),
            strip_end(t, k) == strip_end(t.subrange(0, j - i), k),
        decreases j,
    {
        proof {
            lemma_strip_end_skip(t, (j - i) as int, k);
            assert(t.subrange(0, (j - 1 - i) as int) =~= t.subrange(0, j - i - 1));
        }
        j -= 1;
    }
    let ghost u = t.subrange(0, j - i);
    assert(strip_end(u, k) == u);
    assert(u =~= v@.subrange(i as int, j as int));
    (i, j)
}

/// `v` without leading and trailing characters of class `k`.
pub fn stripped(v: &Vec<char>, k: CharClass) -> (r: Vec<char>)
    ensures
        r@ == strip_both(v@, k),
{
    let (a, b) = strip_bounds(v, k);
    copy_range(v, a, b)
}


/// Whether some character of `s` is of class `k`.
pub open spec fn has_class(s: Seq<char>, k: CharClass) -> bool {
    exists|i: int| 0 <= i < s.len() && in_class(k, #[trigger] s[i])
}

pub fn contains_class(v: &Vec<char>, k: CharClass) -> (b: bool)
    ensures
        b == has_class(v@, k),
{
    let mut i: usize = 0;
    while i < v.len()
        invariant
            i <= v.len(),
            forall|j: int| 0 <= j < i ==> !in_class(k, #[trigger] v@[j]),
        decreases v.len() - i,
    {
        if is_in_class(k, v[i]) {
            return true;
        }
        i += 1;
    }
    false
}

/// `s` with every character of class `k` left out (`str::replace` with an empty replacement).
pub open spec fn remove_class(s: Seq<char>, k: CharClass) -> Seq<char>
    decreases s.len(),
{
    if s.len() == 0 {
        s
    } else if in_class(k, s.last()) {
        remove_class(s.drop_last(), k)
    } else {
        remove_class(s.drop_last(), k).push(s.last())
    }
}

pub fn removed_class(v: &Vec<char>, k: CharClass) -> (r: Vec<char>)
    ensures
        r@ == remove_class(v@, k),
{
    let mut r: Vec<char> = Vec::new();
    let mut i: usize = 0;
    assert(v@.take(0) =~= Seq::<char>::empty());
    while i < v.len()
        invariant
            i <= v.len(),
            r@ == remove_class(v@.take(i as int), k),
        decreases v.len() - i,
    {
        assert(v@.take(i + 1).drop_last() =~= v@.take(i as int));
        if !is_in_class(k, v[i]) {
            r.push(v[i]);
        }
        i += 1;
    }
    assert(v@.take(v.len() as int) =~= v@);
    r
}

pub fn split_chars(v: &Vec<char>, k: CharClass) -> (r: Vec<Vec<char>>)
    ensures
        views(r@) == split_on(v@, k),
{
    let mut parts: Vec<Vec<char>> = Vec::new();
    let mut cur: Vec<char> = Vec::new();
    let mut i: usize = 0;
    assert(v@.take(0) =~= Seq::<char>::empty());
    assert(views(parts@).push(cur@) =~= split_on(v@.take(0), k));
    while i < v.len()
        invariant
            i <= v.len(),
            views(parts@).push(cur@) == split_on(v@.take(i as int), k),
        decreases v.len() - i,
    {
        let c = v[i];
        let ghost prev = v@.take(i as int);
        let ghost next = v@.take(i + 1);
        assert(next.drop_last() =~= prev);
        assert(next.last() == c);
        if is_in_class(k, c) {
            let ghost old_parts = parts@;
            let ghost old_cur = cur@;
            parts.push(cur);
            cur = Vec::new();
            assert(views(parts@) =~= views(old_parts).push(old_cur));
        } else {
            let ghost old_cur = cur@;
            cur.push(c);
            assert(views(parts@).push(cur@) =~= views(parts@).push(old_cur).update(
                views(parts@).len() as int,
                old_cur.push(c),
            ));
        }
        i += 1;
    }
    assert(v@.take(v.len() as int) =~= v@);
    let ghost before = parts@;
    parts.push(cur);
    assert(views(parts@) =~= views(before).push(cur@));
    parts
}


pub fn copy_chars(v: &Vec<char>) -> (r: Vec<char>)
    ensures
        r@ == v@,
{
    let r = copy_range(v, 0, v.len());
    assert(v@.subrange(0, v.len() as int) =~= v@);
    r
}

pub fn chars_eq(a: &Vec<char>, b: &Vec<char>) -> (r: bool)
    ensures
        r == (a@ == b@),
{
    if a.len() != b.len() {
        return false;
    }
    let mut i: usize = 0;
    while i < a.len()
        invariant
            i <= a.len() == b.len(),
            forall|j: int| 0 <= j < i ==> a@[j] == b@[j],
        decreases a.len() - i,
    {
        if a[i] != b[i] {
            return false;
        }
        i += 1;
    }
    assert(a@ =~= b@);
    true
}

/// Whether the characters of `a` are those of the literal `lit`.
pub fn chars_eq_str(a: &Vec<char>, lit: &str) -> (r: bool)
    ensures
        r == (a@ == lit@),
{
    let b = chars_of(lit);
    chars_eq(a, &b)
}

pub fn keep_non_empty(parts: &Vec<Vec<char>>) -> (r: Vec<Vec<char>>)
    ensures
        views(r@) == non_empty(views(parts@)),
{
    let mut r: Vec<Vec<char>> = Vec::new();
    let mut i: usize = 0;
    assert(views(parts@).take(0) =~= Seq::<Seq<char>>::empty());
    while i < parts.len()
        invariant
            i <= parts.len(),
            views(r@) == non_empty(views(parts@).take(i as int)),
        decreases parts.len() - i,
    {
        let ghost pre = views(parts@).take(i as int);
        let ghost nxt = views(parts@).take(i + 1);
        assert(nxt.drop_last() =~= pre);
        assert(nxt.last() == parts@[i as int]@);
        if parts[i].len() > 0 {
            let ghost before = r@;
            let c = copy_chars(&parts[i]);
            r.push(c);
            assert(views(r@) =~= views(before).push(c@));
        }
        i += 1;
    }
    assert(views(parts@).take(parts.len() as int) =~= views(parts@));
    r
}

/// The words of `v`, as `str::split_whitespace` yields them.
pub fn words_of(v: &Vec<char>) -> (r: Vec<Vec<char>>)
    ensures
        views(r@) == words(v@),
{
    let parts = split_chars(v, CharClass::WhiteSpace);
    keep_non_empty(&parts)
}

/// The members of `ss` with `sep` between each two (`slice::join`).
pub open spec fn join(ss: Seq<Seq<char>>, sep: Seq<char>) -> Seq<char>
    decreases ss.len(),
{
    if ss.len() == 0 {
        Seq::<char>::empty()
    } else if ss.len() == 1 {
        ss[0]
    } else {
        join(ss.drop_last(), sep) + sep + ss.last()
    }
}

pub fn append_chars(r: &mut Vec<char>, v: &Vec<char>)
    ensures
        final(r)@ == old(r)@ + v@,
{
    let mut i: usize = 0;
    while i < v.len()
        invariant
            i <= v.len(),
            r@ == old(r)@ + v@.take(i as int),
        decreases v.len() - i,
    {
        r.push(v[i]);
        i += 1;
        assert(r@ =~= old(r)@ + v@.take(i as int));
    }
    assert(v@.take(v.len() as int) =~= v@);
}

pub fn append_str(r: &mut Vec<char>, lit: &str)
    ensures
        final(r)@ == old(r)@ + lit@,
{
    let v = chars_of(lit);
    append_chars(r, &v);
}

pub fn join_chars(parts: &Vec<Vec<char>>, sep: &Vec<char>) -> (r: Vec<char>)
    ensures
        r@ == join(views(parts@), sep@),
{
    let mut r: Vec<char> = Vec::new();
    let mut i: usize = 0;
    assert(views(parts@).take(0) =~= Seq::<Seq<char>>::empty());
    while i < parts.len()
        invariant
            i <= parts.len(),
            r@ == join(views(parts@).take(i as int), sep@),
        decreases parts.len() - i,
    {
        let ghost nxt = views(parts@).take(i + 1);
        assert(nxt.drop_last() =~= views(parts@).take(i as int));
        if i > 0 {
            append_chars(&mut r, sep);
        } else {
            assert(nxt.len() == 1);
        }
        append_chars(&mut r, &parts[i]);
        i += 1;
    }
    assert(views(parts@).take(parts.len() as int) =~= views(parts@));
    r
}

/// The decimal digit character for `d < 10`.
pub open spec fn digit_char(d: nat) -> char {
    (d + 48) as char
}

/// The decimal numeral of `n`, without leading zeros.
pub open spec fn decimal(n: nat) -> Seq<char>
    decreases n,
{
    if n < 10 {
        seq![digit_char(n)]
    } else {
        decimal(n / 10).push(digit_char(n % 10))
    }
}

pub fn digit_of(d: u64) -> (c: char)
    requires
        d < 10,
    ensures
        c == digit_char(d as nat),
{
    let b: u8 = d as u8 + 48;
    b as char
}

pub fn decimal_of(n: u64) -> (r: Vec<char>)
    ensures
        r@ == decimal(n as nat),
    decreases n,
{
    if n < 10 {
        let mut r: Vec<char> = Vec::new();
        r.push(digit_of(n));
        assert(r@ =~= seq![digit_char(n as nat)]);
        r
    } else {
        let mut r = decimal_of(n / 10);
        r.push(digit_of(n % 10));
        r
    }
}

pub fn decimal_of_wide(n: u128) -> (r: Vec<char>)
    ensures
        r@ == decimal(n as nat),
    decreases n,
{
    let d: u64 = (n % 10) as u64;
    if n < 10 {
        let mut r: Vec<char> = Vec::new();
        r.push(digit_of(d));
        assert(r@ =~= seq![digit_char(n as nat)]);
        r
    } else {
        let mut r = decimal_of_wide(n / 10);
        r.push(digit_of(d));
        r
    }
}

/// Whether `p` occurs in `s` starting at index `i`.
pub open spec fn occurs_at(s: Seq<char>, p: Seq<char>, i: int) -> bool {
    0 <= i && i + p.len() <= s.len() && s.subrange(i, i + p.len()) == p
}

/// The first index at or after `from` where `p` occurs in `s`, or -1 (`str::find` on `s[from..]`,
/// counted in characters).
pub open spec fn first_from(s: Seq<char>, p: Seq<char>, from: int) -> int
    decreases s.len() + 1 - from,
{
    if from < 0 || from + p.len() > s.len() {
        -1
    } else if occurs_at(s, p, from) {
        from
    } else {
        first_from(s, p, from + 1)
    }
}

/// Whether `p` occurs anywhere in `s` (`str::contains`).
pub open spec fn contains_seq(s: Seq<char>, p: Seq<char>) -> bool {
    exists|i: int| occurs_at(s, p, i)
}

/// Whether `s` begins with `p` (`str::starts_with`).
pub open spec fn starts_with(s: Seq<char>, p: Seq<char>) -> bool {
    occurs_at(s, p, 0)
}

/// Whether `s` ends with `p` (`str::ends_with`).
pub open spec fn ends_with(s: Seq<char>, p: Seq<char>) -> bool {
    occurs_at(s, p, s.len() - p.len())
}

/// Whether `v[i..]` begins with `p`.
pub fn matches_at(v: &Vec<char>, p: &Vec<char>, i: usize) -> (b: bool)
    ensures
        b == occurs_at(v@, p@, i as int),
{
    if i > v.len() || p.len() > v.len() - i {
        return false;
    }
    let mut j: usize = 0;
    while j < p.len()
        invariant
            j <= p.len(),
            i + p.len() <= v.len(),
            forall|k: int| 0 <= k < j ==> v@[i + k] == p@[k],
        decreases p.len() - j,
    {
        if v[i + j] != p[j] {
            assert(v@.subrange(i as int, i + p.len())[j as int] == v@[i + j]);
            return false;
        }
        j += 1;
    }
    assert(v@.subrange(i as int, i + p.len()) =~= p@);
    true
}

proof fn lemma_first_from_found(s: Seq<char>, p: Seq<char>, from: int, i: int)
    requires
        0 <= from <= i,
        occurs_at(s, p, i),
        forall|k: int| from <= k < i ==> !occurs_at(s, p, k),
    ensures
        first_from(s, p, from) == i,
    decreases i - from,
{
    if from < i {
        lemma_first_from_found(s, p, from + 1, i);
    }
}

proof fn lemma_first_from_absent(s: Seq<char>, p: Seq<char>, from: int)
    requires
        0 <= from,
        forall|k: int| from <= k ==> !occurs_at(s, p, k),
    ensures
        first_from(s, p, from) == -1,
    decreases s.len() + 1 - from,
{
    if from + p.len() <= s.len() {
        lemma_first_from_absent(s, p, from + 1);
    }
}

/// The first index at or after `from` where `p` occurs in `v`.
pub fn find_from(v: &Vec<char>, p: &Vec<char>, from: usize) -> (r: Option<usize>)
    ensures
        match r {
            Some(i) => i as int == first_from(v@, p@, from as int),
            None => first_from(v@, p@, from as int) == -1,
        },
{
    let mut i: usize = from;
    while i < v.len()
        invariant
            from <= i,
            forall|k: int| from <= k < i ==> !occurs_at(v@, p@, k),
        decreases v.len() - i,
    {
        if matches_at(v, p, i) {
            proof {
                lemma_first_from_found(v@, p@, from as int, i as int);
            }
            return Some(i);
        }
        i += 1;
    }
    if i == v.len() && matches_at(v, p, i) {
        proof {
            lemma_first_from_found(v@, p@, from as int, i as int);
        }
        return Some(i);
    }
    proof {
        lemma_first_from_absent(v@, p@, from as int);
    }
    None
}

/// Whether `p` occurs in `v`.
pub fn contains_chars(v: &Vec<char>, p: &Vec<char>) -> (b: bool)
    ensures
        b == contains_seq(v@, p@),
{
    match find_from(v, p, 0) {
        Some(i) => {
            proof {
                lemma_first_from_occurs(v@, p@, 0);
            }
            true
        },
        None => {
            proof {
                lemma_first_from_complete(v@, p@, 0);
            }
            false
        },
    }
}

proof fn lemma_first_from_occurs(s: Seq<char>, p: Seq<char>, from: int)
    requires
        first_from(s, p, from) != -1,
    ensures
        occurs_at(s, p, first_from(s, p, from)),
        first_from(s, p, from) >= from,
    decreases s.len() + 1 - from,
{
    if !(from < 0 || from + p.len() > s.len()) && !occurs_at(s, p, from) {
        lemma_first_from_occurs(s, p, from + 1);
    }
}

proof fn lemma_first_from_complete(s: Seq<char>, p: Seq<char>, from: int)
    requires
        0 <= from,
        first_from(s, p, from) == -1,
    ensures
        forall|k: int| from <= k ==> !occurs_at(s, p, k),
    decreases s.len() + 1 - from,
{
    if from + p.len() <= s.len() {
        lemma_first_from_complete(s, p, from + 1);
    }
}

/// Whether `v` begins with the literal `lit`.
pub fn starts_with_str(v: &Vec<char>, lit: &str) -> (b: bool)
    ensures
        b == starts_with(v@, lit@),
{
    let p = chars_of(lit);
    matches_at(v, &p, 0)
}

/// Whether `v` ends with the literal `lit`.
pub fn ends_with_str(v: &Vec<char>, lit: &str) -> (b: bool)
    ensures
        b == ends_with(v@, lit@),
{
    let p = chars_of(lit);
    if p.len() > v.len() {
        false
    } else {
        matches_at(v, &p, v.len() - p.len())
    }
}

/// Whether `v` contains the character `c`.
pub fn has_char(v: &Vec<char>, c: char) -> (b: bool)
    ensures
        b == v@.contains(c),
{
    let mut i: usize = 0;
    while i < v.len()
        invariant
            i <= v.len(),
            forall|k: int| 0 <= k < i ==> v@[k] != c,
        decreases v.len() - i,
    {
        if v[i] == c {
            return true;
        }
        i += 1;
    }
    false
}

} // verus!
