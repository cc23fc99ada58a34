//! Text helpers shared by the directive logic and the item finders: string
//! equality, Unicode whitespace trimming, prefix stripping and substring
//! search, all stated over the characters of the text.
use vstd::prelude::*;
use vstd::string::StringSliceAdditionalSpecFns;
use vstd::string::StrSliceExecFns;
use vstd::utf8::encode_utf8_decode_utf8;

verus! {

broadcast use vstd::string::group_string_axioms;

/// Whether two strings hold the same characters (`==` on `str`).
pub fn same_text(a: &str, b: &str) -> (r: bool)
    ensures
        r == (a@ == b@),
{
    let x = a.as_bytes();
    let y = b.as_bytes();
    proof {
        encode_utf8_decode_utf8(a@);
        encode_utf8_decode_utf8(b@);
    }
    if x.len() != y.len() {
        return false;
    }
    let n = x.len();
    let mut i: usize = 0;
    while i < n
        invariant
            n == x@.len(),
            n == y@.len(),
            x@ == a.spec_bytes(),
            y@ == b.spec_bytes(),
            i <= n,
            forall|j: int| 0 <= j < i ==> x@[j] == y@[j],
        decreases n - i,
    {
        if x[i] != y[i] {
            return false;
        }
        i = i + 1;
    }
    assert(x@ =~= y@);
    true
}

/// The characters of `s`, in order.
pub fn chars_of(s: &str) -> (v: Vec<char>)
    ensures
        v@ == s@,
{
    let mut v: Vec<char> = Vec::new();
    for c in iter: s.chars()
        invariant
            v@ == iter.seq().take(iter.index() as int),
    {
        v.push(c);
    }
    v
}

/// The characters with the Unicode `White_Space` property, which is what
/// `char::is_whitespace` and `str::trim` go by.
pub open spec fn is_white_space(c: char) -> bool {
    let u = c as u32;
    (0x09 <= u <= 0x0d) || u == 0x20 || u == 0x85 || u == 0xa0 || u == 0x1680 || (0x2000 <= u
        <= 0x200a) || u == 0x2028 || u == 0x2029 || u == 0x202f || u == 0x205f || u == 0x3000
}

/// Whether `c` is Unicode whitespace.
pub fn is_whitespace(c: char) -> (r: bool)
    ensures
        r == is_white_space(c),
{
    let u = c as u32;
    (0x09 <= u && u <= 0x0d) || u == 0x20 || u == 0x85 || u == 0xa0 || u == 0x1680 || (0x2000 <= u
        && u <= 0x200a) || u == 0x2028 || u == 0x2029 || u == 0x202f || u == 0x205f || u == 0x3000
}

/// `s` without its leading whitespace.
pub open spec fn trim_start_chars(s: Seq<char>) -> Seq<char>
    decreases s.len(),
{
    if s.len() > 0 && is_white_space(s[0]) {
        trim_start_chars(s.drop_first())
    } else {
        s
    }
}

/// `s` without its trailing whitespace.
pub open spec fn trim_end_chars(s: Seq<char>) -> Seq<char>
    decreases s.len(),
{
    if s.len() > 0 && is_white_space(s.last()) {
        trim_end_chars(s.drop_last())
    } else {
        s
    }
}

/// `s` without leading and trailing whitespace, as `str::trim` returns it.
pub open spec fn trim_chars(s: Seq<char>) -> Seq<char> {
    trim_end_chars(trim_start_chars(s))
}

proof fn lemma_trim_start(s: Seq<char>)
    ensures
        exists|a: int| 0 <= a <= s.len() && trim_start_chars(s) == s.subrange(a, s.len() as int)
            && forall|j: int| 0 <= j < a ==> is_white_space(#[trigger] s[j]),
        trim_start_chars(s).len() > 0 ==> !is_white_space(trim_start_chars(s)[0]),
    decreases s.len(),
{
    if s.len() > 0 && is_white_space(s[0]) {
        lemma_trim_start(s.drop_first());
        let a = choose|a: int| 0 <= a <= s.drop_first().len() && trim_start_chars(s.drop_first()) == s.drop_first().subrange(a, s.drop_first().len() as int)
            && forall|j: int| 0 <= j < a ==> is_white_space(#[trigger] s.drop_first()[j]);
        assert(s.drop_first().subrange(a, s.drop_first().len() as int) =~= s.subrange(a + 1, s.len() as int));
        assert forall|j: int| 0 <= j < a + 1 implies is_white_space(#[trigger] s[j]) by {
            if j > 0 {
                assert(s[j] == s.drop_first()[j - 1]);
            }
        }
    } else {
        assert(s.subrange(0, s.len() as int) =~= s);
    }
}

proof fn lemma_trim_end(s: Seq<char>)
    ensures
        exists|z: int| 0 <= z <= s.len() && trim_end_chars(s) == s.subrange(0, z)
            && forall|j: int| z <= j < s.len() ==> is_white_space(#[trigger] s[j]),
        trim_end_chars(s).len() > 0 ==> !is_white_space(trim_end_chars(s).last()),
    decreases s.len(),
{
    if s.len() > 0 && is_white_space(s.last()) {
        lemma_trim_end(s.drop_last());
        let z = choose|z: int| 0 <= z <= s.drop_last().len() && trim_end_chars(s.drop_last()) == s.drop_last().subrange(0, z)
            && forall|j: int| z <= j < s.drop_last().len() ==> is_white_space(#[trigger] s.drop_last()[j]);
        assert(s.drop_last().subrange(0, z) =~= s.subrange(0, z));
        assert forall|j: int| z <= j < s.len() implies is_white_space(#[trigger] s[j]) by {
            if j < s.len() - 1 {
                assert(s[j] == s.drop_last()[j]);
            }
        }
    } else {
        assert(s.subrange(0, s.len() as int) =~= s);
    }
}

/// Law: trimming gives a contiguous part of the text that neither starts
/// nor ends with whitespace and leaves out only whitespace around it, and
/// trimming it again changes nothing.
pub proof fn law_trim(s: Seq<char>)
    ensures
        exists|a: int, z: int| 0 <= a <= z <= s.len() && trim_chars(s) == s.subrange(a, z)
            && (forall|j: int| 0 <= j < a ==> is_white_space(#[trigger] s[j]))
            && (forall|j: int| z <= j < s.len() ==> is_white_space(#[trigger] s[j])),
        trim_chars(s).len() > 0 ==> !is_white_space(trim_chars(s)[0]) && !is_white_space(trim_chars(s).last()),
        trim_chars(trim_chars(s)) == trim_chars(s),
{
    let u = trim_start_chars(s);
    lemma_trim_start(s);
    lemma_trim_end(u);
    let a = choose|a: int| 0 <= a <= s.len() && u == s.subrange(a, s.len() as int)
        && forall|j: int| 0 <= j < a ==> is_white_space(#[trigger] s[j]);
    let z = choose|z: int| 0 <= z <= u.len() && trim_end_chars(u) == u.subrange(0, z)
        && forall|j: int| z <= j < u.len() ==> is_white_space(#[trigger] u[j]);
    let t = trim_chars(s);
    assert(t =~= s.subrange(a, a + z));
    assert forall|j: int| a + z <= j < s.len() implies is_white_space(#[trigger] s[j]) by {
        assert(s[j] == u[j - a]);
    }
    if t.len() > 0 {
        assert(t[0] == u[0]);
    }
    assert(trim_start_chars(t) == t);
    assert(trim_end_chars(t) == t);
}

/// Returns `s` without leading and trailing Unicode whitespace.
pub fn trim(s: &str) -> (r: &str)
    ensures
        r@ == trim_chars(s@),
{
    let cs = chars_of(s);
    let n = cs.len();
    let mut i: usize = 0;
    assert(s@.subrange(0, n as int) =~= s@);
    while i < n && is_whitespace(cs[i])
        invariant
            cs@ == s@,
            n == s@.len(),
            i <= n,
            trim_start_chars(s@.subrange(i as int, n as int)) == trim_start_chars(s@),
        decreases n - i,
    {
        assert(s@.subrange(i as int, n as int).drop_first() =~= s@.subrange(i + 1, n as int));
        i = i + 1;
    }
    let ghost t = s@.subrange(i as int, n as int);
    assert(trim_start_chars(t) == t) by {
        if i < n {
            assert(t[0] == s@[i as int]);
        }
    }
    let mut j: usize = n;
    while j > i && is_whitespace(cs[j - 1])
        invariant
            cs@ == s@,
            n == s@.len(),
            i <= j <= n,
            t == s@.subrange(i as int, n as int),
            trim_end_chars(s@.subrange(i as int, j as int)) == trim_end_chars(t),
        decreases j - i,
    {
        assert(s@.subrange(i as int, j as int).drop_last() =~= s@.subrange(i as int, j - 1));
        j = j - 1;
    }
    let ghost u = s@.subrange(i as int, j as int);
    assert(trim_end_chars(u) == u) by {
        if j > i {
            assert(u.last() == s@[j - 1]);
        }
    }
    s.substring_char(i, j)
}

/// The pattern `p` occurs in `s` at `i`.
pub open spec fn occurs_at(s: Seq<char>, p: Seq<char>, i: int) -> bool {
    0 <= i && i + p.len() <= s.len() && s.subrange(i, i + p.len()) == p
}

/// The first position at or after `from` where `p` occurs in `s`.
pub open spec fn first_occurrence(s: Seq<char>, p: Seq<char>, from: int) -> Option<int>
    decreases s.len() - from,
{
    if from < 0 || from + p.len() > s.len() {
        None
    } else if occurs_at(s, p, from) {
        Some(from)
    } else if p.len() == 0 {
        None
    } else {
        first_occurrence(s, p, from + 1)
    }
}

pub proof fn lemma_first_occurrence(s: Seq<char>, p: Seq<char>, from: int)
    requires
        p.len() > 0,
        from >= 0,
    ensures
        first_occurrence(s, p, from) matches Some(i) ==> from <= i && occurs_at(s, p, i) && forall|k: int|
            from <= k < i ==> !occurs_at(s, p, k),
        first_occurrence(s, p, from) is None ==> forall|k: int| from <= k ==> !occurs_at(s, p, k),
    decreases s.len() - from,
{
    if from + p.len() <= s.len() && !occurs_at(s, p, from) {
        lemma_first_occurrence(s, p, from + 1);
    }
}

/// Whether `pat` occurs in `cs` at `i`.
fn matches_at(cs: &Vec<char>, pat: &[char], i: usize) -> (r: bool)
    ensures
        r == occurs_at(cs@, pat@, i as int),
{
    let m = pat.len();
    let len = cs.len();
    if i > len || m > len - i {
        return false;
    }
    let mut k: usize = 0;
    while k < m
        invariant
            m == pat@.len(),
            len == cs@.len(),
            i + m <= len,
            k <= m,
            forall|q: int| 0 <= q < k ==> cs@[i + q] == pat@[q],
        decreases m - k,
    {
        if cs[i + k] != pat[k] {
            assert(cs@.subrange(i as int, i + m)[k as int] != pat@[k as int]);
            return false;
        }
        k = k + 1;
    }
    assert(cs@.subrange(i as int, i + m) =~= pat@);
    true
}

/// The first position at or after `from` where `pat` occurs in `cs`.
pub fn find_from(cs: &Vec<char>, pat: &[char], from: usize) -> (r: Option<usize>)
    requires
        pat@.len() > 0,
    ensures
        r matches Some(i) ==> first_occurrence(cs@, pat@, from as int) == Some(i as int),
        r is None ==> first_occurrence(cs@, pat@, from as int) is None,
{
    let n = cs.len();
    let mut i = from;
    while i < n
        invariant
            n == cs@.len(),
            pat@.len() > 0,
            from <= i,
            first_occurrence(cs@, pat@, from as int) == first_occurrence(cs@, pat@, i as int),
        decreases n - i,
    {
        if matches_at(cs, pat, i) {
            return Some(i);
        }
        if pat.len() > n - i {
            return None;
        }
        i = i + 1;
    }
    assert(first_occurrence(cs@, pat@, i as int) is None);
    None
}

/// `s` starts with `p`.
pub open spec fn has_prefix(s: Seq<char>, p: Seq<char>) -> bool {
    p.len() <= s.len() && s.subrange(0, p.len() as int) == p
}

/// `s` with every leading repetition of `p` removed, as
/// `str::trim_start_matches` does for a non-empty pattern.
pub open spec fn strip_prefixes(s: Seq<char>, p: Seq<char>) -> Seq<char>
    decreases s.len(),
{
    if p.len() > 0 && has_prefix(s, p) {
        strip_prefixes(s.subrange(p.len() as int, s.len() as int), p)
    } else {
        s
    }
}

/// Whether the characters `cs[from..to]` are `pat`.
pub fn range_is(cs: &Vec<char>, from: usize, to: usize, pat: &[char]) -> (r: bool)
    requires
        from <= to <= cs@.len(),
    ensures
        r == (cs@.subrange(from as int, to as int) == pat@),
{
    if to - from != pat.len() {
        return false;
    }
    let r = matches_at(cs, pat, from);
    r
}

/// Whether `cs` starts with `pat`.
pub fn starts_with(cs: &Vec<char>, pat: &[char]) -> (r: bool)
    ensures
        r == has_prefix(cs@, pat@),
{
    matches_at(cs, pat, 0)
}

/// The position in `cs` after all leading repetitions of `pat`.
pub fn strip_prefixes_end(cs: &Vec<char>, pat: &[char]) -> (k: usize)
    requires
        pat@.len() > 0,
    ensures
        k <= cs@.len(),
        strip_prefixes(cs@, pat@) == cs@.subrange(k as int, cs@.len() as int),
{
    let n = cs.len();
    let mut k: usize = 0;
    assert(cs@.subrange(0, n as int) =~= cs@);
    while matches_at(cs, pat, k)
        invariant
            n == cs@.len(),
            pat@.len() > 0,
            k <= n,
            strip_prefixes(cs@.subrange(k as int, n as int), pat@) == strip_prefixes(cs@, pat@),
        decreases n - k,
    {
        let ghost t = cs@.subrange(k as int, n as int);
        assert(t.subrange(0, pat@.len() as int) =~= cs@.subrange(k as int, k + pat@.len()));
        assert(t.subrange(pat@.len() as int, t.len() as int) =~= cs@.subrange(k + pat@.len(), n as int));
        k = k + pat.len();
    }
    let ghost t = cs@.subrange(k as int, n as int);
    assert(!has_prefix(t, pat@)) by {
        if has_prefix(t, pat@) {
            assert(t.subrange(0, pat@.len() as int) =~= cs@.subrange(k as int, k + pat@.len()));
        }
    }
    k
}

/// Splitting `s` on `p` gives exactly two pieces: the text before the only
/// occurrence of `p` and the text after it.
pub open spec fn split_pair(s: Seq<char>, p: Seq<char>) -> Option<(Seq<char>, Seq<char>)> {
    match first_occurrence(s, p, 0) {
        Some(i) => if first_occurrence(s, p, i + p.len()) is None {
            Some((s.subrange(0, i), s.subrange(i + p.len(), s.len() as int)))
        } else {
            None
        },
        None => None,
    }
}

/// The text before and after the first occurrence of `p` in `s`.
pub open spec fn split_once(s: Seq<char>, p: Seq<char>) -> Option<(Seq<char>, Seq<char>)> {
    match first_occurrence(s, p, 0) {
        Some(i) => Some((s.subrange(0, i), s.subrange(i + p.len(), s.len() as int))),
        None => None,
    }
}

/// Splits `s` on `pat` when that gives exactly two pieces
/// (`s.split(pat).collect()` has length 2).
pub fn split_in_two<'a>(s: &'a str, pat: &[char]) -> (r: Option<(&'a str, &'a str)>)
    requires
        pat@.len() > 0,
    ensures
        match split_pair(s@, pat@) {
            Some((a, b)) => r matches Some((x, y)) && x@ == a && y@ == b,
            None => r is None,
        },
{
    let cs = chars_of(s);
    let n = cs.len();
    proof {
        lemma_first_occurrence(s@, pat@, 0);
    }
    match find_from(&cs, pat, 0) {
        Some(i) => {
            let j = i + pat.len();
            match find_from(&cs, pat, j) {
                Some(_) => None,
                None => Some((s.substring_char(0, i), s.substring_char(j, n))),
            }
        },
        None => None,
    }
}

/// Splits `s` at the first occurrence of `pat` (`str::split_once`).
pub fn split_at_first<'a>(s: &'a str, pat: &[char]) -> (r: Option<(&'a str, &'a str)>)
    requires
        pat@.len() > 0,
    ensures
        match split_once(s@, pat@) {
            Some((a, b)) => r matches Some((x, y)) && x@ == a && y@ == b,
            None => r is None,
        },
{
    let cs = chars_of(s);
    let n = cs.len();
    proof {
        lemma_first_occurrence(s@, pat@, 0);
    }
    match find_from(&cs, pat, 0) {
        Some(i) => Some((s.substring_char(0, i), s.substring_char(i + pat.len(), n))),
        None => None,
    }
}

/// Whether `pat` occurs in `s` (`str::contains`).
pub fn contains_pattern(s: &str, pat: &[char]) -> (r: bool)
    requires
        pat@.len() > 0,
    ensures
        r == (first_occurrence(s@, pat@, 0) is Some),
{
    let cs = chars_of(s);
    find_from(&cs, pat, 0).is_some()
}

} // verus!
