//! Scanning primitives on character sequences: whitespace, delimiters and
//! substring search.

use vstd::prelude::*;
use vstd::string::*;

verus! {

/// What a scan is looking for.
#[derive(Clone, Copy, Debug)]
pub enum Stop {
    /// The first whitespace character.
    Space,
    /// The first character that is not whitespace.
    Word,
    /// The first `/`.
    Slash,
}

/// Unicode whitespace: the characters with the `White_Space` property.
pub open spec fn is_space(c: char) -> bool {
    let n = c as u32;
    ||| 0x09 <= n <= 0x0d
    ||| n == 0x20
    ||| n == 0x85
    ||| n == 0xa0
    ||| n == 0x1680
    ||| 0x2000 <= n <= 0x200a
    ||| n == 0x2028
    ||| n == 0x2029
    ||| n == 0x202f
    ||| n == 0x205f
    ||| n == 0x3000
}

/// The character `c` ends a scan of this kind.
pub open spec fn stops(kind: Stop, c: char) -> bool {
    match kind {
        Stop::Space => is_space(c),
        Stop::Word => !is_space(c),
        Stop::Slash => c == '/',
    }
}

/// The first index at or after `from` whose character stops the scan, or the
/// length of `s` when there is none.
pub open spec fn scan(s: Seq<char>, from: int, kind: Stop) -> int
    decreases s.len() - from,
{
    if from < 0 || from >= s.len() {
        s.len() as int
    } else if stops(kind, s[from]) {
        from
    } else {
        scan(s, from + 1, kind)
    }
}

/// `pat` stands in `s` at index `i`.
pub open spec fn occurs_at(s: Seq<char>, pat: Seq<char>, i: int) -> bool {
    0 <= i && i + pat.len() <= s.len() && s.subrange(i, i + pat.len()) == pat
}

/// The first index at or after `from` at which `pat` stands in `s`.
pub open spec fn find(s: Seq<char>, pat: Seq<char>, from: int) -> Option<int>
    decreases s.len() + 1 - from,
{
    if from < 0 || from + pat.len() > s.len() {
        None
    } else if occurs_at(s, pat, from) {
        Some(from)
    } else {
        find(s, pat, from + 1)
    }
}

/// `pat` stands somewhere in `s`.
pub open spec fn contains(s: Seq<char>, pat: Seq<char>) -> bool {
    find(s, pat, 0).is_some()
}

/// The first whitespace-delimited word of `s`; empty when `s` has none.
pub open spec fn first_word(s: Seq<char>) -> Seq<char> {
    let start = scan(s, 0, Stop::Word);
    s.subrange(start, scan(s, start, Stop::Space))
}

/// A scan started inside the sequence ends inside it, on a stopping
/// character unless it ran to the end, and passes over none.
pub proof fn lemma_scan(s: Seq<char>, from: int, kind: Stop)
    requires
        0 <= from <= s.len(),
    ensures
        from <= scan(s, from, kind) <= s.len(),
        scan(s, from, kind) < s.len() ==> stops(kind, s[scan(s, from, kind)]),
        forall|i: int| from <= i < scan(s, from, kind) ==> !stops(kind, #[trigger] s[i]),
    decreases s.len() - from,
{
    if from < s.len() && !stops(kind, s[from]) {
        lemma_scan(s, from + 1, kind);
    }
}

/// `find` returns the least index at which the pattern stands, and nothing
/// only when it stands nowhere from `from` on.
pub proof fn lemma_find(s: Seq<char>, pat: Seq<char>, from: int)
    requires
        0 <= from,
    ensures
        match find(s, pat, from) {
            Some(i) => from <= i && occurs_at(s, pat, i) && forall|j: int|
                from <= j < i ==> !occurs_at(s, pat, j),
            None => forall|j: int| from <= j ==> !occurs_at(s, pat, j),
        },
    decreases s.len() + 1 - from,
{
    if from + pat.len() <= s.len() && !occurs_at(s, pat, from) {
        lemma_find(s, pat, from + 1);
    }
}

/// A scan that stops inside `s` stops at the same place whatever follows
/// `s`.
pub proof fn lemma_scan_prefix(s: Seq<char>, tail: Seq<char>, from: int, kind: Stop)
    requires
        0 <= from,
        scan(s, from, kind) < s.len(),
    ensures
        scan(s + tail, from, kind) == scan(s, from, kind),
    decreases s.len() - from,
{
    if from < s.len() {
        assert((s + tail)[from] == s[from]);
        if !stops(kind, s[from]) {
            lemma_scan_prefix(s, tail, from + 1, kind);
        }
    }
}

/// Tells whether `c` is whitespace.
pub fn is_space_char(c: char) -> (r: bool)
    ensures
        r == is_space(c),
{
    let n: u32 = c as u32;
    (0x09 <= n && n <= 0x0d) || n == 0x20 || n == 0x85 || n == 0xa0 || n == 0x1680 || (0x2000 <= n
        && n <= 0x200a) || n == 0x2028 || n == 0x2029 || n == 0x202f || n == 0x205f || n == 0x3000
}

/// Tells whether `c` ends a scan of this kind.
pub fn stops_at(kind: Stop, c: char) -> (r: bool)
    ensures
        r == stops(kind, c),
{
    match kind {
        Stop::Space => is_space_char(c),
        Stop::Word => !is_space_char(c),
        Stop::Slash => c == '/',
    }
}

/// Scans `s` from the character index `from` and returns the index at which
/// the scan stops: the length of `s` when nothing stops it, or when `from`
/// lies beyond the end.
pub fn scan_text(s: &str, from: usize, kind: Stop) -> (r: usize)
    ensures
        r == scan(s@, from as int, kind),
        r <= s@.len(),
        from <= s@.len() ==> from <= r,
{
    let n: usize = s.unicode_len();
    if from >= n {
        return n;
    }
    let mut i: usize = from;
    while i < n
        invariant
            from <= i <= n,
            n == s@.len(),
            scan(s@, from as int, kind) == scan(s@, i as int, kind),
        decreases n - i,
    {
        let c = s.get_char(i);
        if stops_at(kind, c) {
            return i;
        }
        i += 1;
    }
    i
}

/// Tells whether `pat` stands in `s` at the character index `at`.
pub fn occurs(s: &str, pat: &str, at: usize) -> (r: bool)
    ensures
        r == occurs_at(s@, pat@, at as int),
{
    let n: usize = s.unicode_len();
    let m: usize = pat.unicode_len();
    if at > n || m > n - at {
        return false;
    }
    let mut k: usize = 0;
    while k < m
        invariant
            k <= m,
            at + m <= n,
            n == s@.len(),
            m == pat@.len(),
            forall|j: int| 0 <= j < k ==> s@[at + j] == pat@[j],
        decreases m - k,
    {
        if s.get_char(at + k) != pat.get_char(k) {
            assert(s@.subrange(at as int, at + m)[k as int] == s@[at + k]);
            return false;
        }
        k += 1;
    }
    assert(s@.subrange(at as int, at + m) =~= pat@);
    true
}

/// The first character index at which `pat` stands in `s`.
pub fn find_text(s: &str, pat: &str) -> (r: Option<usize>)
    ensures
        match r {
            Some(i) => find(s@, pat@, 0) == Some(i as int),
            None => find(s@, pat@, 0) == None::<int>,
        },
{
    let n: usize = s.unicode_len();
    let m: usize = pat.unicode_len();
    if m > n {
        return None;
    }
    let mut i: usize = 0;
    while i < n - m
        invariant
            i <= n - m,
            m <= n,
            n == s@.len(),
            m == pat@.len(),
            find(s@, pat@, 0) == find(s@, pat@, i as int),
        decreases n - m - i,
    {
        if occurs(s, pat, i) {
            return Some(i);
        }
        i += 1;
    }
    if occurs(s, pat, i) {
        Some(i)
    } else {
        assert(find(s@, pat@, i + 1) == None::<int>);
        None
    }
}

/// Tells whether `pat` stands somewhere in `s`.
pub fn contains_text(s: &str, pat: &str) -> (r: bool)
    ensures
        r == contains(s@, pat@),
{
    find_text(s, pat).is_some()
}

/// Tells whether two texts hold the same characters.
pub fn same_text(a: &str, b: &str) -> (r: bool)
    ensures
        r == (a@ == b@),
{
    assert(a@.subrange(0, a@.len() as int) =~= a@);
    a.unicode_len() == b.unicode_len() && occurs(a, b, 0)
}

/// The first whitespace-delimited word of `s`.
pub fn first_word_of(s: &str) -> (r: &str)
    ensures
        r@ == first_word(s@),
{
    let start: usize = scan_text(s, 0, Stop::Word);
    let end: usize = scan_text(s, start, Stop::Space);
    s.substring_char(start, end)
}

} // verus!
