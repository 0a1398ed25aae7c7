//! Reading a raw request: which operation it asks for, which record it
//! targets, and where its payload starts.

use crate::text::{
    contains, contains_text, find, find_text, first_word, first_word_of, lemma_find, lemma_scan,
    lemma_scan_prefix, same_text, scan, scan_text, Stop,
};
use crate::user::{decimal, digit_char, int_text};
use vstd::prelude::*;
use vstd::string::*;

verus! {

/// The operation a request asks for.
#[derive(Clone, Copy, Debug, PartialEq, Eq, Structural)]
pub enum Route {
    Create,
    ReadOne,
    ReadAll,
    Update,
    Delete,
    Unmatched,
}

/// Index, among the pieces a request falls into when cut at every `/`, of
/// the piece that starts with the record identifier.
pub const ID_SEGMENT: usize = 2;

/// Largest magnitude an identifier can have: that of `i32::MIN`.
pub const ID_LIMIT: i64 = 2147483648;

/// The method token: everything before the first whitespace.
pub open spec fn method_of(s: Seq<char>) -> Seq<char> {
    s.take(scan(s, 0, Stop::Space))
}

/// The path token: the first word after the method token.
pub open spec fn path_of(s: Seq<char>) -> Seq<char> {
    first_word(s.skip(scan(s, 0, Stop::Space)))
}

/// Routing table, first match wins.
pub open spec fn route_of(s: Seq<char>) -> Route {
    let method = method_of(s);
    let path = path_of(s);
    if method == "POST"@ && contains(path, "/users"@) {
        Route::Create
    } else if method == "GET"@ && contains(path, "/user/"@) {
        Route::ReadOne
    } else if method == "GET"@ && contains(path, "/users"@) {
        Route::ReadAll
    } else if method == "PUT"@ && contains(path, "/users/"@) {
        Route::Update
    } else if method == "DELETE"@ && contains(path, "/users/"@) {
        Route::Delete
    } else {
        Route::Unmatched
    }
}

/// The `n`-th of the pieces that `s` falls into when cut at every `/`;
/// empty when there are fewer.
pub open spec fn segment(s: Seq<char>, n: nat) -> Seq<char>
    decreases n,
{
    let cut = scan(s, 0, Stop::Slash);
    if n == 0 {
        s.take(cut)
    } else if cut >= s.len() {
        Seq::empty()
    } else {
        segment(s.skip(cut + 1), (n - 1) as nat)
    }
}

/// The text of the identifier a request carries.
pub open spec fn id_text(s: Seq<char>) -> Seq<char> {
    first_word(segment(s, ID_SEGMENT as nat))
}

/// The blank line that ends the headers.
pub open spec fn separator() -> Seq<char> {
    seq!['\r', '\n', '\r', '\n']
}

/// What follows the first blank line; the whole request when it has none.
pub open spec fn body_of(s: Seq<char>) -> Seq<char> {
    match find(s, separator(), 0) {
        Some(i) => s.skip(i + 4),
        None => s,
    }
}

/// An ASCII decimal digit.
pub open spec fn is_digit(c: char) -> bool {
    '0' as u32 <= c as u32 <= '9' as u32
}

/// Every character is a decimal digit.
pub open spec fn all_digits(s: Seq<char>) -> bool {
    forall|i: int| 0 <= i < s.len() ==> is_digit(#[trigger] s[i])
}

/// The number that a run of decimal digits writes.
pub open spec fn digits_value(s: Seq<char>) -> int
    decreases s.len(),
{
    if s.len() == 0 {
        0
    } else {
        digits_value(s.drop_last()) * 10 + (s.last() as u32 - '0' as u32)
    }
}

/// The integer that `s` writes: an optional sign, then one digit or more.
pub open spec fn signed_value(s: Seq<char>) -> Option<int> {
    let signed = s.len() > 0 && (s[0] == '-' || s[0] == '+');
    let digits = if signed { s.skip(1) } else { s };
    if digits.len() == 0 || !all_digits(digits) {
        None
    } else if signed && s[0] == '-' {
        Some(-digits_value(digits))
    } else {
        Some(digits_value(digits))
    }
}

/// The identifier that `s` writes, if it writes one that fits.
pub open spec fn id_of(s: Seq<char>) -> Option<i32> {
    match signed_value(s) {
        Some(v) => if i32::MIN <= v <= i32::MAX { Some(v as i32) } else { None },
        None => None,
    }
}

/// The request holds a method token and a path token, and whitespace ends
/// the path token.
pub open spec fn has_request_line(s: Seq<char>) -> bool {
    let rest = s.skip(scan(s, 0, Stop::Space));
    scan(rest, scan(rest, 0, Stop::Word), Stop::Space) < rest.len()
}

/// Requests with the same method and path tokens take the same route.
pub proof fn lemma_route_by_tokens(a: Seq<char>, b: Seq<char>)
    requires
        method_of(a) == method_of(b),
        path_of(a) == path_of(b),
    ensures
        route_of(a) == route_of(b),
{
}

/// Once whitespace has ended the path token, nothing that follows, headers
/// or payload, changes the tokens or the route.
pub proof fn lemma_route_ignores_rest(head: Seq<char>, tail: Seq<char>)
    requires
        has_request_line(head),
    ensures
        method_of(head + tail) == method_of(head),
        path_of(head + tail) == path_of(head),
        route_of(head + tail) == route_of(head),
{
    let cut = scan(head, 0, Stop::Space);
    lemma_scan(head, 0, Stop::Space);
    let rest = head.skip(cut);
    let start = scan(rest, 0, Stop::Word);
    lemma_scan(rest, 0, Stop::Word);
    lemma_scan(rest, start, Stop::Space);
    let end = scan(rest, start, Stop::Space);
    lemma_scan_prefix(head, tail, 0, Stop::Space);
    assert((head + tail).take(cut) =~= head.take(cut));
    assert((head + tail).skip(cut) =~= rest + tail);
    lemma_scan_prefix(rest, tail, 0, Stop::Word);
    lemma_scan_prefix(rest, tail, start, Stop::Space);
    assert((rest + tail).subrange(start, end) =~= rest.subrange(start, end));
}

/// The decimal digits of a number are digits, at least one, and write that
/// number.
pub proof fn lemma_decimal(n: nat)
    ensures
        decimal(n).len() >= 1,
        all_digits(decimal(n)),
        digits_value(decimal(n)) == n,
    decreases n,
{
    let text = decimal(n);
    if n < 10 {
        assert(text.drop_last() =~= Seq::<char>::empty());
        assert(digits_value(text.drop_last()) == 0);
        assert(text.last() == digit_char(n as int));
    } else {
        lemma_decimal(n / 10);
        assert(text.drop_last() =~= decimal(n / 10));
        assert(text.last() == digit_char((n % 10) as int));
    }
}

/// An identifier written in decimal reads back as itself.
pub proof fn lemma_id_round_trip(v: i32)
    ensures
        id_of(int_text(v as int)) == Some(v),
{
    let text = int_text(v as int);
    if v < 0 {
        let digits = decimal((-v) as nat);
        lemma_decimal((-v) as nat);
        assert(text[0] == '-');
        assert(text.skip(1) =~= digits);
    } else {
        lemma_decimal(v as nat);
        assert(is_digit(text[0]));
    }
}

/// Finds the route of a request from its method and path tokens.
pub fn classify(request: &str) -> (route: Route)
    ensures
        route == route_of(request@),
{
    let len: usize = request.unicode_len();
    let cut: usize = scan_text(request, 0, Stop::Space);
    let method = request.substring_char(0, cut);
    let path = first_word_of(request.substring_char(cut, len));
    if same_text(method, "POST") && contains_text(path, "/users") {
        Route::Create
    } else if same_text(method, "GET") && contains_text(path, "/user/") {
        Route::ReadOne
    } else if same_text(method, "GET") && contains_text(path, "/users") {
        Route::ReadAll
    } else if same_text(method, "PUT") && contains_text(path, "/users/") {
        Route::Update
    } else if same_text(method, "DELETE") && contains_text(path, "/users/") {
        Route::Delete
    } else {
        Route::Unmatched
    }
}

/// The `n`-th of the pieces that `s` falls into when cut at every `/`.
pub fn segment_of<'a>(s: &'a str, n: usize) -> (r: &'a str)
    ensures
        r@ == segment(s@, n as nat),
    decreases n,
{
    let len: usize = s.unicode_len();
    let cut: usize = scan_text(s, 0, Stop::Slash);
    if n == 0 {
        s.substring_char(0, cut)
    } else if cut >= len {
        let none = s.substring_char(0, 0);
        assert(none@ =~= Seq::<char>::empty());
        none
    } else {
        segment_of(s.substring_char(cut + 1, len), n - 1)
    }
}

/// The identifier text of a request: the first word of the piece that
/// follows the second `/`.
pub fn get_id(request: &str) -> (id: &str)
    ensures
        id@ == id_text(request@),
{
    first_word_of(segment_of(request, ID_SEGMENT))
}

/// The payload of a request.
pub fn request_body(request: &str) -> (body: &str)
    ensures
        body@ == body_of(request@),
{
    proof {
        reveal_strlit("\r\n\r\n");
        assert("\r\n\r\n"@ =~= separator());
        lemma_find(request@, separator(), 0);
    }
    let len: usize = request.unicode_len();
    match find_text(request, "\r\n\r\n") {
        Some(i) => request.substring_char(i + 4, len),
        None => request,
    }
}

/// Reads a decimal identifier: an optional sign and digits, nothing else,
/// and a value that fits in 32 bits.
pub fn parse_id(text: &str) -> (r: Option<i32>)
    ensures
        r == id_of(text@),
{
    let n: usize = text.unicode_len();
    if n == 0 {
        return None;
    }
    let first = text.get_char(0);
    let signed = first == '-' || first == '+';
    let start: usize = if signed { 1 } else { 0 };
    if start == n {
        return None;
    }
    let ghost digits = text@.skip(start as int);
    let mut acc: i64 = 0;
    let mut over = false;
    let mut i: usize = start;
    assert(digits.take(0) =~= Seq::<char>::empty());
    assert(text@.skip(0) =~= text@);
    while i < n
        invariant
            start <= i <= n,
            n == text@.len(),
            digits == text@.skip(start as int),
            digits == if signed { text@.skip(1) } else { text@ },
            signed == (text@[0] == '-' || text@[0] == '+'),
            forall|j: int| 0 <= j < i - start ==> is_digit(#[trigger] digits[j]),
            over ==> digits_value(digits.take(i - start)) > ID_LIMIT,
            !over ==> acc == digits_value(digits.take(i - start)) && 0 <= acc <= ID_LIMIT,
        decreases n - i,
    {
        let c: u32 = text.get_char(i) as u32;
        if c < '0' as u32 || c > '9' as u32 {
            assert(!is_digit(digits[i - start]));
            return None;
        }
        let d: i64 = (c - '0' as u32) as i64;
        proof {
            let next = digits.take(i + 1 - start);
            assert(next.drop_last() =~= digits.take(i - start));
            assert(next.last() == digits[i - start]);
        }
        if !over {
            acc = acc * 10 + d;
            if acc > ID_LIMIT {
                over = true;
            }
        }
        i += 1;
    }
    assert(digits.take(n - start) =~= digits);
    if over {
        None
    } else if first == '-' {
        Some((-acc) as i32)
    } else if acc == ID_LIMIT {
        None
    } else {
        Some(acc as i32)
    }
}

} // verus!
