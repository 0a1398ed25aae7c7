use rust_api::request::{classify, get_id, parse_id, request_body, segment_of, Route};
use rust_api::user::id_string;
use rust_api::text::{contains_text, find_text, first_word_of, same_text, scan_text, Stop};

#[test]
fn classify_recognises_each_route() {
    assert_eq!(classify("POST /users HTTP/1.1\r\n\r\n{}"), Route::Create);
    assert_eq!(classify("GET /user/7 HTTP/1.1\r\n\r\n"), Route::ReadOne);
    assert_eq!(classify("GET /users HTTP/1.1\r\n\r\n"), Route::ReadAll);
    assert_eq!(classify("PUT /users/7 HTTP/1.1\r\n\r\n{}"), Route::Update);
    assert_eq!(classify("DELETE /users/7 HTTP/1.1\r\n\r\n"), Route::Delete);
}

#[test]
fn classify_takes_the_first_match() {
    // `/users/7` also holds `/users`, and a GET on it is a listing
    assert_eq!(classify("GET /users/7 HTTP/1.1\r\n\r\n"), Route::ReadAll);
    assert_eq!(classify("POST /users/7 HTTP/1.1\r\n\r\n"), Route::Create);
    assert_eq!(classify("GET /user/ HTTP/1.1\r\n\r\n"), Route::ReadOne);
}

#[test]
fn classify_rejects_everything_else() {
    assert_eq!(classify(""), Route::Unmatched);
    assert_eq!(classify("GET / HTTP/1.1\r\n\r\n"), Route::Unmatched);
    assert_eq!(classify("PUT /users HTTP/1.1\r\n\r\n"), Route::Unmatched);
    assert_eq!(classify("DELETE /users HTTP/1.1\r\n\r\n"), Route::Unmatched);
    assert_eq!(classify("PATCH /users/1 HTTP/1.1\r\n\r\n"), Route::Unmatched);
    assert_eq!(classify("POSTER /users HTTP/1.1\r\n\r\n"), Route::Unmatched);
    assert_eq!(classify(" POST /users HTTP/1.1\r\n\r\n"), Route::Unmatched);
    assert_eq!(classify("get /users HTTP/1.1\r\n\r\n"), Route::Unmatched);
    assert_eq!(classify("POST"), Route::Unmatched);
}

#[test]
fn classify_ignores_headers_and_body() {
    assert_eq!(
        classify("POST /items HTTP/1.1\r\nReferer: /users\r\n\r\n{\"name\":\"/users\"}"),
        Route::Unmatched
    );
    assert_eq!(
        classify("GET /other HTTP/1.1\r\nX: /user/1\r\n\r\n/users/"),
        Route::Unmatched
    );
    assert_eq!(
        classify("DELETE /users/3 HTTP/1.1\r\nHost: a\r\n\r\nanything at all"),
        Route::Delete
    );
}

#[test]
fn get_id_reads_the_third_piece() {
    assert_eq!(get_id("GET /user/1 HTTP/1.1\r\n\r\n"), "1");
    assert_eq!(get_id("PUT /users/42 HTTP/1.1\r\nHost: x\r\n\r\n{}"), "42");
    assert_eq!(get_id("DELETE /users/999 HTTP/1.1\r\n\r\n"), "999");
    assert_eq!(get_id("GET /user/abc HTTP/1.1\r\n\r\n"), "abc");
    assert_eq!(get_id("GET /user/12/extra HTTP/1.1"), "12");
}

#[test]
fn get_id_is_empty_without_a_third_piece() {
    assert_eq!(get_id(""), "");
    assert_eq!(get_id("GET"), "");
    assert_eq!(get_id("GET /users"), "");
    assert_eq!(get_id("GET /user/ HTTP/1.1"), "HTTP");
    assert_eq!(get_id("GET /user/"), "");
    assert_eq!(get_id("GET /user/   "), "");
}

#[test]
fn segment_of_cuts_at_slashes() {
    assert_eq!(segment_of("a/b/c", 0), "a");
    assert_eq!(segment_of("a/b/c", 1), "b");
    assert_eq!(segment_of("a/b/c", 2), "c");
    assert_eq!(segment_of("a/b/c", 3), "");
    assert_eq!(segment_of("a//c", 1), "");
    assert_eq!(segment_of("/", 1), "");
    assert_eq!(segment_of("", 0), "");
}

#[test]
fn parse_id_reads_decimal() {
    assert_eq!(parse_id("1"), Some(1));
    assert_eq!(parse_id("0"), Some(0));
    assert_eq!(parse_id("007"), Some(7));
    assert_eq!(parse_id("+7"), Some(7));
    assert_eq!(parse_id("-7"), Some(-7));
    assert_eq!(parse_id("-0"), Some(0));
    assert_eq!(parse_id("2147483647"), Some(i32::MAX));
    assert_eq!(parse_id("-2147483648"), Some(i32::MIN));
}

#[test]
fn parse_id_refuses_what_is_no_identifier() {
    assert_eq!(parse_id(""), None);
    assert_eq!(parse_id("-"), None);
    assert_eq!(parse_id("+"), None);
    assert_eq!(parse_id("abc"), None);
    assert_eq!(parse_id("12a"), None);
    assert_eq!(parse_id("1 "), None);
    assert_eq!(parse_id("--1"), None);
    assert_eq!(parse_id("2147483648"), None);
    assert_eq!(parse_id("-2147483649"), None);
    assert_eq!(parse_id("99999999999999999999999999"), None);
    assert_eq!(parse_id("99999999999999999999999999x"), None);
}

#[test]
fn parse_id_agrees_with_std() {
    for text in ["5", "-5", "+5", "", "x", "2147483647", "2147483648", "-2147483648", "00", "1_0"] {
        assert_eq!(parse_id(text), text.parse::<i32>().ok());
    }
}

#[test]
fn request_body_follows_the_first_blank_line() {
    assert_eq!(request_body("POST /users HTTP/1.1\r\nHost: x\r\n\r\n{\"a\":1}"), "{\"a\":1}");
    assert_eq!(request_body("A\r\n\r\nB\r\n\r\nC"), "B\r\n\r\nC");
    assert_eq!(request_body("A\r\n\r\n"), "");
    assert_eq!(request_body("\r\n\r\n"), "");
    assert_eq!(request_body("\r\n\r\n\r\n"), "\r\n");
}

#[test]
fn request_body_is_the_whole_request_without_a_blank_line() {
    assert_eq!(request_body("no separator here"), "no separator here");
    assert_eq!(request_body(""), "");
    assert_eq!(request_body("a\r\nb\n\nc"), "a\r\nb\n\nc");
}

#[test]
fn scan_text_stops_where_asked() {
    assert_eq!(scan_text("ab cd", 0, Stop::Space), 2);
    assert_eq!(scan_text("ab cd", 2, Stop::Word), 3);
    assert_eq!(scan_text("ab/cd", 0, Stop::Slash), 2);
    assert_eq!(scan_text("abcd", 0, Stop::Slash), 4);
    assert_eq!(scan_text("abcd", 9, Stop::Slash), 4);
    assert_eq!(scan_text("a\u{3000}b", 0, Stop::Space), 1);
    assert_eq!(scan_text("\u{e9}\tb", 0, Stop::Space), 1);
}

#[test]
fn find_text_gives_the_first_place() {
    assert_eq!(find_text("abcabc", "bc"), Some(1));
    assert_eq!(find_text("abcabc", "abc"), Some(0));
    assert_eq!(find_text("abcabc", "cab"), Some(2));
    assert_eq!(find_text("abcabc", "x"), None);
    assert_eq!(find_text("ab", "abc"), None);
    assert_eq!(find_text("ab", ""), Some(0));
    assert_eq!(find_text("", ""), Some(0));
    assert_eq!(find_text("h\u{e9}llo", "llo"), Some(2));
}

#[test]
fn contains_and_same_text() {
    assert!(contains_text("/users/1", "/users"));
    assert!(!contains_text("/user", "/users"));
    assert!(same_text("GET", "GET"));
    assert!(!same_text("GET", "GE"));
    assert!(!same_text("GE", "GET"));
    assert!(!same_text("GET", "PUT"));
    assert!(same_text("", ""));
}

#[test]
fn first_word_skips_leading_space() {
    assert_eq!(first_word_of("  hello  world"), "hello");
    assert_eq!(first_word_of("1 HTTP"), "1");
    assert_eq!(first_word_of("   "), "");
    assert_eq!(first_word_of(""), "");
    assert_eq!(first_word_of("x"), "x");
}

#[test]
fn identifier_text_reads_back() {
    for v in [0, 1, -1, 9, 10, 42, -305, i32::MAX, i32::MIN] {
        assert_eq!(parse_id(&id_string(v)), Some(v));
    }
}

#[test]
fn route_does_not_depend_on_what_follows_the_path() {
    let heads = [
        "POST /users ",
        "GET /user/3 ",
        "GET /users\r",
        "PUT /users/3\t",
        "DELETE /users/3 ",
        "HEAD /users ",
        "GET /nothing ",
    ];
    let tails = ["", "HTTP/1.1\r\n\r\n", "/users/ /user/ POST", "HTTP/1.1\r\nA: /user/1\r\n\r\n{}"];
    for head in heads.iter() {
        for tail in tails.iter() {
            let whole = format!("{}{}", head, tail);
            assert_eq!(classify(&whole), classify(head));
        }
    }
}
