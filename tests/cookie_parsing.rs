use web2pdf::cookie::{
    parse_cookie_file, parse_cookie_line, split_chars, split_lines, CookieFileParseError, SameSite,
};

#[test]
fn single_line_parses_to_one_record() {
    let cookies = parse_cookie_file("example.com\tTRUE\t/\tFALSE\t1700000000\tsid\tabc123").unwrap();
    assert_eq!(cookies.len(), 1);
    let c = &cookies[0];
    assert_eq!(c.domain, "example.com");
    assert_eq!(c.same_site, SameSite::Strict);
    assert_eq!(c.path, "/");
    assert!(!c.http_only);
    assert_eq!(c.expires.parse::<f64>().unwrap(), 1700000000.0);
    assert_eq!(c.name, "sid");
    assert_eq!(c.value, "abc123");
}

#[test]
fn records_follow_line_order_and_skip_comments() {
    let text = "# Netscape HTTP Cookie File\n\
                a.test\tFALSE\t/x\tTRUE\t1\tn1\tv1\n\
                # a comment\twith\ttabs\n\
                b.test\tTRUE\t/\tFALSE\t2\tn2\tv2\n";
    let cookies = parse_cookie_file(text).unwrap();
    assert_eq!(cookies.len(), 2);
    assert_eq!(cookies[0].domain, "a.test");
    assert_eq!(cookies[0].same_site, SameSite::Lax);
    assert_eq!(cookies[0].path, "/x");
    assert!(cookies[0].http_only);
    assert_eq!(cookies[0].expires, "1");
    assert_eq!(cookies[1].domain, "b.test");
    assert_eq!(cookies[1].name, "n2");
    assert_eq!(cookies[1].value, "v2");
}

#[test]
fn http_only_marker_forces_http_only() {
    let cookies =
        parse_cookie_file("#HttpOnly_secure.test\tFALSE\t/\tFALSE\t0\ttoken\tSECRET-REDACTED").unwrap();
    assert_eq!(cookies.len(), 1);
    assert_eq!(cookies[0].domain, "secure.test");
    assert!(cookies[0].http_only);
    assert_eq!(cookies[0].value, "SECRET-REDACTED");
}

#[test]
fn crlf_line_endings_are_trimmed() {
    let cookies = parse_cookie_file("a.test\tTRUE\t/\tTRUE\t5\tk\tv\r\nb.test\tFALSE\t/\tFALSE\t6\tk2\tv2\r\n").unwrap();
    assert_eq!(cookies.len(), 2);
    assert_eq!(cookies[0].value, "v");
    assert_eq!(cookies[1].value, "v2");
}

#[test]
fn empty_file_has_no_cookies() {
    assert_eq!(parse_cookie_file("").unwrap().len(), 0);
    assert_eq!(parse_cookie_file("# only a comment\n").unwrap().len(), 0);
}

#[test]
fn wrong_field_count_fails_whole_file() {
    let text = "a.test\tTRUE\t/\tTRUE\t5\tk\tv\nbroken\tline\n";
    let err = parse_cookie_file(text).unwrap_err();
    assert_eq!(
        err.error_message,
        "Error parsing cookie line (Wrong number of arguments): 'broken\tline'"
    );
    assert_eq!(
        err.message(),
        "Error parsing Cookie file: Error parsing cookie line (Wrong number of arguments): 'broken\tline'"
    );
}

#[test]
fn too_many_fields_fail() {
    assert!(parse_cookie_file("a\tb\tc\td\te\tf\tg\th").is_err());
    assert!(parse_cookie_line("a\tb\tc\td\te\tf").is_err());
}

#[test]
fn marker_is_stripped_in_error_message() {
    let err = parse_cookie_file("#HttpOnly_x\ty").unwrap_err();
    assert_eq!(
        err.error_message,
        "Error parsing cookie line (Wrong number of arguments): 'x\ty'"
    );
}

#[test]
fn single_lines() {
    assert!(parse_cookie_line("# comment").unwrap().is_none());
    assert!(parse_cookie_line("").is_err());
    let c = parse_cookie_line("d\tTRUE\t/\tTRUE\t7\tn\tv").unwrap().unwrap();
    assert_eq!(c.same_site, SameSite::Strict);
    assert!(c.http_only);
}

#[test]
fn error_constructor_keeps_message() {
    let e = CookieFileParseError::new("boom".to_string());
    assert_eq!(e.error_message, "boom");
    assert_eq!(e.message(), "Error parsing Cookie file: boom");
}

#[test]
fn splitting_helpers() {
    assert_eq!(split_chars("a\tb\t\tc", '\t'), vec!["a", "b", "", "c"]);
    assert_eq!(split_chars("", '\t'), vec![""]);
    assert_eq!(split_lines("x\r\ny\nz"), vec!["x", "y", "z"]);
    assert_eq!(split_lines("x\n\ny\n"), vec!["x", "", "y"]);
    assert_eq!(split_lines("a\r"), vec!["a\r"]);
    assert!(split_lines("").is_empty());
}

#[test]
fn blank_line_fails_whole_file() {
    let err = parse_cookie_file("example.com\tTRUE\t/\tFALSE\t1700000000\tsid\tabc123\n\n")
        .unwrap_err();
    assert_eq!(
        err.error_message,
        "Error parsing cookie line (Wrong number of arguments): ''"
    );
    assert!(parse_cookie_file("\n").is_err());
    assert!(parse_cookie_file("\na.test\tTRUE\t/\tTRUE\t5\tk\tv").is_err());
    let e = parse_cookie_line("").unwrap_err();
    assert_eq!(e.error_message, "Error parsing cookie line (Wrong number of arguments): ''");
}

#[test]
fn final_line_feed_is_not_a_blank_line() {
    let cookies = parse_cookie_file("a.test\tTRUE\t/\tTRUE\t5\tk\tv\n").unwrap();
    assert_eq!(cookies.len(), 1);
}
