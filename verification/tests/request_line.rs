use http_queue_lite::request::{parse_query, parse_request_line, ParseError};

#[test]
fn request_line_round_trip() {
    let line = parse_request_line("GET /add?msg=hello&x=1 HTTP/1.0").unwrap();
    assert_eq!(line.method, "GET");
    assert_eq!(line.request_uri, "/add?msg=hello&x=1");
    assert_eq!(line.protocol_version, "HTTP/1.0");
    assert_eq!(line.request_script, "/add");
    assert_eq!(line.query_string, "msg=hello&x=1");
    assert_eq!(line.get_argv.len(), 2);
    assert_eq!(line.get_argv.get("msg").map(|v| v.as_str()), Some("hello"));
    assert_eq!(line.get_argv.get("x").map(|v| v.as_str()), Some("1"));
}

#[test]
fn request_line_with_one_token_is_malformed() {
    assert_eq!(parse_request_line("GET").err(), Some(ParseError::MalformedRequestLine));
}

#[test]
fn request_line_with_two_tokens_is_malformed() {
    assert_eq!(parse_request_line("GET /add").err(), Some(ParseError::MalformedRequestLine));
}

#[test]
fn empty_request_line_is_malformed() {
    assert_eq!(parse_request_line("").err(), Some(ParseError::MalformedRequestLine));
}

#[test]
fn request_line_without_query_has_no_parameters() {
    let line = parse_request_line("GET /get HTTP/1.0").unwrap();
    assert_eq!(line.request_script, "/get");
    assert_eq!(line.query_string, "");
    assert_eq!(line.get_argv.len(), 0);
}

#[test]
fn empty_query_gives_one_empty_parameter() {
    let line = parse_request_line("GET /add? HTTP/1.0").unwrap();
    assert_eq!(line.request_script, "/add");
    assert_eq!(line.query_string, "");
    assert_eq!(line.get_argv.len(), 1);
    assert_eq!(line.get_argv.get("").map(|v| v.as_str()), Some(""));
}

#[test]
fn tokens_after_the_third_are_ignored() {
    let line = parse_request_line("GET /get HTTP/1.0 extra words").unwrap();
    assert_eq!(line.method, "GET");
    assert_eq!(line.request_uri, "/get");
    assert_eq!(line.protocol_version, "HTTP/1.0");
}

#[test]
fn two_spaces_in_a_row_make_an_empty_token() {
    let line = parse_request_line("GET  /get HTTP/1.0").unwrap();
    assert_eq!(line.method, "GET");
    assert_eq!(line.request_uri, "");
    assert_eq!(line.protocol_version, "/get");
    assert_eq!(line.request_script, "");
}

#[test]
fn target_is_split_at_its_first_question_mark() {
    let line = parse_request_line("GET /add?a=1?b=2 HTTP/1.0").unwrap();
    assert_eq!(line.request_script, "/add");
    assert_eq!(line.query_string, "a=1?b=2");
    assert_eq!(line.get_argv.get("a").map(|v| v.as_str()), Some("1?b=2"));
}

#[test]
fn pair_is_split_at_its_first_equals_sign() {
    let params = parse_query("a=b=c&d");
    assert_eq!(params.len(), 2);
    assert_eq!(params.get("a").map(|v| v.as_str()), Some("b=c"));
    assert_eq!(params.get("d").map(|v| v.as_str()), Some(""));
}

#[test]
fn later_duplicate_key_replaces_earlier_one() {
    let params = parse_query("k=1&other=x&k=2");
    assert_eq!(params.len(), 2);
    assert_eq!(params.get("k").map(|v| v.as_str()), Some("2"));
    assert_eq!(params.get("other").map(|v| v.as_str()), Some("x"));
}

#[test]
fn empty_segments_are_entered_under_the_empty_key() {
    let params = parse_query("a=1&&b=2");
    assert_eq!(params.len(), 3);
    assert_eq!(params.get("").map(|v| v.as_str()), Some(""));
    assert!(params.get("missing").is_none());
}
