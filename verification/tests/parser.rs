use http_queue_lite::header::{HeaderKind, RequestHeader};
use http_queue_lite::parser::{parse_request, Phase, RequestParser};
use http_queue_lite::remote::RemoteAddr;
use http_queue_lite::request::ParseError;

fn peer() -> RemoteAddr {
    RemoteAddr { ip: "10.0.0.7".to_string(), port: 51234 }
}

#[test]
fn whole_request_is_parsed() {
    let input = b"GET /add?task=build HTTP/1.0\r\nHost: example.org\r\nUser-Agent: curl/8.0 (x86_64)\r\nAccept: */*\r\n\r\n";
    let info = parse_request(input, peer()).unwrap();
    assert_eq!(info.remote_ip, "10.0.0.7");
    assert_eq!(info.remote_port, 51234);
    assert_eq!(info.method, "GET");
    assert_eq!(info.request_uri, "/add?task=build");
    assert_eq!(info.protocol_version, "HTTP/1.0");
    assert_eq!(info.request_script, "/add");
    assert_eq!(info.query_string, "task=build");
    assert_eq!(info.get_argv.len(), 1);
    assert_eq!(info.get_argv.get("task").map(|v| v.as_str()), Some("build"));
    assert_eq!(info.header.host, "example.org");
    assert_eq!(info.header.user_agent, "curl/8.0 (x86_64)");
    assert_eq!(info.header.accept, "*/*");
}

#[test]
fn request_without_headers_is_parsed() {
    let info = parse_request(b"GET /get HTTP/1.0\r\n\r\n", peer()).unwrap();
    assert_eq!(info.request_script, "/get");
    assert_eq!(info.header.host, "");
    assert_eq!(info.header.user_agent, "");
    assert_eq!(info.header.accept, "");
}

#[test]
fn bytes_after_the_blank_line_are_ignored() {
    let info = parse_request(b"GET /get HTTP/1.0\r\n\r\nHost: late\r\nthis is no request", peer()).unwrap();
    assert_eq!(info.request_script, "/get");
    assert_eq!(info.header.host, "");
}

#[test]
fn last_occurrence_of_a_header_wins() {
    let info = parse_request(b"GET / HTTP/1.0\r\nHost: first\r\nHost: second\r\n\r\n", peer()).unwrap();
    assert_eq!(info.header.host, "second");
}

#[test]
fn unknown_headers_and_lines_without_space_are_tolerated() {
    let input = b"GET / HTTP/1.0\r\nX-Custom: 1\r\nnospace\r\nhost: lower\r\nAccept: text/plain\r\n\r\n";
    let info = parse_request(input, peer()).unwrap();
    assert_eq!(info.header.host, "");
    assert_eq!(info.header.accept, "text/plain");
}

#[test]
fn malformed_request_line_is_reported() {
    assert_eq!(parse_request(b"GET\r\n\r\n", peer()).err(), Some(ParseError::MalformedRequestLine));
    assert_eq!(parse_request(b"GET\r", peer()).err(), Some(ParseError::MalformedRequestLine));
    assert_eq!(parse_request(b"\r\n", peer()).err(), Some(ParseError::MalformedRequestLine));
}

#[test]
fn truncated_request_is_incomplete() {
    assert_eq!(parse_request(b"", peer()).err(), Some(ParseError::Incomplete));
    assert_eq!(parse_request(b"GET / HTTP/1.0", peer()).err(), Some(ParseError::Incomplete));
    assert_eq!(parse_request(b"GET / HTTP/1.0\r\n", peer()).err(), Some(ParseError::Incomplete));
    assert_eq!(parse_request(b"GET / HTTP/1.0\r\nHost: x\r\n", peer()).err(), Some(ParseError::Incomplete));
}

#[test]
fn lines_may_end_in_bare_carriage_returns() {
    let info = parse_request(b"GET /get HTTP/1.0\rHost: h\r\r", peer()).unwrap();
    assert_eq!(info.header.host, "h");
}

#[test]
fn parser_moves_through_its_phases() {
    let mut parser = RequestParser::new();
    assert_eq!(parser.phase(), Phase::RequestLine);
    assert!(!parser.is_done());
    for byte in b"GET /get HTTP/1.0".iter() {
        parser.feed(*byte);
        assert_eq!(parser.phase(), Phase::RequestLine);
    }
    parser.feed(13);
    assert_eq!(parser.phase(), Phase::Headers);
    for byte in b"\nHost: h\r\n".iter() {
        parser.feed(*byte);
        assert_eq!(parser.phase(), Phase::Headers);
    }
    parser.feed(13);
    assert_eq!(parser.phase(), Phase::Complete);
    assert!(parser.is_done());
    parser.feed(b'x');
    parser.feed(13);
    assert_eq!(parser.phase(), Phase::Complete);
    let info = parser.finish(peer()).unwrap();
    assert_eq!(info.header.host, "h");
    assert_eq!(info.method, "GET");
}

#[test]
fn parser_fails_at_the_end_of_a_malformed_request_line() {
    let mut parser = RequestParser::new();
    for byte in b"GET /only-two".iter() {
        parser.feed(*byte);
    }
    assert_eq!(parser.phase(), Phase::RequestLine);
    parser.feed(13);
    assert_eq!(parser.phase(), Phase::Failed);
    assert!(parser.is_done());
    parser.feed(b'a');
    assert_eq!(parser.phase(), Phase::Failed);
    assert_eq!(parser.finish(peer()).err(), Some(ParseError::MalformedRequestLine));
}

#[test]
fn unfinished_parser_reports_incomplete() {
    let mut parser = RequestParser::new();
    assert_eq!(RequestParser::new().finish(peer()).err(), Some(ParseError::Incomplete));
    for byte in b"GET / HTTP/1.0\r\nHost: x".iter() {
        parser.feed(*byte);
    }
    assert_eq!(parser.finish(peer()).err(), Some(ParseError::Incomplete));
}

#[test]
fn header_line_is_split_at_its_first_space() {
    let mut header = RequestHeader::new();
    header.apply_line("User-Agent: Mozilla/5.0 (X11; Linux)");
    assert_eq!(header.user_agent, "Mozilla/5.0 (X11; Linux)");
    assert_eq!(header.get(HeaderKind::UserAgent), "Mozilla/5.0 (X11; Linux)");
    header.apply_line("Host: a");
    header.apply_line("Accept: b");
    assert_eq!(header.get(HeaderKind::Host), "a");
    assert_eq!(header.get(HeaderKind::Accept), "b");
}

#[test]
fn recognised_name_without_value_clears_the_header() {
    let mut header = RequestHeader::new();
    header.apply_line("Host: a");
    header.apply_line("Host:");
    assert_eq!(header.host, "");
    header.set(HeaderKind::Host, "b".to_string());
    assert_eq!(header.host, "b");
    header.apply_line("Host:b");
    assert_eq!(header.host, "b");
    header.apply_line("Host");
    assert_eq!(header.host, "b");
}
