use http_queue_lite::line::{read_line, LineReader};

#[test]
fn line_ends_at_carriage_return() {
    assert_eq!(read_line(b"GET / HTTP/1.0\r\nHost: x\r\n"), Some(("GET / HTTP/1.0".to_string(), 15)));
}

#[test]
fn carriage_return_at_once_gives_an_empty_line() {
    assert_eq!(read_line(b"\rrest"), Some((String::new(), 1)));
}

#[test]
fn line_feeds_are_dropped_wherever_they_stand() {
    assert_eq!(read_line(b"\na\nb\n\nc\r"), Some(("abc".to_string(), 8)));
}

#[test]
fn no_line_without_carriage_return() {
    assert_eq!(read_line(b"no end in sight\n"), None);
    assert_eq!(read_line(b""), None);
}

#[test]
fn bytes_become_the_characters_with_their_code() {
    assert_eq!(read_line(&[0x41, 0xe9, 0x00, 0xff, 13]), Some(("A\u{e9}\u{0}\u{ff}".to_string(), 5)));
}

#[test]
fn reader_hands_out_a_line_at_each_carriage_return() {
    let mut reader = LineReader::new();
    let mut lines: Vec<String> = Vec::new();
    for byte in b"one\r\ntwo\r\n\r\n".iter() {
        if let Some(line) = reader.push(*byte) {
            lines.push(line);
        }
    }
    assert_eq!(lines, vec!["one".to_string(), "two".to_string(), String::new()]);
}

#[test]
fn reader_agrees_with_read_line() {
    let input = b"\nUser-Agent: t\xe9st\n\rtail";
    let mut reader = LineReader::new();
    let mut first: Option<(String, usize)> = None;
    for (i, byte) in input.iter().enumerate() {
        if let Some(line) = reader.push(*byte) {
            first = Some((line, i + 1));
            break;
        }
    }
    assert_eq!(first, read_line(input));
    assert_eq!(first, Some(("User-Agent: t\u{e9}st".to_string(), 19)));
}
