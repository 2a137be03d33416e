use httpreq::error::ParseError;
use httpreq::method_line::{parse_method_line, parse_request_line};
use httpreq::reader::LineReader;

#[test]
fn three_tokens_are_taken_verbatim() {
    let line = parse_request_line("GET /index.html HTTP/1.0").unwrap();
    assert_eq!(line.method, "GET");
    assert_eq!(line.path, "/index.html");
    assert_eq!(line.http_version, "HTTP/1.0");
}

#[test]
fn two_tokens_get_the_default_version() {
    let line = parse_request_line("POST /submit").unwrap();
    assert_eq!(line.method, "POST");
    assert_eq!(line.path, "/submit");
    assert_eq!(line.http_version, "HTTP/1.1");
}

#[test]
fn any_method_and_version_are_accepted() {
    let line = parse_request_line("FROBNICATE * nonsense").unwrap();
    assert_eq!(line.method, "FROBNICATE");
    assert_eq!(line.path, "*");
    assert_eq!(line.http_version, "nonsense");
}

#[test]
fn one_token_is_malformed() {
    assert_eq!(
        parse_request_line("GET"),
        Err(ParseError::MalformedRequestLine("GET".to_string()))
    );
}

#[test]
fn four_tokens_are_malformed() {
    assert_eq!(
        parse_request_line("GET / HTTP/1.1 extra"),
        Err(ParseError::MalformedRequestLine("GET / HTTP/1.1 extra".to_string()))
    );
}

#[test]
fn empty_line_is_malformed() {
    assert_eq!(parse_request_line(""), Err(ParseError::MalformedRequestLine(String::new())));
}

#[test]
fn doubled_space_makes_an_empty_token() {
    let line = parse_request_line("GET  /").unwrap();
    assert_eq!(line.method, "GET");
    assert_eq!(line.path, "");
    assert_eq!(line.http_version, "/");
    assert_eq!(
        parse_request_line("GET  / HTTP/1.1"),
        Err(ParseError::MalformedRequestLine("GET  / HTTP/1.1".to_string()))
    );
}

#[test]
fn tabs_do_not_separate_tokens() {
    assert_eq!(
        parse_request_line("GET\t/"),
        Err(ParseError::MalformedRequestLine("GET\t/".to_string()))
    );
}

#[test]
fn non_ascii_tokens_are_kept() {
    let line = parse_request_line("GET /caf\u{e9}/\u{1F600} HTTP/1.1").unwrap();
    assert_eq!(line.path, "/caf\u{e9}/\u{1F600}");
}

#[test]
fn request_line_is_read_from_the_reader() {
    let mut reader = LineReader::new(b"GET /a HTTP/1.1\nHost: x\n".to_vec());
    let line = parse_method_line(&mut reader).unwrap();
    assert_eq!(line.method, "GET");
    assert_eq!(line.path, "/a");
    assert_eq!(line.http_version, "HTTP/1.1");
    assert_eq!(reader.read_to_end(), b"Host: x\n".to_vec());
}

#[test]
fn request_line_without_terminator_is_kept_whole() {
    let mut reader = LineReader::new(b"GET /a HTTP/1.1".to_vec());
    let line = parse_method_line(&mut reader).unwrap();
    assert_eq!(line.http_version, "HTTP/1.1");
    assert!(reader.at_end());
}

#[test]
fn request_line_that_is_not_text_is_an_io_failure() {
    let mut reader = LineReader::new(vec![0x47, 0x45, 0x54, 0x20, 0xFF, 0x0A, 0x41]);
    assert_eq!(parse_method_line(&mut reader), Err(ParseError::IoFailure));
    assert_eq!(reader.read_to_end(), vec![0x41]);
}
