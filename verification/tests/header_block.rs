use httpreq::error::ParseError;
use httpreq::header_block::{parse_header_line, parse_headers};
use httpreq::reader::LineReader;

#[test]
fn header_line_splits_at_the_first_colon() {
    let h = parse_header_line("Host: example.com:8080").unwrap();
    assert_eq!(h.name, "Host");
    assert_eq!(h.value, "example.com:8080");
}

#[test]
fn header_value_is_trimmed() {
    let h = parse_header_line("X-Foo:   bar  ").unwrap();
    assert_eq!(h.name, "X-Foo");
    assert_eq!(h.value, "bar");
}

#[test]
fn header_name_is_not_trimmed() {
    let h = parse_header_line(" X-Foo : bar").unwrap();
    assert_eq!(h.name, " X-Foo ");
    assert_eq!(h.value, "bar");
}

#[test]
fn header_value_may_be_empty() {
    let h = parse_header_line("X-Empty:").unwrap();
    assert_eq!(h.name, "X-Empty");
    assert_eq!(h.value, "");
    let h = parse_header_line("X-Blank: \t ").unwrap();
    assert_eq!(h.value, "");
    let h = parse_header_line(":v").unwrap();
    assert_eq!(h.name, "");
    assert_eq!(h.value, "v");
}

#[test]
fn header_value_keeps_inner_whitespace() {
    let h = parse_header_line("User-Agent:  a  b\tc \r").unwrap();
    assert_eq!(h.value, "a  b\tc");
}

#[test]
fn header_value_loses_unicode_whitespace() {
    let h = parse_header_line("K:\u{a0}\u{2003}v\u{3000}\u{85}").unwrap();
    assert_eq!(h.value, "v");
    let h = parse_header_line("K:\u{200b}v").unwrap();
    assert_eq!(h.value, "\u{200b}v");
}

#[test]
fn header_line_without_colon_is_malformed() {
    assert_eq!(
        parse_header_line("NoColonHere"),
        Err(ParseError::MalformedHeaderLine("NoColonHere".to_string()))
    );
}

#[test]
fn later_duplicate_wins() {
    let mut reader = LineReader::new(b"A: 1\nA: 2\n\n".to_vec());
    let map = parse_headers(&mut reader).unwrap();
    assert_eq!(map.get("A"), Some(&"2".to_string()));
}

#[test]
fn order_of_distinct_names_does_not_matter() {
    let mut first = LineReader::new(b"A: 1\nB: 2\nC: 3\n\n".to_vec());
    let mut second = LineReader::new(b"C: 3\nA: 1\nB: 2\n\n".to_vec());
    let one = parse_headers(&mut first).unwrap();
    let two = parse_headers(&mut second).unwrap();
    for name in ["A", "B", "C", "D"] {
        assert_eq!(one.get(name), two.get(name));
    }
    assert_eq!(one.get("B"), Some(&"2".to_string()));
    assert_eq!(one.get("D"), None);
}

#[test]
fn header_block_ends_at_the_empty_line() {
    let mut reader = LineReader::new(b"A: 1\n\nB: 2\n".to_vec());
    let map = parse_headers(&mut reader).unwrap();
    assert_eq!(map.get("A"), Some(&"1".to_string()));
    assert_eq!(map.get("B"), None);
    assert_eq!(reader.read_to_end(), b"B: 2\n".to_vec());
}

#[test]
fn header_block_ends_at_the_end_of_input() {
    let mut reader = LineReader::new(b"A: 1\nB: 2".to_vec());
    let map = parse_headers(&mut reader).unwrap();
    assert_eq!(map.get("A"), Some(&"1".to_string()));
    assert_eq!(map.get("B"), Some(&"2".to_string()));
    assert!(reader.at_end());
}

#[test]
fn empty_header_block() {
    let mut reader = LineReader::new(b"\nbody".to_vec());
    let map = parse_headers(&mut reader).unwrap();
    assert_eq!(map.get("Host"), None);
    assert_eq!(reader.read_to_end(), b"body".to_vec());
}

#[test]
fn first_bad_header_line_decides_the_error() {
    let mut reader = LineReader::new(b"A: 1\nbad one\nworse\n\nbody".to_vec());
    assert_eq!(
        parse_headers(&mut reader).err(),
        Some(ParseError::MalformedHeaderLine("bad one".to_string()))
    );
    assert_eq!(reader.read_to_end(), b"worse\n\nbody".to_vec());
}

#[test]
fn header_line_that_is_not_text_is_an_io_failure() {
    let mut reader = LineReader::new(vec![0x41, 0x3A, 0x20, 0xFE, 0x0A, 0x0A]);
    assert_eq!(parse_headers(&mut reader).err(), Some(ParseError::IoFailure));
}
