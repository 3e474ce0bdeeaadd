use pycom_wrap::rpc::{cut_data, frame_message, message_content, split_fn};
use pycom_wrap::scanner::{ScanStep, Scanner, SplitFnResult};

const FRAMED: &[u8] = b"Content-Length: 16\r\n\r\n{\"testing\":true}";

fn example_value() -> serde_json::Value {
    let mut map = serde_json::Map::new();
    map.insert("testing".to_owned(), serde_json::Value::Bool(true));
    serde_json::Value::Object(map)
}

#[test]
fn test_encode_message() {
    let expected = "Content-Length: 16\r\n\r\n{\"testing\":true}";
    let content = serde_json::to_string(&example_value()).unwrap();
    let actual = frame_message(content.as_bytes());
    assert_eq!(actual, expected.as_bytes());
}

#[test]
fn test_decode_message() {
    let expected = example_value();
    let message = b"Content-Length: 16\r\n\r\n{\"testing\":true}";
    let content = message_content(message).unwrap();
    let actual: serde_json::Value = serde_json::from_slice(content).unwrap();
    assert_eq!(actual, expected);
}

#[test]
fn framing_then_reading_gives_the_content_back() {
    let content = b"{\"id\":1}";
    let framed = frame_message(content);
    assert_eq!(message_content(&framed), Some(&content[..]));
}

#[test]
fn frame_of_empty_content() {
    assert_eq!(frame_message(b""), b"Content-Length: 0\r\n\r\n".to_vec());
}

#[test]
fn split_finds_a_complete_message() {
    assert_eq!(split_fn(FRAMED, 0), Ok(SplitFnResult::Complete { start: 0, end: 38 }));
}

#[test]
fn split_without_label_keeps_searching() {
    assert_eq!(split_fn(b"nothing here", 0), Ok(SplitFnResult::Searching));
}

#[test]
fn split_without_delimiter_waits_for_the_end() {
    assert_eq!(
        split_fn(b"Content-Length: 16\r\n", 0),
        Ok(SplitFnResult::SearchingEnd { start: 0 })
    );
}

#[test]
fn split_with_short_content_waits_for_the_rest() {
    assert_eq!(
        split_fn(b"Content-Length: 16\r\n\r\n{\"test", 0),
        Ok(SplitFnResult::SearchingEnd { start: 0 })
    );
}

#[test]
fn split_with_unreadable_length_fails() {
    assert_eq!(
        split_fn(b"Content-Length: 1x\r\n\r\n{}", 0),
        Err("Could not parse content length".to_owned())
    );
}

#[test]
fn split_with_non_utf8_length_fails() {
    assert_eq!(
        split_fn(b"Content-Length: \xff\xfe\r\n\r\n{}", 0),
        Err("Could not convert content length bytes to str".to_owned())
    );
}

#[test]
fn cut_at_the_first_delimiter() {
    let (header, content) = cut_data(b"abc\r\n\r\ndef\r\n\r\n").unwrap();
    assert_eq!(header, b"abc");
    assert_eq!(content, b"def\r\n\r\n");
}

#[test]
fn cut_without_delimiter_repeats_the_data() {
    assert_eq!(cut_data(b"abc").unwrap_err(), "Could not cut data. Got: abc");
}

#[test]
fn message_content_without_delimiter() {
    assert_eq!(message_content(b"Content-Length: 2"), None);
}

#[test]
fn scanner_hands_out_a_message_read_in_pieces() {
    let mut scanner = Scanner::new();
    assert!(matches!(scanner.feed(b"Content-Length: 16\r\n"), ScanStep::Continue));
    match scanner.feed(b"\r\n{\"testing\":true}") {
        ScanStep::Message(m) => assert_eq!(m, FRAMED.to_vec()),
        other => panic!("expected a message, got {:?}", other),
    }
    assert!(matches!(scanner.feed(b""), ScanStep::Continue));
}

#[test]
fn scanner_reports_split_errors() {
    let mut scanner = Scanner::new();
    match scanner.feed(b"Content-Length: 1x\r\n\r\n{}") {
        ScanStep::Failed(e) => assert_eq!(e, "Could not parse content length"),
        other => panic!("expected a failure, got {:?}", other),
    }
}
