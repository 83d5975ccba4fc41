use fix_engine_2::frame::extract_message;
use fix_engine_2::frame::frame_length;
use fix_engine_2::message::calculate_checksum;
use fix_engine_2::message::FixMessage;

fn message(body: &str) -> Vec<u8> {
    format!("{}10={}\x01", body, calculate_checksum(body)).into_bytes()
}

#[test]
fn two_messages_back_to_back_give_the_first_and_leave_the_second() {
    let first = message("8=FIX.4.4\x019=5\x0135=0\x01");
    let second = message("8=FIX.4.4\x019=5\x0135=1\x01");
    let mut buffer = first.clone();
    buffer.extend_from_slice(&second);
    let (text, rest) = extract_message(&buffer).unwrap();
    assert_eq!(text.as_bytes(), &first[..]);
    assert_eq!(rest, second);
    let (text, rest) = extract_message(&rest).unwrap();
    assert_eq!(text.as_bytes(), &second[..]);
    assert!(rest.is_empty());
    assert_eq!(extract_message(&rest), None);
    assert!(FixMessage::decode(&text).is_ok());
}

#[test]
fn a_truncated_message_is_no_message() {
    let whole = message("8=FIX.4.4\x019=5\x0135=0\x01");
    for kept in 0..whole.len() {
        assert_eq!(extract_message(&whole[..kept]), None, "{} bytes", kept);
        assert_eq!(frame_length(&whole[..kept]), None);
    }
    assert_eq!(frame_length(&whole), Some(whole.len()));
}

#[test]
fn the_frame_ends_with_the_first_delimiter_after_the_marker() {
    assert_eq!(frame_length(b"10=\x01"), Some(4));
    assert_eq!(frame_length(b"10="), None);
    assert_eq!(frame_length(b"\x0110"), None);
    assert_eq!(frame_length(b""), None);
    assert_eq!(frame_length(b"\x01\x0110=1\x01\x01"), Some(7));
    assert_eq!(frame_length(b"35=A\x01"), None);
}

#[test]
fn the_marker_is_searched_as_plain_bytes() {
    let buffer = b"8=FIX.4.4\x01110=5\x0135=0\x0110=000\x01";
    let (text, rest) = extract_message(buffer).unwrap();
    assert_eq!(text, "8=FIX.4.4\x01110=5\x01");
    assert_eq!(rest, b"35=0\x0110=000\x01".to_vec());
}

#[test]
fn bytes_that_are_not_utf8_are_replaced_in_the_text() {
    let buffer = b"58=\xff\x0110=000\x01rest";
    let (text, rest) = extract_message(buffer).unwrap();
    assert_eq!(text, "58=\u{fffd}\x0110=000\x01");
    assert_eq!(rest, b"rest".to_vec());
    let euro = "58=\u{20ac}\x0110=000\x01".as_bytes();
    let (text, rest) = extract_message(euro).unwrap();
    assert_eq!(text.as_bytes(), euro);
    assert!(rest.is_empty());
}
