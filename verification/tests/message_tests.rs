use fix_engine_2::clock::Clock;
use fix_engine_2::message::calculate_checksum;
use fix_engine_2::message::FixMessage;
use fix_engine_2::wire::DecodeError;
use std::sync::Arc;

struct FixedClock;

impl Clock for FixedClock {
    fn now(&self) -> String {
        "20231016-12:30:00.123".to_string()
    }
}

struct FailingClock;

impl Clock for FailingClock {
    fn now(&self) -> String {
        panic!("the clock must not be asked")
    }
}

fn create_fixed_clock() -> Arc<dyn Clock> {
    Arc::new(FixedClock)
}

fn logon(clock: &Arc<dyn Clock>) -> FixMessage {
    let mut msg = FixMessage::new();
    msg.header.insert("8".to_string(), "FIX.4.4".to_string());
    msg.header.insert("35".to_string(), "A".to_string());
    msg.header.insert("49".to_string(), "SENDER".to_string());
    msg.header.insert("56".to_string(), "TARGET".to_string());
    msg.header.insert("34".to_string(), "1".to_string());
    msg.header.insert("52".to_string(), clock.now());
    msg.body.insert("98".to_string(), "0".to_string());
    msg.body.insert("108".to_string(), "30".to_string());
    msg
}

const LOGON_TEXT: &str = "8=FIX.4.4\x019=67\x0135=A\x0149=SENDER\x0156=TARGET\x0134=1\x0152=20231016-12:30:00.123\x0198=0\x01108=30\x0110=118\x01";

#[test]
fn fix_message_test_fix_message_encode_decode() {
    let fixed_clock = create_fixed_clock();
    let mut msg = FixMessage::new();
    msg.header.insert("8".to_string(), "FIX.4.4".to_string());
    msg.header.insert("35".to_string(), "A".to_string());
    msg.header.insert("49".to_string(), "SENDER".to_string());
    msg.header.insert("56".to_string(), "TARGET".to_string());
    msg.header.insert("34".to_string(), "1".to_string());
    msg.header.insert("52".to_string(), fixed_clock.now());
    msg.body.insert("98".to_string(), "0".to_string());
    msg.body.insert("108".to_string(), "30".to_string());

    let encoded = msg.encode(&fixed_clock);
    println!("Encoded message: {}", encoded);

    let decoded = FixMessage::decode(&encoded).unwrap();

    assert_eq!(decoded.header.get("8").unwrap(), "FIX.4.4");
    assert_eq!(decoded.header.get("35").unwrap(), "A");
    assert_eq!(decoded.header.get("49").unwrap(), "SENDER");
    assert_eq!(decoded.header.get("56").unwrap(), "TARGET");
    assert_eq!(decoded.header.get("34").unwrap(), "1");

    assert_eq!(decoded.body.get("98").unwrap(), "0");
    assert_eq!(decoded.body.get("108").unwrap(), "30");
}

#[test]
fn test_invalid_checksum() {
    let invalid_message = "8=FIX.4.4\x019=59\x0135=A\x0149=SENDER\x0156=TARGET\x0134=1\x0152=20231016-12:30:00.123\x0198=0\x01108=30\x0110=999\x01";
    let result = FixMessage::decode(invalid_message);
    assert!(result.is_err());
    assert_eq!(result.err().unwrap().message(), "Invalid checksum");
}

#[test]
fn message_test_fix_message_encode_decode() {
    let fixed_clock = create_fixed_clock();
    let mut msg = FixMessage::new();
    msg.header.insert("8".to_string(), "FIX.4.4".to_string());
    msg.header.insert("35".to_string(), "A".to_string());
    msg.header.insert("49".to_string(), "SENDER".to_string());
    msg.header.insert("56".to_string(), "TARGET".to_string());
    msg.header.insert("34".to_string(), "1".to_string());
    msg.header.insert("52".to_string(), fixed_clock.now());
    msg.body.insert("98".to_string(), "0".to_string());
    msg.body.insert("108".to_string(), "30".to_string());

    let encoded_message = msg.encode(&fixed_clock);

    let decoded_message = FixMessage::decode(&encoded_message).unwrap();

    assert_eq!(decoded_message.header.get("8").unwrap(), "FIX.4.4");
    assert_eq!(decoded_message.header.get("35").unwrap(), "A");
    assert_eq!(decoded_message.header.get("49").unwrap(), "SENDER");
    assert_eq!(decoded_message.header.get("56").unwrap(), "TARGET");
    assert_eq!(decoded_message.header.get("34").unwrap(), "1");

    assert_eq!(decoded_message.body.get("98").unwrap(), "0");
    assert_eq!(decoded_message.body.get("108").unwrap(), "30");

    assert!(decoded_message.trailer.contains_key("10"));
}

#[test]
fn test_fix_message_encode_with_correct_body_length() {
    let fixed_clock = create_fixed_clock();
    let mut msg = FixMessage::new();
    msg.header.insert("8".to_string(), "FIX.4.4".to_string());
    msg.header.insert("35".to_string(), "A".to_string());
    msg.header.insert("49".to_string(), "SENDER".to_string());
    msg.header.insert("56".to_string(), "TARGET".to_string());
    msg.header.insert("34".to_string(), "1".to_string());
    msg.header.insert("52".to_string(), fixed_clock.now());
    msg.body.insert("98".to_string(), "0".to_string());
    msg.body.insert("108".to_string(), "30".to_string());

    let encoded_message = msg.encode(&fixed_clock);

    let begin_string_position = encoded_message.find("8=FIX.4.4").unwrap();
    let body_length_position = encoded_message.find("9=").unwrap();
    assert!(body_length_position > begin_string_position, "BodyLength should come after BeginString");

    let body_length_field = encoded_message
        .split('\x01')
        .find(|&field| field.starts_with("9="))
        .expect("BodyLength (Tag 9) not found");

    let actual_body_length = body_length_field.split('=').nth(1).unwrap().parse::<usize>().unwrap();

    let expected_body_length = encoded_message
        .split("\x01")
        .filter(|field| !field.starts_with("8=") && !field.starts_with("9=") && !field.starts_with("10=") && !field.is_empty())
        .map(|field| field.len() + 1)
        .sum::<usize>();

    assert_eq!(actual_body_length, expected_body_length);

    println!("Encoded message: {}", encoded_message);

    assert!(encoded_message.contains("8=FIX.4.4\x01"));
    assert!(encoded_message.contains("9="));
    assert!(encoded_message.contains("10="));
}

#[test]
fn test_fix_message_encode_correct_order() {
    let fixed_clock = create_fixed_clock();
    let mut msg = FixMessage::new();
    msg.header.insert("8".to_string(), "FIX.4.4".to_string());
    msg.header.insert("35".to_string(), "A".to_string());
    msg.header.insert("49".to_string(), "SENDER".to_string());
    msg.header.insert("56".to_string(), "TARGET".to_string());
    msg.header.insert("34".to_string(), "1".to_string());
    msg.header.insert("52".to_string(), fixed_clock.now());
    msg.body.insert("98".to_string(), "0".to_string());
    msg.body.insert("108".to_string(), "30".to_string());

    let encoded_message = msg.encode(&fixed_clock);

    println!("Encoded message: {}", encoded_message);

    assert!(encoded_message.contains("8=FIX.4.4\x01"));
    assert!(encoded_message.contains("9="));
    assert!(encoded_message.contains("35=A\x01"));
    assert!(encoded_message.contains("49=SENDER\x01"));
    assert!(encoded_message.contains("56=TARGET\x01"));
    assert!(encoded_message.contains("34=1\x01"));
    assert!(encoded_message.contains("52="));
    assert!(encoded_message.contains("10="));
}

#[test]
fn test_checksum_is_calculated_correctly() {
    let message_without_checksum = "8=FIX.4.4\x019=59\x0135=A\x0149=SENDER\x0156=TARGET\x0134=1\x0152=20231016-12:30:00.123\x0198=0\x01108=30\x01";

    let calculated_checksum = calculate_checksum(message_without_checksum);
    let expected_checksum = "119";

    assert_eq!(calculated_checksum, expected_checksum);
}

#[test]
fn test_invalid_checksum_throws_err() {
    let invalid_message = "8=FIX.4.4\x019=59\x0135=A\x0149=SENDER\x0156=TARGET\x0134=1\x0152=20231016-12:30:00.123\x0198=0\x01108=30\x0110=999\x01";

    let result = FixMessage::decode(invalid_message);
    assert!(result.is_err());
    assert_eq!(result.err().unwrap().message(), "Invalid checksum");
}

#[test]
fn test_message_without_soh_fails() {
    let invalid_message = "8=FIX.4.4\
                           9=59\
                           35=A\
                           49=SENDER\
                           56=TARGET\
                           34=1\
                           52=20231016-12:30:00.123\
                           98=0\
                           108=30\
                           10=214";

    let result = FixMessage::decode(invalid_message);
    assert!(result.is_err());
    assert_eq!(result.err().unwrap().message(), "Message does not end with SOH");
}

#[test]
fn encode_gives_the_exact_text() {
    let clock = create_fixed_clock();
    let mut msg = logon(&clock);
    assert_eq!(msg.encode(&clock), LOGON_TEXT);
}

#[test]
fn encode_leaves_body_length_and_checksum_in_the_message() {
    let clock = create_fixed_clock();
    let mut msg = logon(&clock);
    msg.trailer.insert("93".to_string(), "stale".to_string());
    msg.header.insert("9".to_string(), "1".to_string());
    let text = msg.encode(&clock);
    assert_eq!(text, LOGON_TEXT);
    assert_eq!(msg.header.get("9").unwrap(), "67");
    assert_eq!(msg.trailer.len(), 1);
    assert_eq!(msg.trailer.get("10").unwrap(), "118");
    assert_eq!(msg.body.len(), 2);
}

#[test]
fn end_to_end_logon_is_read_back() {
    let clock = create_fixed_clock();
    let mut msg = logon(&clock);
    let text = msg.encode(&clock);
    let read = FixMessage::decode(&text).unwrap();
    assert_eq!(read.header.len(), msg.header.len());
    for i in 0..msg.header.len() {
        let tag = msg.header.tag_at(i);
        assert_eq!(read.header.get(tag).unwrap(), msg.header.value_at(i));
    }
    assert_eq!(read.body.len(), 2);
    assert_eq!(read.body.tag_at(0), "98");
    assert_eq!(read.body.value_at(0), "0");
    assert_eq!(read.body.tag_at(1), "108");
    assert_eq!(read.body.value_at(1), "30");
    assert_eq!(read.trailer.len(), 1);
    assert_eq!(read.trailer.get("10").unwrap(), "118");
    assert_eq!(calculate_checksum(&text[..text.len() - 7]), "118");
}

#[test]
fn decode_without_trailing_delimiter_is_malformed() {
    let result = FixMessage::decode("8=FIX.4.4\x019=5\x0135=0\x0110=000");
    assert_eq!(result.err().unwrap(), DecodeError::MalformedMessage);
    assert_eq!(FixMessage::decode("").err().unwrap(), DecodeError::MalformedMessage);
}

#[test]
fn decode_of_a_field_without_separator_is_malformed() {
    let result = FixMessage::decode("8=FIX.4.4\x0135A\x0110=000\x01");
    assert_eq!(result.err().unwrap(), DecodeError::MalformedField);
    assert_eq!(result_message(FixMessage::decode("8=FIX.4.4\x0135A\x0110=000\x01")), "Invalid key-value pair in FIX message");
}

fn result_message(result: Result<FixMessage, DecodeError>) -> &'static str {
    result.err().unwrap().message()
}

#[test]
fn decode_without_checksum_field_reports_it_missing() {
    let result = FixMessage::decode("8=FIX.4.4\x019=5\x0135=0\x01");
    assert_eq!(result.err().unwrap(), DecodeError::ChecksumMissing);
    assert_eq!(FixMessage::decode("\x01").err().unwrap(), DecodeError::ChecksumMissing);
    assert_eq!(DecodeError::ChecksumMissing.message(), "Checksum missing");
}

#[test]
fn decode_takes_the_last_of_two_fields_with_one_tag() {
    let body = "8=FIX.4.4\x0135=A\x0158=first\x0135=B\x0158=second\x01";
    let text = format!("{}10={}\x01", body, calculate_checksum(body));
    let read = FixMessage::decode(&text).unwrap();
    assert_eq!(read.header.get("35").unwrap(), "B");
    assert_eq!(read.body.get("58").unwrap(), "second");
    assert_eq!(read.header.len(), 2);
    assert_eq!(read.body.len(), 1);
}

#[test]
fn decode_puts_each_field_in_the_section_of_its_tag() {
    let body = "8=FIX.4.4\x019=12\x0150=SUB\x0155=EURUSD\x01";
    let text = format!("{}10={}\x01", body, calculate_checksum(body));
    let read = FixMessage::decode(&text).unwrap();
    assert!(read.header.contains_key("8"));
    assert_eq!(read.header.get("9").unwrap(), "12");
    assert!(!read.body.contains_key("9"));
    assert_eq!(read.body.get("50").unwrap(), "SUB");
    assert_eq!(read.body.get("55").unwrap(), "EURUSD");
    assert!(read.trailer.contains_key("10"));
}

#[test]
fn decode_passes_over_empty_tokens_and_sums_them() {
    let body = "\x018=FIX.4.4\x01\x0135=0\x01";
    let text = format!("{}10={}\x01", body, calculate_checksum(body));
    let read = FixMessage::decode(&text).unwrap();
    assert_eq!(read.header.get("35").unwrap(), "0");
    let collapsed = "8=FIX.4.4\x0135=0\x01";
    let wrong = format!("{}10={}\x01", body, calculate_checksum(collapsed));
    assert_eq!(FixMessage::decode(&wrong).err().unwrap(), DecodeError::InvalidChecksum);
}

#[test]
fn decode_reads_nothing_after_the_checksum_field() {
    let body = "8=FIX.4.4\x0135=0\x01";
    let text = format!("{}10={}\x0158=late\x01", body, calculate_checksum(body));
    let read = FixMessage::decode(&text).unwrap();
    assert!(!read.body.contains_key("58"));
}

#[test]
fn decode_keeps_separators_and_other_scripts_in_values() {
    let body = "8=FIX.4.4\x0158=a=b=c\x0155=\u{20ac}\u{fc}\x01";
    let text = format!("{}10={}\x01", body, calculate_checksum(body));
    let read = FixMessage::decode(&text).unwrap();
    assert_eq!(read.body.get("58").unwrap(), "a=b=c");
    assert_eq!(read.body.get("55").unwrap(), "\u{20ac}\u{fc}");
}

#[test]
fn encode_names_the_default_begin_string_and_asks_the_clock() {
    let clock = create_fixed_clock();
    let mut msg = FixMessage::new();
    msg.header.insert("35".to_string(), "0".to_string());
    let text = msg.encode(&clock);
    assert_eq!(text, "8=FIX.4.4\x019=30\x0135=0\x0152=20231016-12:30:00.123\x0110=144\x01");
    assert_eq!(msg.header.get("8").unwrap(), "FIX.4.4");
    assert_eq!(msg.header.get("52").unwrap(), "20231016-12:30:00.123");
    let read = FixMessage::decode(&text).unwrap();
    assert_eq!(read.body.len(), 0);
    assert_eq!(read.header.get("9").unwrap(), "30");
}

#[test]
fn encode_does_not_ask_the_clock_for_a_message_with_sending_time() {
    let failing: Arc<dyn Clock> = Arc::new(FailingClock);
    let fixed = create_fixed_clock();
    let mut msg = logon(&fixed);
    assert_eq!(msg.encode(&failing), LOGON_TEXT);
}

#[test]
fn encode_with_time_takes_the_time_it_is_given() {
    let mut msg = FixMessage::new();
    msg.header.insert("35".to_string(), "0".to_string());
    let text = msg.encode_with_time("20240101-00:00:00.000");
    assert!(text.contains("\x0152=20240101-00:00:00.000\x01"));
    let mut named = FixMessage::new();
    named.header.insert("52".to_string(), "T".to_string());
    assert_eq!(named.encode_with_time("ignored"), "8=FIX.4.4\x019=5\x0152=T\x0110=198\x01");
}

#[test]
fn encode_writes_other_header_fields_after_the_mandatory_ones() {
    let mut msg = FixMessage::new();
    msg.header.insert("50".to_string(), "DESK".to_string());
    msg.header.insert("52".to_string(), "T".to_string());
    msg.header.insert("142".to_string(), "NY".to_string());
    msg.header.insert("35".to_string(), "D".to_string());
    msg.header.insert("8".to_string(), "FIX.4.2".to_string());
    msg.body.insert("55".to_string(), "X".to_string());
    let text = msg.encode_with_time("");
    let covered = "8=FIX.4.2\x019=30\x0135=D\x0152=T\x0150=DESK\x01142=NY\x0155=X\x01";
    assert_eq!(text, format!("{}10={}\x01", covered, calculate_checksum(covered)));
    let read = FixMessage::decode(&text).unwrap();
    assert_eq!(read.body.get("50").unwrap(), "DESK");
    assert_eq!(read.header.get("9").unwrap(), "30");
}

#[test]
fn changing_any_byte_is_found_out() {
    let clock = create_fixed_clock();
    let mut msg = logon(&clock);
    let text = msg.encode(&clock).into_bytes();
    let checksum_field = text.len() - 7;
    for at in 0..text.len() {
        let mut changed = text.clone();
        changed[at] = if text[at] == b'7' { b'8' } else { b'7' };
        let changed = String::from_utf8(changed).unwrap();
        let result = FixMessage::decode(&changed);
        let keeps_framing = text[at] != 0x01 && text[at] != b'=' && !(at >= checksum_field && at < checksum_field + 2);
        if keeps_framing {
            assert_eq!(result.err().unwrap(), DecodeError::InvalidChecksum, "byte {}", at);
        } else {
            assert!(result.is_err(), "byte {}", at);
        }
    }
}

#[test]
fn body_length_counts_the_bytes_up_to_the_checksum_field() {
    let mut msg = FixMessage::new();
    msg.header.insert("35".to_string(), "D".to_string());
    msg.header.insert("52".to_string(), "20240101-00:00:00.000".to_string());
    msg.header.insert("115".to_string(), "\u{20ac}".to_string());
    msg.body.insert("55".to_string(), "EUR/USD".to_string());
    let text = msg.encode_with_time("");
    let after_length = text.find("\x0135=").unwrap() + 1;
    let checksum_field = text.len() - 7;
    let read = FixMessage::decode(&text).unwrap();
    assert_eq!(read.header.get("9").unwrap(), &(checksum_field - after_length).to_string());
    assert_eq!(checksum_field - after_length, 5 + 25 + 8 + 11);
}
