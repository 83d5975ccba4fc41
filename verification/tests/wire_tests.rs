use fix_engine_2::field_map::FieldMap;
use fix_engine_2::text::bytes_eq;
use fix_engine_2::text::find_byte;
use fix_engine_2::text::push_text;
use fix_engine_2::text::slice_text;
use fix_engine_2::wire::checksum_extend;
use fix_engine_2::wire::checksum_of;
use fix_engine_2::wire::checksum_string;
use fix_engine_2::wire::classify;
use fix_engine_2::wire::decimal_string;
use fix_engine_2::wire::mandatory_position_of;
use fix_engine_2::wire::mandatory_tag;
use fix_engine_2::wire::push_checksum;
use fix_engine_2::wire::push_decimal;
use fix_engine_2::wire::push_field;
use fix_engine_2::wire::split_field;
use fix_engine_2::wire::trailer_tag;
use fix_engine_2::wire::DecodeError;
use fix_engine_2::wire::Section;
use fix_engine_2::wire::DELIMITER;
use fix_engine_2::wire::SEPARATOR;

#[test]
fn mandatory_tags_have_their_fixed_places() {
    let tags = ["8", "9", "35", "49", "56", "34", "52"];
    for (place, tag) in tags.iter().enumerate() {
        assert_eq!(mandatory_tag(place), *tag);
        assert_eq!(mandatory_position_of(tag), Some(place));
        assert_eq!(classify(tag), Section::Header);
    }
    assert_eq!(mandatory_position_of("10"), None);
    assert_eq!(mandatory_position_of("50"), None);
    assert_eq!(mandatory_position_of(""), None);
    assert_eq!(mandatory_position_of("3"), None);
    assert_eq!(mandatory_position_of("355"), None);
}

#[test]
fn tags_are_classified_by_section() {
    assert_eq!(trailer_tag(), "10");
    assert_eq!(classify("10"), Section::Trailer);
    assert_eq!(classify("35"), Section::Header);
    assert_eq!(classify("9"), Section::Header);
    assert_eq!(classify("55"), Section::Body);
    assert_eq!(classify("50"), Section::Body);
    assert_eq!(classify("100"), Section::Body);
    assert_eq!(classify(""), Section::Body);
}

#[test]
fn a_field_is_tag_separator_value_delimiter() {
    assert_eq!(DELIMITER, 0x01);
    assert_eq!(SEPARATOR, b'=');
    let mut out = String::from("x");
    push_field(&mut out, "35", "A");
    assert_eq!(out, "x35=A\x01");
    push_field(&mut out, "", "");
    assert_eq!(out, "x35=A\x01=\x01");
}

#[test]
fn a_token_splits_at_its_first_separator() {
    assert_eq!(split_field("35=A"), Ok(("35", "A")));
    assert_eq!(split_field("58=a=b"), Ok(("58", "a=b")));
    assert_eq!(split_field("=x"), Ok(("", "x")));
    assert_eq!(split_field("35="), Ok(("35", "")));
    assert_eq!(split_field("\u{fc}=\u{20ac}"), Ok(("\u{fc}", "\u{20ac}")));
    assert_eq!(split_field("35A"), Err(DecodeError::MalformedField));
    assert_eq!(split_field(""), Err(DecodeError::MalformedField));
}

#[test]
fn the_checksum_is_the_sum_of_the_bytes_modulo_256() {
    assert_eq!(checksum_of(b""), 0);
    assert_eq!(checksum_of(b"ab"), 195);
    assert_eq!(checksum_of(&[255, 1]), 0);
    assert_eq!(checksum_of(&[200, 100, 56]), 100);
    assert_eq!(checksum_extend(195, b"abc", 2, 3), 38);
    assert_eq!(checksum_extend(7, b"abc", 1, 1), 7);
}

#[test]
fn a_checksum_is_written_in_three_digits() {
    assert_eq!(checksum_string(0), "000");
    assert_eq!(checksum_string(7), "007");
    assert_eq!(checksum_string(42), "042");
    assert_eq!(checksum_string(255), "255");
    let mut out = String::from("10=");
    push_checksum(&mut out, 119);
    assert_eq!(out, "10=119");
}

#[test]
fn numbers_are_written_in_decimal() {
    assert_eq!(decimal_string(0), "0");
    assert_eq!(decimal_string(9), "9");
    assert_eq!(decimal_string(10), "10");
    assert_eq!(decimal_string(67), "67");
    assert_eq!(decimal_string(1234567890), "1234567890");
    assert_eq!(decimal_string(usize::MAX), usize::MAX.to_string());
    let mut out = String::from("9=");
    push_decimal(&mut out, 405);
    assert_eq!(out, "9=405");
}

#[test]
fn text_helpers_work_on_bytes() {
    assert!(bytes_eq(b"abc", b"abc"));
    assert!(!bytes_eq(b"abc", b"abd"));
    assert!(!bytes_eq(b"abc", b"ab"));
    assert!(bytes_eq(b"", b""));
    assert_eq!(find_byte(b"a=b=c", b'=', 0), 1);
    assert_eq!(find_byte(b"a=b=c", b'=', 2), 3);
    assert_eq!(find_byte(b"a=b=c", b'=', 4), 5);
    assert_eq!(find_byte(b"a=b=c", b'=', 5), 5);
    assert_eq!(slice_text("35=\u{20ac}\x01", 3, 6), "\u{20ac}");
    assert_eq!(slice_text("35=A", 0, 2), "35");
    assert_eq!(slice_text("35=A", 4, 4), "");
    let mut out = String::from("\u{fc}");
    push_text(&mut out, "=\u{20ac}");
    assert_eq!(out, "\u{fc}=\u{20ac}");
}

#[test]
fn a_field_map_keeps_the_order_of_first_insertion() {
    let mut map = FieldMap::new();
    assert!(map.is_empty());
    assert_eq!(map.get("35"), None);
    map.insert("35".to_string(), "A".to_string());
    map.insert("49".to_string(), "S".to_string());
    map.insert("35".to_string(), "B".to_string());
    assert_eq!(map.len(), 2);
    assert!(!map.is_empty());
    assert_eq!(map.tag_at(0), "35");
    assert_eq!(map.value_at(0), "B");
    assert_eq!(map.tag_at(1), "49");
    assert_eq!(map.value_at(1), "S");
    assert_eq!(map.get("35").unwrap(), "B");
    assert_eq!(map.get("49").unwrap(), "S");
    assert!(map.contains_key("49"));
    assert!(!map.contains_key("4"));
    assert!(!map.contains_key("499"));
    map.clear();
    assert_eq!(map.len(), 0);
    assert!(!map.contains_key("35"));
}
