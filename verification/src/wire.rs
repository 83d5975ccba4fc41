//! The wire format of a single field and the two numbers a message carries
//! about itself: its body length and its checksum.
//!
//! A field is `tag=value` followed by the delimiter byte `0x01`. A tag is a
//! header tag, the trailer tag `10`, or a body tag; seven header tags are
//! mandatory and are written in a fixed order.

use crate::text::bytes_eq;
use crate::text::find_byte;
use crate::text::lemma_ascii_bytes;
use crate::text::lemma_run_len;
use crate::text::push_text;
use crate::text::run_len;
use crate::text::slice_text;
use vstd::prelude::*;
use vstd::string::StringSliceAdditionalSpecFns;
use vstd::utf8::*;

verus! {

/// The byte that ends every field.
pub const DELIMITER: u8 = 0x01;

/// The byte between a tag and its value.
pub const SEPARATOR: u8 = 0x3d;

/// Tag and value of each field, in order, as bytes.
pub type Entries = Seq<(Seq<u8>, Seq<u8>)>;

/// Why a text is not a message.
#[derive(Debug, Clone, Copy, PartialEq, Eq, Structural)]
pub enum DecodeError {
    /// The text does not end with the delimiter.
    MalformedMessage,
    /// A field has no `=`.
    MalformedField,
    /// The text holds no checksum field.
    ChecksumMissing,
    /// The checksum field does not match the bytes before it.
    InvalidChecksum,
}

impl DecodeError {
    /// The words that describe the error.
    pub open spec fn text(self) -> Seq<char> {
        match self {
            DecodeError::MalformedMessage => "Message does not end with SOH"@,
            DecodeError::MalformedField => "Invalid key-value pair in FIX message"@,
            DecodeError::ChecksumMissing => "Checksum missing"@,
            DecodeError::InvalidChecksum => "Invalid checksum"@,
        }
    }

    /// The words that describe the error.
    pub fn message(&self) -> (words: &'static str)
        ensures
            words@ == self.text(),
    {
        match self {
            DecodeError::MalformedMessage => "Message does not end with SOH",
            DecodeError::MalformedField => "Invalid key-value pair in FIX message",
            DecodeError::ChecksumMissing => "Checksum missing",
            DecodeError::InvalidChecksum => "Invalid checksum",
        }
    }
}

/// The part of a message that a field belongs to.
#[derive(Debug, Clone, Copy, PartialEq, Eq, Structural)]
pub enum Section {
    Header,
    Body,
    Trailer,
}

/// `8`, the tag of the begin string.
pub open spec fn begin_string_tag() -> Seq<u8> {
    seq![0x38u8]
}

/// `9`, the tag of the body length.
pub open spec fn body_length_tag() -> Seq<u8> {
    seq![0x39u8]
}

/// `35`, the tag of the message type.
pub open spec fn message_type_tag() -> Seq<u8> {
    seq![0x33u8, 0x35u8]
}

/// `49`, the tag of the sender.
pub open spec fn sender_tag() -> Seq<u8> {
    seq![0x34u8, 0x39u8]
}

/// `56`, the tag of the target.
pub open spec fn target_tag() -> Seq<u8> {
    seq![0x35u8, 0x36u8]
}

/// `34`, the tag of the sequence number.
pub open spec fn sequence_number_tag() -> Seq<u8> {
    seq![0x33u8, 0x34u8]
}

/// `52`, the tag of the sending time.
pub open spec fn sending_time_tag() -> Seq<u8> {
    seq![0x35u8, 0x32u8]
}

/// `10`, the tag of the checksum.
pub open spec fn checksum_tag() -> Seq<u8> {
    seq![0x31u8, 0x30u8]
}

/// `FIX.4.4`, the begin string of a message that names none.
pub open spec fn default_begin_string() -> Seq<u8> {
    seq![0x46u8, 0x49u8, 0x58u8, 0x2eu8, 0x34u8, 0x2eu8, 0x34u8]
}

/// The seven mandatory header tags in the order in which they are written.
pub open spec fn mandatory_tags() -> Seq<Seq<u8>> {
    seq![
        begin_string_tag(),
        body_length_tag(),
        message_type_tag(),
        sender_tag(),
        target_tag(),
        sequence_number_tag(),
        sending_time_tag(),
    ]
}

/// The place of `tag` among the mandatory header tags.
pub open spec fn mandatory_position(tag: Seq<u8>) -> Option<nat> {
    if tag == begin_string_tag() {
        Some(0)
    } else if tag == body_length_tag() {
        Some(1)
    } else if tag == message_type_tag() {
        Some(2)
    } else if tag == sender_tag() {
        Some(3)
    } else if tag == target_tag() {
        Some(4)
    } else if tag == sequence_number_tag() {
        Some(5)
    } else if tag == sending_time_tag() {
        Some(6)
    } else {
        None
    }
}

/// The section in which a field with this tag stands.
pub open spec fn section_of(tag: Seq<u8>) -> Section {
    if tag == checksum_tag() {
        Section::Trailer
    } else if mandatory_position(tag) is Some {
        Section::Header
    } else {
        Section::Body
    }
}

/// One field on the wire.
pub open spec fn field(tag: Seq<u8>, value: Seq<u8>) -> Seq<u8> {
    tag + seq![SEPARATOR] + value + seq![DELIMITER]
}

/// The fields of `entries` on the wire, one after the other.
pub open spec fn fields(entries: Entries) -> Seq<u8>
    decreases entries.len(),
{
    if entries.len() == 0 {
        Seq::empty()
    } else {
        fields(entries.drop_last()) + field(entries.last().0, entries.last().1)
    }
}

/// Tag and value of a token, split at its first `=`.
pub open spec fn split_token(token: Seq<u8>) -> Result<(Seq<u8>, Seq<u8>), DecodeError> {
    let at = run_len(token, SEPARATOR, 0) as int;
    if at == token.len() {
        Err(DecodeError::MalformedField)
    } else {
        Ok((token.take(at), token.skip(at + 1)))
    }
}

/// The sum of the bytes.
pub open spec fn byte_sum(bytes: Seq<u8>) -> nat
    decreases bytes.len(),
{
    if bytes.len() == 0 {
        0
    } else {
        byte_sum(bytes.drop_last()) + bytes.last() as nat
    }
}

/// The checksum of the bytes: their sum modulo 256.
pub open spec fn checksum(bytes: Seq<u8>) -> nat {
    byte_sum(bytes) % 256
}

/// The ASCII digit for `d`.
pub open spec fn digit(d: nat) -> u8
    recommends
        d < 10,
{
    (0x30 + d) as u8
}

/// `n` in decimal, without leading zeros.
pub open spec fn decimal(n: nat) -> Seq<u8>
    decreases n,
{
    if n < 10 {
        seq![digit(n)]
    } else {
        decimal(n / 10).push(digit(n % 10))
    }
}

/// A checksum as it is written: three decimal digits, padded with zeros.
pub open spec fn checksum_text(sum: nat) -> Seq<u8>
    recommends
        sum < 256,
{
    seq![digit(sum / 100), digit((sum / 10) % 10), digit(sum % 10)]
}

/// Changing one byte changes the sum by the difference of the two bytes.
pub proof fn lemma_byte_sum_update(bytes: Seq<u8>, at: int, byte: u8)
    requires
        0 <= at < bytes.len(),
    ensures
        byte_sum(bytes.update(at, byte)) + bytes[at] == byte_sum(bytes) + byte,
    decreases bytes.len(),
{
    let changed = bytes.update(at, byte);
    if at == bytes.len() - 1 {
        assert(changed.drop_last() =~= bytes.drop_last());
    } else {
        assert(changed.drop_last() =~= bytes.drop_last().update(at, byte));
        lemma_byte_sum_update(bytes.drop_last(), at, byte);
    }
}

/// Two checksums that are written alike are the same.
pub proof fn lemma_checksum_text_injective(a: nat, b: nat)
    requires
        a < 256,
        b < 256,
        checksum_text(a) == checksum_text(b),
    ensures
        a == b,
{
    assert(checksum_text(a)[0] == checksum_text(b)[0]);
    assert(checksum_text(a)[1] == checksum_text(b)[1]);
    assert(checksum_text(a)[2] == checksum_text(b)[2]);
}

/// A number in decimal is made of digits, and so holds neither the delimiter
/// nor the separator.
pub proof fn lemma_decimal_digits(n: nat)
    ensures
        decimal(n).len() >= 1,
        forall|i: int| 0 <= i < decimal(n).len() ==> 0x30 <= #[trigger] decimal(n)[i] <= 0x39,
    decreases n,
{
    if n >= 10 {
        lemma_decimal_digits(n / 10);
    }
}

/// The checksum of the first `to` bytes, from `sum`, that of the first
/// `from`.
pub fn checksum_extend(sum: u8, bytes: &[u8], from: usize, to: usize) -> (extended: u8)
    requires
        from <= to <= bytes@.len(),
        sum == checksum(bytes@.take(from as int)),
    ensures
        extended == checksum(bytes@.take(to as int)),
{
    let mut extended: u8 = sum;
    let mut i: usize = from;
    while i < to
        invariant
            from <= i <= to <= bytes@.len(),
            extended == checksum(bytes@.take(i as int)),
        decreases to - i,
    {
        proof {
            assert(bytes@.take(i + 1).drop_last() =~= bytes@.take(i as int));
        }
        extended = extended.wrapping_add(bytes[i]);
        i += 1;
    }
    extended
}

/// The checksum of `bytes`.
pub fn checksum_of(bytes: &[u8]) -> (sum: u8)
    ensures
        sum == checksum(bytes@),
{
    assert(bytes@.take(0) =~= Seq::<u8>::empty());
    assert(bytes@.take(bytes@.len() as int) =~= bytes@);
    checksum_extend(0, bytes, 0, bytes.len())
}

/// The text of one decimal digit.
fn digit_text(d: u8) -> (text: &'static str)
    requires
        d < 10,
    ensures
        text.spec_bytes() == seq![digit(d as nat)],
{
    let text = match d {
        0 => "0",
        1 => "1",
        2 => "2",
        3 => "3",
        4 => "4",
        5 => "5",
        6 => "6",
        7 => "7",
        8 => "8",
        _ => "9",
    };
    proof {
        reveal_strlit("0");
        reveal_strlit("1");
        reveal_strlit("2");
        reveal_strlit("3");
        reveal_strlit("4");
        reveal_strlit("5");
        reveal_strlit("6");
        reveal_strlit("7");
        reveal_strlit("8");
        reveal_strlit("9");
        lemma_ascii_bytes(text@);
        assert(text.spec_bytes() =~= seq![digit(d as nat)]);
    }
    text
}

/// Appends `n` in decimal to `out`.
pub fn push_decimal(out: &mut String, n: usize)
    ensures
        encode_utf8(final(out)@) == encode_utf8(old(out)@) + decimal(n as nat),
    decreases n,
{
    if n >= 10 {
        push_decimal(out, n / 10);
    }
    push_text(out, digit_text((n % 10) as u8));
    proof {
        let before = encode_utf8(old(out)@);
        if n < 10 {
            assert(before + seq![digit(n as nat)] =~= before + decimal(n as nat));
        } else {
            assert(before + decimal((n / 10) as nat) + seq![digit((n % 10) as nat)] =~= before
                + decimal(n as nat));
        }
    }
}

/// Appends a checksum to `out`, as three digits.
pub fn push_checksum(out: &mut String, sum: u8)
    ensures
        encode_utf8(final(out)@) == encode_utf8(old(out)@) + checksum_text(sum as nat),
{
    push_text(out, digit_text(sum / 100));
    push_text(out, digit_text((sum / 10) % 10));
    push_text(out, digit_text(sum % 10));
    assert(encode_utf8(out@) =~= encode_utf8(old(out)@) + checksum_text(sum as nat));
}

/// A checksum as it is written: three digits.
pub fn checksum_string(sum: u8) -> (text: String)
    ensures
        encode_utf8(text@) == checksum_text(sum as nat),
{
    let mut text = String::new();
    assert(encode_utf8(text@) =~= Seq::<u8>::empty());
    push_checksum(&mut text, sum);
    assert(Seq::<u8>::empty() + checksum_text(sum as nat) =~= checksum_text(sum as nat));
    text
}

/// `n` in decimal.
pub fn decimal_string(n: usize) -> (text: String)
    ensures
        encode_utf8(text@) == decimal(n as nat),
{
    let mut text = String::new();
    assert(encode_utf8(text@) =~= Seq::<u8>::empty());
    push_decimal(&mut text, n);
    assert(Seq::<u8>::empty() + decimal(n as nat) =~= decimal(n as nat));
    text
}

/// The text of the separator.
fn separator_text() -> (text: &'static str)
    ensures
        text.spec_bytes() == seq![SEPARATOR],
{
    proof {
        reveal_strlit("=");
        lemma_ascii_bytes("="@);
        assert("=".spec_bytes() =~= seq![SEPARATOR]);
    }
    "="
}

/// The text of the delimiter.
fn delimiter_text() -> (text: &'static str)
    ensures
        text.spec_bytes() == seq![DELIMITER],
{
    proof {
        reveal_strlit("\x01");
        lemma_ascii_bytes("\x01"@);
        assert("\x01".spec_bytes() =~= seq![DELIMITER]);
    }
    "\x01"
}

/// Appends the field `tag=value` and its delimiter to `out`.
pub fn push_field(out: &mut String, tag: &str, value: &str)
    ensures
        encode_utf8(final(out)@) == encode_utf8(old(out)@) + field(
            tag.spec_bytes(),
            value.spec_bytes(),
        ),
{
    push_text(out, tag);
    push_text(out, separator_text());
    push_text(out, value);
    push_text(out, delimiter_text());
    assert(encode_utf8(out@) =~= encode_utf8(old(out)@) + field(
        tag.spec_bytes(),
        value.spec_bytes(),
    ));
}

/// Splits a token at its first `=` into tag and value.
pub fn split_field<'a>(token: &'a str) -> (parts: Result<(&'a str, &'a str), DecodeError>)
    ensures
        match split_token(token.spec_bytes()) {
            Ok((tag, value)) => parts matches Ok((t, v)) && t.spec_bytes() == tag && v.spec_bytes()
                == value,
            Err(e) => parts == Err::<(&str, &str), DecodeError>(e),
        },
{
    let bytes = token.as_bytes();
    let at = find_byte(bytes, SEPARATOR, 0);
    proof {
        lemma_run_len(bytes@, SEPARATOR, 0);
    }
    if at == bytes.len() {
        return Err(DecodeError::MalformedField);
    }
    let tag = slice_text(token, 0, at);
    let value = slice_text(token, at + 1, bytes.len());
    Ok((tag, value))
}

/// The mandatory header tag that is written at `position`.
pub fn mandatory_tag(position: usize) -> (tag: &'static str)
    requires
        position < 7,
    ensures
        tag.spec_bytes() == mandatory_tags()[position as int],
{
    let tag = match position {
        0 => "8",
        1 => "9",
        2 => "35",
        3 => "49",
        4 => "56",
        5 => "34",
        _ => "52",
    };
    proof {
        reveal_strlit("8");
        reveal_strlit("9");
        reveal_strlit("35");
        reveal_strlit("49");
        reveal_strlit("56");
        reveal_strlit("34");
        reveal_strlit("52");
        lemma_ascii_bytes(tag@);
        assert(tag.spec_bytes() =~= mandatory_tags()[position as int]);
    }
    tag
}

/// The tag of the checksum field.
pub fn trailer_tag() -> (tag: &'static str)
    ensures
        tag.spec_bytes() == checksum_tag(),
{
    proof {
        reveal_strlit("10");
        lemma_ascii_bytes("10"@);
        assert("10".spec_bytes() =~= checksum_tag());
    }
    "10"
}

/// The place of `tag` among the mandatory header tags, where it is one.
pub fn mandatory_position_of(tag: &str) -> (position: Option<usize>)
    ensures
        match mandatory_position(tag.spec_bytes()) {
            Some(p) => position == Some(p as usize),
            None => position is None,
        },
{
    let bytes = tag.as_bytes();
    let mut i: usize = 0;
    while i < 7
        invariant
            i <= 7,
            bytes@ == tag.spec_bytes(),
            forall|j: int| 0 <= j < i ==> mandatory_tags()[j] != bytes@,
        decreases 7 - i,
    {
        if bytes_eq(bytes, mandatory_tag(i).as_bytes()) {
            proof {
                lemma_mandatory_tags_differ();
            }
            return Some(i);
        }
        i += 1;
    }
    assert(mandatory_tags()[0] != bytes@);
    assert(mandatory_tags()[1] != bytes@);
    assert(mandatory_tags()[2] != bytes@);
    assert(mandatory_tags()[3] != bytes@);
    assert(mandatory_tags()[4] != bytes@);
    assert(mandatory_tags()[5] != bytes@);
    assert(mandatory_tags()[6] != bytes@);
    None
}

/// The section in which a field with this tag stands.
pub fn classify(tag: &str) -> (section: Section)
    ensures
        section == section_of(tag.spec_bytes()),
{
    if bytes_eq(tag.as_bytes(), trailer_tag().as_bytes()) {
        Section::Trailer
    } else {
        match mandatory_position_of(tag) {
            Some(_) => Section::Header,
            None => Section::Body,
        }
    }
}

/// A tag that has a place among the mandatory header tags is the tag at that
/// place.
pub proof fn lemma_mandatory_position(tag: Seq<u8>)
    ensures
        mandatory_position(tag) matches Some(p) ==> p < 7 && mandatory_tags()[p as int] == tag,
{
}

/// No two of the mandatory header tags are the same, and none is the tag of
/// the checksum.
pub proof fn lemma_mandatory_tags_differ()
    ensures
        forall|i: int, j: int|
            0 <= i < j < 7 ==> #[trigger] mandatory_tags()[i] != #[trigger] mandatory_tags()[j],
        forall|i: int| 0 <= i < 7 ==> mandatory_position(#[trigger] mandatory_tags()[i]) == Some(i as nat),
        forall|i: int| 0 <= i < 7 ==> #[trigger] mandatory_tags()[i] != checksum_tag(),
        mandatory_position(checksum_tag()) is None,
{
    let t = mandatory_tags();
    assert(t[0][0] == 0x38 && t[1][0] == 0x39 && t[2][0] == 0x33 && t[3][0] == 0x34 && t[4][0]
        == 0x35 && t[5][0] == 0x33 && t[6][0] == 0x35);
    assert(t[0].len() == 1 && t[1].len() == 1 && t[2].len() == 2);
    assert(t[2][1] == 0x35 && t[3][1] == 0x39 && t[4][1] == 0x36 && t[5][1] == 0x34 && t[6][1]
        == 0x32);
    assert(checksum_tag()[0] == 0x31 && checksum_tag().len() == 2);
}

} // verus!
