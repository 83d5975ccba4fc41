//! Messages, and the codec that writes and reads them.
//!
//! On the wire a message is its header fields, its body fields and one
//! trailer field, the checksum. The header starts with the begin string (`8`)
//! and the body length (`9`); the other mandatory header fields follow in
//! their fixed order, then the header fields that are not mandatory, in the
//! order in which the message holds them. The body length counts every byte
//! between the body length field and the checksum field.

use crate::clock::Clock;
use crate::field_map::has_key;
use crate::field_map::lemma_put;
use crate::field_map::put;
use crate::field_map::value_of;
use crate::field_map::FieldMap;
use crate::text::bytes_eq;
use crate::text::find_byte;
use crate::text::lemma_run_len;
use crate::text::push_text;
use crate::text::run_len;
use crate::text::slice_text;
use crate::wire::begin_string_tag;
use crate::wire::body_length_tag;
use crate::wire::checksum;
use crate::wire::checksum_extend;
use crate::wire::checksum_of;
use crate::wire::checksum_string;
use crate::wire::checksum_tag;
use crate::wire::checksum_text;
use crate::wire::classify;
use crate::wire::decimal;
use crate::wire::decimal_string;
use crate::wire::default_begin_string;
use crate::wire::field;
use crate::wire::fields;
use crate::wire::mandatory_position;
use crate::wire::mandatory_position_of;
use crate::wire::mandatory_tag;
use crate::wire::mandatory_tags;
use crate::wire::push_field;
use crate::wire::section_of;
use crate::wire::sending_time_tag;
use crate::wire::split_field;
use crate::wire::split_token;
use crate::wire::trailer_tag;
use crate::wire::DecodeError;
use crate::wire::Entries;
use crate::wire::Section;
use crate::wire::DELIMITER;
use std::sync::Arc;
use vstd::prelude::*;
use vstd::string::StringSliceAdditionalSpecFns;
use vstd::utf8::*;

verus! {

/// What a message holds: the fields of its three sections.
pub struct MessageView {
    pub header: Entries,
    pub body: Entries,
    pub trailer: Entries,
}

/// A message.
#[derive(Debug)]
pub struct FixMessage {
    pub header: FieldMap,
    pub body: FieldMap,
    pub trailer: FieldMap,
}

impl View for FixMessage {
    type V = MessageView;

    open spec fn view(&self) -> MessageView {
        MessageView { header: self.header@, body: self.body@, trailer: self.trailer@ }
    }
}

/// The message without fields.
pub open spec fn empty_message() -> MessageView {
    MessageView { header: Seq::empty(), body: Seq::empty(), trailer: Seq::empty() }
}

/// The header as the encoder completes it: the begin string is `FIX.4.4` and
/// the sending time is `now` where the header names none.
pub open spec fn with_defaults(header: Entries, now: Seq<u8>) -> Entries {
    let named = if has_key(header, begin_string_tag()) {
        header
    } else {
        put(header, begin_string_tag(), default_begin_string())
    };
    if has_key(named, sending_time_tag()) {
        named
    } else {
        put(named, sending_time_tag(), now)
    }
}

/// The field of `header` with this tag on the wire; nothing where the header
/// has no such field.
pub open spec fn present_field(header: Entries, tag: Seq<u8>) -> Seq<u8> {
    if has_key(header, tag) {
        field(tag, value_of(header, tag))
    } else {
        Seq::empty()
    }
}

/// The mandatory header fields from place `from` up to place `to` that
/// `header` holds, in their fixed order.
pub open spec fn mandatory_fields(header: Entries, from: int, to: int) -> Seq<u8>
    decreases to - from,
{
    if from >= to {
        Seq::empty()
    } else {
        mandatory_fields(header, from, to - 1) + present_field(header, mandatory_tags()[to - 1])
    }
}

/// The header fields that are not mandatory, in the order of `header`.
pub open spec fn optional_fields(header: Entries) -> Seq<u8>
    decreases header.len(),
{
    if header.len() == 0 {
        Seq::empty()
    } else if mandatory_position(header.last().0) is Some {
        optional_fields(header.drop_last())
    } else {
        optional_fields(header.drop_last()) + field(header.last().0, header.last().1)
    }
}

/// The bytes that the body length counts: the header fields after the body
/// length, then the body fields.
pub open spec fn payload(header: Entries, body: Entries) -> Seq<u8> {
    mandatory_fields(header, 2, 7) + optional_fields(header) + fields(body)
}

/// All of a message before its checksum field.
pub open spec fn checked_part(begin_string: Seq<u8>, payload: Seq<u8>) -> Seq<u8> {
    field(begin_string_tag(), begin_string) + field(body_length_tag(), decimal(payload.len()))
        + payload
}

/// A message on the wire: the begin string, the length of `payload`,
/// `payload`, and the checksum of all of these.
pub open spec fn framed(begin_string: Seq<u8>, payload: Seq<u8>) -> Seq<u8> {
    checked_part(begin_string, payload) + field(
        checksum_tag(),
        checksum_text(checksum(checked_part(begin_string, payload))),
    )
}

/// The message `m` on the wire, sent at `now`.
pub open spec fn encoded(m: MessageView, now: Seq<u8>) -> Seq<u8> {
    let header = with_defaults(m.header, now);
    framed(value_of(header, begin_string_tag()), payload(header, m.body))
}

/// The message `m` as encoding leaves it: the header completed and with its
/// body length, the trailer made of the checksum alone.
pub open spec fn sealed(m: MessageView, now: Seq<u8>) -> MessageView {
    let header = with_defaults(m.header, now);
    let begin_string = value_of(header, begin_string_tag());
    let payload = payload(header, m.body);
    MessageView {
        header: put(header, body_length_tag(), decimal(payload.len())),
        body: m.body,
        trailer: seq![
            (checksum_tag(), checksum_text(checksum(checked_part(begin_string, payload)))),
        ],
    }
}

/// The message `m` with the field `tag=value` in the section of `tag`.
pub open spec fn place(m: MessageView, tag: Seq<u8>, value: Seq<u8>) -> MessageView {
    match section_of(tag) {
        Section::Header => MessageView { header: put(m.header, tag, value), ..m },
        Section::Body => MessageView { body: put(m.body, tag, value), ..m },
        Section::Trailer => MessageView { trailer: put(m.trailer, tag, value), ..m },
    }
}

/// Where the checksum field of `text` starts, and the message made of the
/// fields before it, as reading finds them from byte `at` on with the fields
/// before `at` already in `read`.
///
/// Empty tokens are passed over. The checksum field is the first field with
/// the tag `10`; what follows it is not read. A field without `=` before the
/// checksum field makes the text malformed, and so does a token that no
/// delimiter ends.
pub open spec fn scan(text: Seq<u8>, at: int, read: MessageView) -> Result<
    (int, MessageView),
    DecodeError,
>
    decreases text.len() - at,
{
    if at < 0 || at >= text.len() {
        Err(DecodeError::ChecksumMissing)
    } else {
        let len = run_len(text, DELIMITER, at);
        if at + len >= text.len() {
            Err(DecodeError::MalformedMessage)
        } else if len == 0 {
            scan(text, at + 1, read)
        } else {
            match split_token(text.subrange(at, at + len)) {
                Err(e) => Err(e),
                Ok((tag, value)) => if tag == checksum_tag() {
                    Ok((at, read))
                } else {
                    scan(text, at + len + 1, place(read, tag, value))
                },
            }
        }
    }
}

/// The value of the field of `text` that starts at `at`.
pub open spec fn field_value(text: Seq<u8>, at: int) -> Seq<u8> {
    match split_token(text.subrange(at, at + run_len(text, DELIMITER, at))) {
        Ok((_, value)) => value,
        Err(_) => Seq::empty(),
    }
}

/// What reading `text` gives: the message it holds, or why it holds none.
///
/// The text has to end with the delimiter and to hold a checksum field, and
/// the value of that field has to be the checksum of all bytes before the
/// field, in three digits.
pub open spec fn decoded(text: Seq<u8>) -> Result<MessageView, DecodeError> {
    if text.len() == 0 || text.last() != DELIMITER {
        Err(DecodeError::MalformedMessage)
    } else {
        match scan(text, 0, empty_message()) {
            Err(e) => Err(e),
            Ok((at, read)) => if field_value(text, at) == checksum_text(checksum(text.take(at))) {
                Ok(place(read, checksum_tag(), field_value(text, at)))
            } else {
                Err(DecodeError::InvalidChecksum)
            },
        }
    }
}

/// The begin string of a message that names none.
fn default_begin_string_text() -> (text: &'static str)
    ensures
        text.spec_bytes() == default_begin_string(),
{
    proof {
        reveal_strlit("FIX.4.4");
        crate::text::lemma_ascii_bytes("FIX.4.4"@);
        assert("FIX.4.4".spec_bytes() =~= default_begin_string());
    }
    "FIX.4.4"
}

/// The checksum of `fix_str` as it is written: three digits.
pub fn calculate_checksum(fix_str: &str) -> (text: String)
    ensures
        encode_utf8(text@) == checksum_text(checksum(fix_str.spec_bytes())),
{
    checksum_string(checksum_of(fix_str.as_bytes()))
}

impl FixMessage {
    /// A message without fields.
    pub fn new() -> (message: FixMessage)
        ensures
            message@ == empty_message(),
    {
        FixMessage { header: FieldMap::new(), body: FieldMap::new(), trailer: FieldMap::new() }
    }

    /// The bytes that the body length counts.
    fn payload_text(&self) -> (text: String)
        ensures
            encode_utf8(text@) == payload(self.header@, self.body@),
    {
        let mut text = String::new();
        assert(encode_utf8(text@) =~= Seq::<u8>::empty());
        let ghost header = self.header@;
        let ghost body = self.body@;
        let mut i: usize = 2;
        while i < 7
            invariant
                2 <= i <= 7,
                header == self.header@,
                encode_utf8(text@) == mandatory_fields(header, 2, i as int),
            decreases 7 - i,
        {
            let tag = mandatory_tag(i);
            match self.header.get(tag) {
                Some(value) => {
                    push_field(&mut text, tag, value.as_str());
                },
                None => {
                    assert(encode_utf8(text@) + Seq::<u8>::empty() =~= encode_utf8(text@));
                },
            }
            i += 1;
        }
        let count = self.header.len();
        let mut j: usize = 0;
        while j < count
            invariant
                j <= count,
                count == header.len(),
                header == self.header@,
                encode_utf8(text@) == mandatory_fields(header, 2, 7) + optional_fields(
                    header.take(j as int),
                ),
            decreases count - j,
        {
            proof {
                assert(header.take(j + 1).drop_last() =~= header.take(j as int));
            }
            let tag = self.header.tag_at(j);
            if mandatory_position_of(tag.as_str()).is_none() {
                push_field(&mut text, tag.as_str(), self.header.value_at(j).as_str());
                assert(encode_utf8(text@) =~= mandatory_fields(header, 2, 7) + optional_fields(
                    header.take(j + 1),
                ));
            }
            j += 1;
        }
        assert(header.take(count as int) =~= header);
        let count = self.body.len();
        let mut k: usize = 0;
        while k < count
            invariant
                k <= count,
                count == body.len(),
                body == self.body@,
                encode_utf8(text@) == mandatory_fields(header, 2, 7) + optional_fields(header)
                    + fields(body.take(k as int)),
            decreases count - k,
        {
            proof {
                assert(body.take(k + 1).drop_last() =~= body.take(k as int));
            }
            push_field(&mut text, self.body.tag_at(k).as_str(), self.body.value_at(k).as_str());
            assert(encode_utf8(text@) =~= mandatory_fields(header, 2, 7) + optional_fields(header)
                + fields(body.take(k + 1)));
            k += 1;
        }
        assert(body.take(count as int) =~= body);
        text
    }

    /// Puts the message on the wire, sent at `now` where it names no sending
    /// time, and leaves in it what was sent: the completed header with the
    /// body length, and the checksum as the only trailer field.
    pub fn encode_with_time(&mut self, now: &str) -> (text: String)
        ensures
            encode_utf8(text@) == encoded(old(self)@, now.spec_bytes()),
            final(self)@ == sealed(old(self)@, now.spec_bytes()),
    {
        proof {
            use_type_invariant(&self.header);
            let named = if has_key(self.header@, begin_string_tag()) {
                self.header@
            } else {
                put(self.header@, begin_string_tag(), default_begin_string())
            };
            lemma_put(self.header@, begin_string_tag(), default_begin_string());
            lemma_put(named, sending_time_tag(), now.spec_bytes());
            assert(begin_string_tag()[0] != sending_time_tag()[0]);
        }
        if !self.header.contains_key(mandatory_tag(0)) {
            self.header.insert(mandatory_tag(0).to_owned(), default_begin_string_text().to_owned());
        }
        if !self.header.contains_key(mandatory_tag(6)) {
            self.header.insert(mandatory_tag(6).to_owned(), now.to_owned());
        }
        let ghost header = self.header@;
        assert(header == with_defaults(old(self)@.header, now.spec_bytes()));
        assert(has_key(header, begin_string_tag()));
        let payload = self.payload_text();
        let length = decimal_string(payload.as_str().as_bytes().len());

        let mut text = String::new();
        assert(encode_utf8(text@) =~= Seq::<u8>::empty());
        if let Some(begin_string) = self.header.get(mandatory_tag(0)) {
            push_field(&mut text, mandatory_tag(0), begin_string.as_str());
        }
        push_field(&mut text, mandatory_tag(1), length.as_str());
        push_text(&mut text, payload.as_str());
        let ghost checked = checked_part(value_of(header, begin_string_tag()), encode_utf8(payload@));
        assert(encode_utf8(text@) =~= checked);
        let sum = checksum_string(checksum_of(text.as_str().as_bytes()));
        push_field(&mut text, trailer_tag(), sum.as_str());

        self.header.insert(mandatory_tag(1).to_owned(), length);
        self.trailer.clear();
        self.trailer.insert(trailer_tag().to_owned(), sum);
        proof {
            assert(!has_key(Entries::empty(), checksum_tag()));
            assert(self.trailer@ =~= seq![(checksum_tag(), checksum_text(checksum(checked)))]);
        }
        text
    }

    /// Puts the message on the wire and leaves in it what was sent.
    ///
    /// The clock is asked for the sending time only where the message names
    /// none; the time that was sent is then the sending time of the message.
    pub fn encode(&mut self, clock: &Arc<dyn Clock>) -> (text: String)
        ensures
            has_key(final(self)@.header, sending_time_tag()),
            encode_utf8(text@) == encoded(
                old(self)@,
                value_of(final(self)@.header, sending_time_tag()),
            ),
            final(self)@ == sealed(old(self)@, value_of(final(self)@.header, sending_time_tag())),
    {
        let ghost before = self@;
        proof {
            use_type_invariant(&self.header);
        }
        if self.header.contains_key(mandatory_tag(6)) {
            let text = self.encode_with_time("");
            proof {
                let kept = with_defaults(before.header, "".spec_bytes());
                lemma_put(before.header, begin_string_tag(), default_begin_string());
                assert(has_key(kept, sending_time_tag()));
                let time = value_of(kept, sending_time_tag());
                assert(with_defaults(before.header, time) == kept);
                lemma_put(kept, body_length_tag(), decimal(payload(kept, before.body).len()));
            }
            text
        } else {
            let now = clock.now();
            let text = self.encode_with_time(now.as_str());
            proof {
                let named = if has_key(before.header, begin_string_tag()) {
                    before.header
                } else {
                    put(before.header, begin_string_tag(), default_begin_string())
                };
                lemma_put(before.header, begin_string_tag(), default_begin_string());
                lemma_put(named, sending_time_tag(), encode_utf8(now@));
                let stamped = with_defaults(before.header, encode_utf8(now@));
                lemma_put(
                    stamped,
                    body_length_tag(),
                    decimal(payload(stamped, before.body).len()),
                );
            }
            text
        }
    }

    /// Reads a message from `fix_str`.
    pub fn decode(fix_str: &str) -> (result: Result<FixMessage, DecodeError>)
        ensures
            match decoded(fix_str.spec_bytes()) {
                Ok(m) => result matches Ok(message) && message@ == m,
                Err(e) => result matches Err(error) && error == e,
            },
    {
        let bytes = fix_str.as_bytes();
        let n = bytes.len();
        if n == 0 || bytes[n - 1] != DELIMITER {
            return Err(DecodeError::MalformedMessage);
        }
        let mut message = FixMessage::new();
        let mut at: usize = 0;
        let mut sum: u8 = 0;
        assert(bytes@.take(0) =~= Seq::<u8>::empty());
        while at < n
            invariant
                at <= n,
                n == bytes@.len(),
                bytes@ == fix_str.spec_bytes(),
                bytes@.last() == DELIMITER,
                at == 0 || bytes@[at - 1] == DELIMITER,
                sum == checksum(bytes@.take(at as int)),
                scan(bytes@, 0, empty_message()) == scan(bytes@, at as int, message@),
            decreases n - at,
        {
            let end = find_byte(bytes, DELIMITER, at);
            proof {
                lemma_run_len(bytes@, DELIMITER, at as int);
            }
            if end > at {
                let token = slice_text(fix_str, at, end);
                match split_field(token) {
                    Err(e) => {
                        return Err(e);
                    },
                    Ok((tag, value)) => {
                        match classify(tag) {
                            Section::Trailer => {
                                let expected = checksum_string(sum);
                                if bytes_eq(value.as_bytes(), expected.as_str().as_bytes()) {
                                    message.trailer.insert(tag.to_owned(), value.to_owned());
                                    return Ok(message);
                                } else {
                                    return Err(DecodeError::InvalidChecksum);
                                }
                            },
                            Section::Header => {
                                message.header.insert(tag.to_owned(), value.to_owned());
                            },
                            Section::Body => {
                                message.body.insert(tag.to_owned(), value.to_owned());
                            },
                        }
                    },
                }
            }
            sum = checksum_extend(sum, bytes, at, end + 1);
            at = end + 1;
        }
        Err(DecodeError::ChecksumMissing)
    }
}

} // verus!
