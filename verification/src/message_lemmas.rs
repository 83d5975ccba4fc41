//! What holds of the codec: reading what was written gives the message back.

use crate::clock::is_time_stamp;
use crate::clock::is_time_stamp_byte;
use crate::field_map::has_key;
use crate::field_map::key_index;
use crate::field_map::put;
use crate::field_map::value_of;
use crate::message::checked_part;
use crate::message::decoded;
use crate::message::empty_message;
use crate::message::encoded;
use crate::message::field_value;
use crate::message::mandatory_fields;
use crate::message::optional_fields;
use crate::message::payload;
use crate::message::place;
use crate::message::scan;
use crate::message::with_defaults;
use crate::message::MessageView;
use crate::text::lemma_run_len;
use crate::text::lemma_run_len_is;
use crate::text::run_len;
use crate::wire::begin_string_tag;
use crate::wire::body_length_tag;
use crate::wire::checksum;
use crate::wire::checksum_tag;
use crate::wire::checksum_text;
use crate::wire::decimal;
use crate::wire::default_begin_string;
use crate::wire::field;
use crate::wire::fields;
use crate::wire::lemma_decimal_digits;
use crate::wire::mandatory_position;
use crate::wire::mandatory_tags;
use crate::wire::sending_time_tag;
use crate::wire::split_token;
use crate::wire::Entries;
use crate::wire::DELIMITER;
use crate::wire::SEPARATOR;
use vstd::prelude::*;

verus! {

/// A tag that can be read back: it holds neither the delimiter nor `=`.
pub open spec fn clean_tag(tag: Seq<u8>) -> bool {
    forall|i: int| 0 <= i < tag.len() ==> tag[i] != DELIMITER && tag[i] != SEPARATOR
}

/// A value that can be read back: it does not hold the delimiter.
pub open spec fn clean_value(value: Seq<u8>) -> bool {
    forall|i: int| 0 <= i < value.len() ==> value[i] != DELIMITER
}

/// Fields that can be read back, none of which is a checksum field.
pub open spec fn clean_entries(entries: Entries) -> bool {
    forall|i: int|
        0 <= i < entries.len() ==> clean_tag((#[trigger] entries[i]).0) && clean_value(
            entries[i].1,
        ) && entries[i].0 != checksum_tag()
}

/// A message that can be read back once it is written at `now`: its tags and
/// values hold no byte of the framing, no tag is the tag of the checksum, and
/// `now` holds no delimiter where the message names no sending time.
pub open spec fn readable(m: MessageView, now: Seq<u8>) -> bool {
    &&& clean_entries(m.header)
    &&& clean_entries(m.body)
    &&& !has_key(m.header, sending_time_tag()) ==> clean_value(now)
}

/// The time of the system clock can be read back.
pub proof fn lemma_time_stamp_is_clean(stamp: Seq<u8>)
    requires
        is_time_stamp(stamp),
    ensures
        clean_value(stamp),
{
    assert forall|i: int| 0 <= i < stamp.len() implies stamp[i] != DELIMITER by {
        assert(is_time_stamp_byte(stamp[i]));
    }
}

/// `read` with every field of `entries`, in their order.
pub open spec fn place_all(read: MessageView, entries: Entries) -> MessageView
    decreases entries.len(),
{
    if entries.len() == 0 {
        read
    } else {
        place(place_all(read, entries.drop_last()), entries.last().0, entries.last().1)
    }
}

/// `read` with the mandatory fields from place `from` up to place `to` that
/// `header` holds.
pub open spec fn place_mandatory(read: MessageView, header: Entries, from: int, to: int) -> MessageView
    decreases to - from,
{
    if from >= to {
        read
    } else {
        let before = place_mandatory(read, header, from, to - 1);
        let tag = mandatory_tags()[to - 1];
        if has_key(header, tag) {
            place(before, tag, value_of(header, tag))
        } else {
            before
        }
    }
}

/// `read` with the fields of `header` that are not mandatory.
pub open spec fn place_optional(read: MessageView, header: Entries) -> MessageView
    decreases header.len(),
{
    if header.len() == 0 {
        read
    } else if mandatory_position(header.last().0) is Some {
        place_optional(read, header.drop_last())
    } else {
        place(place_optional(read, header.drop_last()), header.last().0, header.last().1)
    }
}

/// The message that a reader makes of `m` written at `now`: the fields in
/// the order of the wire, each in the section of its tag.
pub open spec fn received(m: MessageView, now: Seq<u8>) -> MessageView {
    let header = with_defaults(m.header, now);
    let begin_string = value_of(header, begin_string_tag());
    let span = payload(header, m.body);
    let start = place(
        place(empty_message(), begin_string_tag(), begin_string),
        body_length_tag(),
        decimal(span.len()),
    );
    place(
        place_all(place_optional(place_mandatory(start, header, 2, 7), header), m.body),
        checksum_tag(),
        checksum_text(checksum(checked_part(begin_string, span))),
    )
}

/// A field with a clean tag and a clean value ends with its only delimiter
/// and splits at its first `=` into that tag and that value.
pub proof fn lemma_field_shape(tag: Seq<u8>, value: Seq<u8>)
    requires
        clean_tag(tag),
        clean_value(value),
    ensures
        field(tag, value).len() == tag.len() + value.len() + 2,
        run_len(field(tag, value), DELIMITER, 0) == tag.len() + value.len() + 1,
        split_token(field(tag, value).take((tag.len() + value.len() + 1) as int)) == Ok::<
            (Seq<u8>, Seq<u8>),
            crate::wire::DecodeError,
        >((tag, value)),
{
    let f = field(tag, value);
    let n = tag.len() + value.len() + 1;
    assert forall|i: int| 0 <= i < n implies f[i] != DELIMITER by {
        if i < tag.len() {
            assert(f[i] == tag[i]);
        } else if i > tag.len() {
            assert(f[i] == value[i - tag.len() - 1]);
        }
    }
    lemma_run_len_is(f, DELIMITER, 0, n as int);
    let token = f.take(n as int);
    assert forall|i: int| 0 <= i < tag.len() implies token[i] != SEPARATOR by {
        assert(token[i] == tag[i]);
    }
    assert(token[tag.len() as int] == SEPARATOR);
    lemma_run_len_is(token, SEPARATOR, 0, tag.len() as int);
    assert(token.take(tag.len() as int) =~= tag);
    assert(token.skip((tag.len() + 1) as int) =~= value);
}

/// Reading passes over one field: a field that is not the checksum field is
/// placed, and the checksum field is found where it stands.
pub proof fn lemma_scan_field(
    text: Seq<u8>,
    at: int,
    tag: Seq<u8>,
    value: Seq<u8>,
    read: MessageView,
)
    requires
        0 <= at,
        at + field(tag, value).len() <= text.len(),
        text.subrange(at, at + field(tag, value).len()) == field(tag, value),
        clean_tag(tag),
        clean_value(value),
    ensures
        tag != checksum_tag() ==> scan(text, at, read) == scan(
            text,
            at + field(tag, value).len(),
            place(read, tag, value),
        ),
        tag == checksum_tag() ==> scan(text, at, read) == Ok::<
            (int, MessageView),
            crate::wire::DecodeError,
        >((at, read)),
        field_value(text, at) == value,
{
    let f = field(tag, value);
    let n = tag.len() + value.len() + 1;
    lemma_field_shape(tag, value);
    lemma_run_len(f, DELIMITER, 0);
    assert forall|i: int| at <= i < at + n implies text[i] != DELIMITER by {
        assert(text[i] == text.subrange(at, at + f.len())[i - at]);
    }
    assert(text[at + n] == text.subrange(at, at + f.len())[n as int]);
    lemma_run_len_is(text, DELIMITER, at, at + n);
    assert(text.subrange(at, at + n) =~= f.take(n as int));
}

/// Reading passes over a run of fields and places each.
pub proof fn lemma_scan_fields(text: Seq<u8>, at: int, entries: Entries, read: MessageView)
    requires
        0 <= at,
        at + fields(entries).len() <= text.len(),
        text.subrange(at, at + fields(entries).len()) == fields(entries),
        clean_entries(entries),
    ensures
        scan(text, at, read) == scan(text, at + fields(entries).len(), place_all(read, entries)),
    decreases entries.len(),
{
    if entries.len() > 0 {
        let init = entries.drop_last();
        let last = entries.last();
        let mid = at + fields(init).len();
        assert(init.len() < entries.len());
        assert forall|i: int| 0 <= i < init.len() implies clean_tag((#[trigger] init[i]).0)
            && clean_value(init[i].1) && init[i].0 != checksum_tag() by {
            assert(init[i] == entries[i]);
        }
        assert(text.subrange(at, mid) =~= fields(entries).take(fields(init).len() as int));
        assert(fields(entries).take(fields(init).len() as int) =~= fields(init));
        lemma_scan_fields(text, at, init, read);
        assert(text.subrange(mid, mid + field(last.0, last.1).len()) =~= fields(entries).skip(
            fields(init).len() as int,
        ));
        assert(fields(entries).skip(fields(init).len() as int) =~= field(last.0, last.1));
        assert(entries[entries.len() - 1] == last);
        lemma_scan_field(text, mid, last.0, last.1, place_all(read, init));
    }
}

/// The value that a tag maps to is the value of one of the entries.
pub proof fn lemma_value_of_clean(entries: Entries, tag: Seq<u8>)
    requires
        clean_entries(entries),
        has_key(entries, tag),
    ensures
        clean_tag(tag),
        clean_value(value_of(entries, tag)),
        tag != checksum_tag(),
{
    let at = key_index(entries, tag);
    assert(entries[at].0 == tag);
}

/// Reading passes over the mandatory fields of a header and places each.
pub proof fn lemma_scan_mandatory(
    text: Seq<u8>,
    at: int,
    header: Entries,
    from: int,
    to: int,
    read: MessageView,
)
    requires
        0 <= from <= to <= 7,
        0 <= at,
        at + mandatory_fields(header, from, to).len() <= text.len(),
        text.subrange(at, at + mandatory_fields(header, from, to).len()) == mandatory_fields(
            header,
            from,
            to,
        ),
        clean_entries(header),
    ensures
        scan(text, at, read) == scan(
            text,
            at + mandatory_fields(header, from, to).len(),
            place_mandatory(read, header, from, to),
        ),
    decreases to - from,
{
    if from < to {
        let all = mandatory_fields(header, from, to);
        let init = mandatory_fields(header, from, to - 1);
        let tag = mandatory_tags()[to - 1];
        let mid = at + init.len();
        assert(text.subrange(at, mid) =~= all.take(init.len() as int));
        assert(all.take(init.len() as int) =~= init);
        lemma_scan_mandatory(text, at, header, from, to - 1, read);
        if has_key(header, tag) {
            let value = value_of(header, tag);
            lemma_value_of_clean(header, tag);
            assert(text.subrange(mid, mid + field(tag, value).len()) =~= all.skip(
                init.len() as int,
            ));
            assert(all.skip(init.len() as int) =~= field(tag, value));
            lemma_scan_field(text, mid, tag, value, place_mandatory(read, header, from, to - 1));
        } else {
            assert(all =~= init);
        }
    }
}

/// Reading passes over the fields of a header that are not mandatory and
/// places each.
pub proof fn lemma_scan_optional(text: Seq<u8>, at: int, header: Entries, read: MessageView)
    requires
        0 <= at,
        at + optional_fields(header).len() <= text.len(),
        text.subrange(at, at + optional_fields(header).len()) == optional_fields(header),
        clean_entries(header),
    ensures
        scan(text, at, read) == scan(
            text,
            at + optional_fields(header).len(),
            place_optional(read, header),
        ),
    decreases header.len(),
{
    if header.len() > 0 {
        let all = optional_fields(header);
        let init = header.drop_last();
        let last = header.last();
        let mid = at + optional_fields(init).len();
        assert forall|i: int| 0 <= i < init.len() implies clean_tag((#[trigger] init[i]).0)
            && clean_value(init[i].1) && init[i].0 != checksum_tag() by {
            assert(init[i] == header[i]);
        }
        assert(header[header.len() - 1] == last);
        if mandatory_position(last.0) is Some {
            lemma_scan_optional(text, at, init, read);
        } else {
            assert(text.subrange(at, mid) =~= all.take(optional_fields(init).len() as int));
            assert(all.take(optional_fields(init).len() as int) =~= optional_fields(init));
            lemma_scan_optional(text, at, init, read);
            assert(text.subrange(mid, mid + field(last.0, last.1).len()) =~= all.skip(
                optional_fields(init).len() as int,
            ));
            assert(all.skip(optional_fields(init).len() as int) =~= field(last.0, last.1));
            lemma_scan_field(text, mid, last.0, last.1, place_optional(read, init));
        }
    }
}

/// The header that the encoder completes can be read back where the message
/// can.
pub proof fn lemma_with_defaults_clean(m: MessageView, now: Seq<u8>)
    requires
        readable(m, now),
    ensures
        clean_entries(with_defaults(m.header, now)),
        has_key(with_defaults(m.header, now), begin_string_tag()),
        has_key(with_defaults(m.header, now), sending_time_tag()),
{
    let named = if has_key(m.header, begin_string_tag()) {
        m.header
    } else {
        put(m.header, begin_string_tag(), default_begin_string())
    };
    let header = with_defaults(m.header, now);
    assert(clean_tag(begin_string_tag()));
    assert(clean_tag(sending_time_tag()));
    assert(clean_value(default_begin_string()));
    assert(begin_string_tag()[0] != checksum_tag()[0]);
    assert(sending_time_tag()[0] != checksum_tag()[0]);
    assert(begin_string_tag()[0] != sending_time_tag()[0]);
    if !has_key(m.header, begin_string_tag()) {
        assert(named[m.header.len() as int].0 == begin_string_tag());
    }
    assert(has_key(named, begin_string_tag()));
    assert forall|i: int| 0 <= i < named.len() implies clean_tag((#[trigger] named[i]).0)
        && clean_value(named[i].1) && named[i].0 != checksum_tag() by {
        if i < m.header.len() {
            assert(named[i] == m.header[i]);
        }
    }
    if !has_key(named, sending_time_tag()) {
        assert(header[named.len() as int].0 == sending_time_tag());
        assert(!has_key(m.header, sending_time_tag())) by {
            if has_key(m.header, sending_time_tag()) {
                let at = key_index(m.header, sending_time_tag());
                assert(named[at].0 == sending_time_tag());
            }
        }
    }
    let at = key_index(named, begin_string_tag());
    assert(header[at].0 == begin_string_tag());
    assert forall|i: int| 0 <= i < header.len() implies clean_tag((#[trigger] header[i]).0)
        && clean_value(header[i].1) && header[i].0 != checksum_tag() by {
        if i < named.len() {
            assert(header[i] == named[i]);
        }
    }
}

/// The start of a text that is made of two parts holds the first part, and
/// then the second.
pub proof fn lemma_split(text: Seq<u8>, end: int, before: Seq<u8>, part: Seq<u8>)
    requires
        0 <= end <= text.len(),
        text.take(end) == before + part,
    ensures
        end == before.len() + part.len(),
        text.take(before.len() as int) == before,
        text.subrange(before.len() as int, end) == part,
{
    assert(text.take(end).len() == before.len() + part.len());
    assert(text.take(before.len() as int) =~= text.take(end).take(before.len() as int));
    assert(text.take(end).take(before.len() as int) =~= before);
    assert(text.subrange(before.len() as int, end) =~= text.take(end).skip(before.len() as int));
    assert(text.take(end).skip(before.len() as int) =~= part);
}

/// The first field of a text ends with the first delimiter of the text.
pub proof fn lemma_first_field(text: Seq<u8>, before: Seq<u8>, tag: Seq<u8>, value: Seq<u8>)
    requires
        clean_tag(tag),
        clean_value(value),
        before.len() + field(tag, value).len() <= text.len(),
        text.subrange(before.len() as int, (before.len() + field(tag, value).len()) as int) == field(
            tag,
            value,
        ),
    ensures
        run_len(text, DELIMITER, before.len() as int) + 1 == field(tag, value).len(),
{
    let f = field(tag, value);
    let at = before.len() as int;
    let n = f.len() - 1;
    lemma_field_shape(tag, value);
    lemma_run_len(f, DELIMITER, 0);
    assert forall|i: int| at <= i < at + n implies text[i] != DELIMITER by {
        assert(text[i] == text.subrange(at, at + f.len())[i - at]);
    }
    assert(text[at + n] == text.subrange(at, at + f.len())[n]);
    lemma_run_len_is(text, DELIMITER, at, at + n);
}

/// Reading a text that is made of a begin string, a body length, the
/// mandatory and the other fields of a header, the fields of a body and a
/// checksum field finds the checksum field, with every field before it
/// placed.
pub proof fn lemma_scan_layout(
    text: Seq<u8>,
    begin_string: Seq<u8>,
    length: Seq<u8>,
    header: Entries,
    body: Entries,
    sum: Seq<u8>,
)
    requires
        clean_value(begin_string),
        clean_value(length),
        clean_value(sum),
        clean_entries(header),
        clean_entries(body),
        text == field(begin_string_tag(), begin_string) + field(body_length_tag(), length)
            + mandatory_fields(header, 2, 7) + optional_fields(header) + fields(body) + field(
            checksum_tag(),
            sum,
        ),
    ensures
        ({
            let covered = field(begin_string_tag(), begin_string) + field(
                body_length_tag(),
                length,
            ) + mandatory_fields(header, 2, 7) + optional_fields(header) + fields(body);
            let start = place(
                place(empty_message(), begin_string_tag(), begin_string),
                body_length_tag(),
                length,
            );
            &&& scan(text, 0, empty_message()) == Ok::<(int, MessageView), crate::wire::DecodeError>(
                (
                    covered.len() as int,
                    place_all(place_optional(place_mandatory(start, header, 2, 7), header), body),
                ),
            )
            &&& field_value(text, covered.len() as int) == sum
            &&& text.take(covered.len() as int) == covered
            &&& text.len() == covered.len() + sum.len() + 4
            &&& text.last() == DELIMITER
            &&& run_len(text, DELIMITER, 0) + 1 == field(begin_string_tag(), begin_string).len()
            &&& run_len(text, DELIMITER, field(begin_string_tag(), begin_string).len() as int) + 1
                == field(body_length_tag(), length).len()
        }),
{
    let first = field(begin_string_tag(), begin_string);
    let second = field(body_length_tag(), length);
    let mandatory = mandatory_fields(header, 2, 7);
    let optional = optional_fields(header);
    let rest = fields(body);
    let last = field(checksum_tag(), sum);
    let empty = Seq::<u8>::empty();
    let b1 = first;
    let b2 = b1 + second;
    let b3 = b2 + mandatory;
    let b4 = b3 + optional;
    let b5 = b4 + rest;

    assert(clean_tag(begin_string_tag()));
    assert(clean_tag(body_length_tag()));
    assert(clean_tag(checksum_tag()));
    assert(body_length_tag()[0] != checksum_tag()[0]);
    assert(begin_string_tag()[0] != checksum_tag()[0]);
    lemma_field_shape(checksum_tag(), sum);

    assert(text.take(text.len() as int) =~= text);
    lemma_split(text, text.len() as int, b5, last);
    lemma_split(text, b5.len() as int, b4, rest);
    lemma_split(text, b4.len() as int, b3, optional);
    lemma_split(text, b3.len() as int, b2, mandatory);
    lemma_split(text, b2.len() as int, b1, second);
    assert(empty + first =~= first);
    lemma_split(text, b1.len() as int, empty, first);

    let r0 = empty_message();
    let r1 = place(r0, begin_string_tag(), begin_string);
    let r2 = place(r1, body_length_tag(), length);
    let r3 = place_mandatory(r2, header, 2, 7);
    let r4 = place_optional(r3, header);
    let r5 = place_all(r4, body);
    lemma_scan_field(text, 0, begin_string_tag(), begin_string, r0);
    lemma_scan_field(text, b1.len() as int, body_length_tag(), length, r1);
    lemma_scan_mandatory(text, b2.len() as int, header, 2, 7, r2);
    lemma_scan_optional(text, b3.len() as int, header, r3);
    lemma_scan_fields(text, b4.len() as int, body, r4);
    lemma_scan_field(text, b5.len() as int, checksum_tag(), sum, r5);
    lemma_first_field(text, empty, begin_string_tag(), begin_string);
    lemma_first_field(text, b1, body_length_tag(), length);
    assert(text[text.len() - 1] == last[last.len() - 1]);
}

/// Reading a written message finds its checksum field right after the part
/// that the checksum covers, with every field before it placed.
pub proof fn lemma_scan_encoded(m: MessageView, now: Seq<u8>)
    requires
        readable(m, now),
    ensures
        ({
            let header = with_defaults(m.header, now);
            let begin_string = value_of(header, begin_string_tag());
            let span = payload(header, m.body);
            let start = place(
                place(empty_message(), begin_string_tag(), begin_string),
                body_length_tag(),
                decimal(span.len()),
            );
            let text = encoded(m, now);
            let covered = checked_part(begin_string, span);
            &&& scan(text, 0, empty_message()) == Ok::<(int, MessageView), crate::wire::DecodeError>(
                (
                    covered.len() as int,
                    place_all(place_optional(place_mandatory(start, header, 2, 7), header), m.body),
                ),
            )
            &&& field_value(text, covered.len() as int) == checksum_text(checksum(covered))
            &&& text.take(covered.len() as int) == covered
            &&& text.len() == covered.len() + 7
            &&& text.last() == DELIMITER
            &&& clean_value(begin_string)
            &&& run_len(text, DELIMITER, 0) + 1 == field(begin_string_tag(), begin_string).len()
            &&& run_len(text, DELIMITER, field(begin_string_tag(), begin_string).len() as int) + 1
                == field(body_length_tag(), decimal(span.len())).len()
        }),
{
    let header = with_defaults(m.header, now);
    let begin_string = value_of(header, begin_string_tag());
    let span = payload(header, m.body);
    let length = decimal(span.len());
    let covered = checked_part(begin_string, span);
    let sum = checksum_text(checksum(covered));
    lemma_with_defaults_clean(m, now);
    lemma_value_of_clean(header, begin_string_tag());
    lemma_decimal_digits(span.len());
    assert(clean_value(length)) by {
        assert forall|i: int| 0 <= i < length.len() implies length[i] != DELIMITER by {
            assert(0x30 <= length[i]);
        }
    }
    assert(clean_value(sum));
    let first = field(begin_string_tag(), begin_string);
    let second = field(body_length_tag(), length);
    assert(covered =~= first + second + mandatory_fields(header, 2, 7) + optional_fields(header)
        + fields(m.body));
    lemma_scan_layout(encoded(m, now), begin_string, length, header, m.body, sum);
}

/// The place of the delimiter that ends the field of `text` that starts at
/// `start`.
pub open spec fn field_end(text: Seq<u8>, start: int) -> int {
    start + run_len(text, DELIMITER, start)
}

/// The field that reading finds as the checksum field starts with `10=`,
/// ends with the first delimiter after that, and has between the two its
/// value.
pub proof fn lemma_checksum_field(text: Seq<u8>, from: int, read: MessageView)
    requires
        0 <= from,
        scan(text, from, read) is Ok,
    ensures
        ({
            let start = scan(text, from, read)->Ok_0.0;
            let end = field_end(text, start);
            &&& from <= start
            &&& start + 3 <= end < text.len()
            &&& text[start] == 0x31
            &&& text[start + 1] == 0x30
            &&& text[start + 2] == SEPARATOR
            &&& text[end] == DELIMITER
            &&& forall|i: int| start <= i < end ==> text[i] != DELIMITER
            &&& field_value(text, start) == text.subrange(start + 3, end)
        }),
    decreases text.len() - from,
{
    let len = run_len(text, DELIMITER, from);
    lemma_run_len(text, DELIMITER, from);
    if len == 0 {
        lemma_checksum_field(text, from + 1, read);
    } else {
        let token = text.subrange(from, from + len);
        let at = run_len(token, SEPARATOR, 0) as int;
        lemma_run_len(token, SEPARATOR, 0);
        let tag = token.take(at);
        let value = token.skip(at + 1);
        if tag == checksum_tag() {
            assert(tag.len() == at);
            assert(checksum_tag().len() == 2);
            assert(at == 2);
            assert(tag[0] == 0x31 && tag[1] == 0x30);
            assert(token[0] == tag[0] && token[1] == tag[1]);
            assert(text[from] == token[0] && text[from + 1] == token[1] && text[from + 2]
                == token[2]);
            assert(value =~= text.subrange(from + 3, from + len));
        } else {
            lemma_checksum_field(text, from + len + 1, place(read, tag, value));
        }
    }
}

/// Reading what was written succeeds, and gives each field in the section of
/// its tag.
pub proof fn lemma_decoded_encoded(m: MessageView, now: Seq<u8>)
    requires
        readable(m, now),
    ensures
        decoded(encoded(m, now)) == Ok::<MessageView, crate::wire::DecodeError>(received(m, now)),
{
    lemma_scan_encoded(m, now);
}

} // verus!
