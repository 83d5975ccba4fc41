//! Reading gives back what was written, and the body length that is read is
//! the number of bytes between the body length field and the checksum field.

use crate::field_map::as_map;
use crate::field_map::distinct_keys;
use crate::field_map::has_key;
use crate::field_map::key_index;
use crate::field_map::lemma_put;
use crate::field_map::put;
use crate::field_map::value_of;
use crate::message::checked_part;
use crate::message::decoded;
use crate::message::empty_message;
use crate::message::encoded;
use crate::message::payload;
use crate::message::place;
use crate::message::scan;
use crate::message::sealed;
use crate::message::with_defaults;
use crate::message::MessageView;
use crate::message_lemmas::lemma_decoded_encoded;
use crate::message_lemmas::lemma_scan_encoded;
use crate::message_lemmas::place_all;
use crate::message_lemmas::place_mandatory;
use crate::message_lemmas::place_optional;
use crate::message_lemmas::readable;
use crate::message_lemmas::received;
use crate::text::run_len;
use crate::wire::begin_string_tag;
use crate::wire::body_length_tag;
use crate::wire::checksum;
use crate::wire::checksum_tag;
use crate::wire::checksum_text;
use crate::wire::decimal;
use crate::wire::default_begin_string;
use crate::wire::field;
use crate::wire::lemma_mandatory_position;
use crate::wire::lemma_mandatory_tags_differ;
use crate::wire::mandatory_position;
use crate::wire::mandatory_tags;
use crate::wire::section_of;
use crate::wire::sending_time_tag;
use crate::wire::Entries;
use crate::wire::Section;
use crate::wire::DELIMITER;
use vstd::prelude::*;

verus! {

/// Whether `tag` is the mandatory header tag of a place from `from` up to
/// `to`.
pub open spec fn mandatory_between(tag: Seq<u8>, from: int, to: int) -> bool {
    mandatory_position(tag) matches Some(p) && from <= p < to
}

/// Every tag of `header` is a mandatory header tag.
pub open spec fn only_mandatory(header: Entries) -> bool {
    forall|i: int| 0 <= i < header.len() ==> mandatory_position((#[trigger] header[i]).0) is Some
}

/// Every tag of `body` is a body tag: neither a mandatory header tag nor the
/// tag of the checksum.
pub open spec fn only_body(body: Entries) -> bool {
    forall|i: int| 0 <= i < body.len() ==> section_of((#[trigger] body[i]).0) == Section::Body
}

/// No field of `entries` has the tag `tag`.
pub open spec fn without_tag(entries: Entries, tag: Seq<u8>) -> bool {
    forall|i: int| 0 <= i < entries.len() ==> (#[trigger] entries[i]).0 != tag
}

/// The bytes of `text` after its second field and before its checksum field:
/// what the body length of a message counts.
pub open spec fn counted_span(text: Seq<u8>) -> Seq<u8> {
    let first: int = run_len(text, DELIMITER, 0) as int + 1;
    let second: int = first + run_len(text, DELIMITER, first) + 1;
    match scan(text, 0, empty_message()) {
        Ok((at, _)) => text.subrange(second, at),
        Err(_) => Seq::empty(),
    }
}

/// Placing a field leaves what another tag maps to in the header.
pub proof fn lemma_place_keeps(read: MessageView, tag: Seq<u8>, value: Seq<u8>, kept: Seq<u8>)
    requires
        distinct_keys(read.header),
        tag != kept,
    ensures
        distinct_keys(place(read, tag, value).header),
        has_key(place(read, tag, value).header, kept) == has_key(read.header, kept),
        has_key(read.header, kept) ==> value_of(place(read, tag, value).header, kept) == value_of(
            read.header,
            kept,
        ),
{
    lemma_put(read.header, tag, value);
}

/// Placing a run of fields leaves what a tag maps to in the header where
/// none of the fields has that tag.
pub proof fn lemma_place_all_keeps(read: MessageView, entries: Entries, kept: Seq<u8>)
    requires
        distinct_keys(read.header),
        without_tag(entries, kept),
    ensures
        distinct_keys(place_all(read, entries).header),
        has_key(place_all(read, entries).header, kept) == has_key(read.header, kept),
        has_key(read.header, kept) ==> value_of(place_all(read, entries).header, kept) == value_of(
            read.header,
            kept,
        ),
    decreases entries.len(),
{
    if entries.len() > 0 {
        let init = entries.drop_last();
        assert forall|i: int| 0 <= i < init.len() implies (#[trigger] init[i]).0 != kept by {
            assert(init[i] == entries[i]);
        }
        lemma_place_all_keeps(read, init, kept);
        assert(entries[entries.len() - 1].0 != kept);
        lemma_place_keeps(place_all(read, init), entries.last().0, entries.last().1, kept);
    }
}

/// Placing body fields that are all different adds them to an empty body in
/// their order, and touches nothing else.
pub proof fn lemma_place_all_body(read: MessageView, entries: Entries)
    requires
        only_body(entries),
        distinct_keys(entries),
        read.body == Entries::empty(),
    ensures
        place_all(read, entries).body == entries,
        place_all(read, entries).header == read.header,
        place_all(read, entries).trailer == read.trailer,
    decreases entries.len(),
{
    if entries.len() == 0 {
        assert(read.body =~= entries);
    } else {
        let init = entries.drop_last();
        let last = entries.last();
        assert forall|i: int| 0 <= i < init.len() implies section_of((#[trigger] init[i]).0)
            == Section::Body by {
            assert(init[i] == entries[i]);
        }
        assert forall|i: int, j: int| 0 <= i < j < init.len() implies (#[trigger] init[i]).0 != (
        #[trigger] init[j]).0 by {
            assert(entries[i].0 != entries[j].0);
        }
        lemma_place_all_body(read, init);
        assert(entries[entries.len() - 1] == last);
        if has_key(init, last.0) {
            let at = key_index(init, last.0);
            assert(entries[at].0 != entries[entries.len() - 1].0);
        }
        assert(init.push(last) =~= entries);
    }
}

/// Placing the header fields that are not mandatory never touches the
/// header, and does nothing where every header field is mandatory.
pub proof fn lemma_place_optional(read: MessageView, header: Entries)
    ensures
        place_optional(read, header).header == read.header,
        only_mandatory(header) ==> place_optional(read, header) == read,
    decreases header.len(),
{
    if header.len() > 0 {
        let init = header.drop_last();
        lemma_place_optional(read, init);
        assert(header[header.len() - 1] == header.last());
        if only_mandatory(header) {
            assert forall|i: int| 0 <= i < init.len() implies mandatory_position(
                (#[trigger] init[i]).0,
            ) is Some by {
                assert(init[i] == header[i]);
            }
        }
    }
}

/// Placing the mandatory fields that a header holds makes each of their tags
/// map to its value in that header, and touches nothing else.
pub proof fn lemma_place_mandatory(read: MessageView, header: Entries, from: int, to: int)
    requires
        0 <= from <= to <= 7,
        distinct_keys(read.header),
    ensures
        place_mandatory(read, header, from, to).body == read.body,
        place_mandatory(read, header, from, to).trailer == read.trailer,
        distinct_keys(place_mandatory(read, header, from, to).header),
        forall|k: Seq<u8>| #[trigger]
            has_key(place_mandatory(read, header, from, to).header, k) <==> has_key(
                read.header,
                k,
            ) || (has_key(header, k) && mandatory_between(k, from, to)),
        forall|k: Seq<u8>|
            has_key(place_mandatory(read, header, from, to).header, k) ==> #[trigger] value_of(
                place_mandatory(read, header, from, to).header,
                k,
            ) == if has_key(header, k) && mandatory_between(k, from, to) {
                value_of(header, k)
            } else {
                value_of(read.header, k)
            },
    decreases to - from,
{
    if from < to {
        let before = place_mandatory(read, header, from, to - 1);
        let after = place_mandatory(read, header, from, to);
        let tag = mandatory_tags()[to - 1];
        lemma_place_mandatory(read, header, from, to - 1);
        lemma_mandatory_tags_differ();
        assert(mandatory_position(tag) == Some((to - 1) as nat));
        assert(section_of(tag) == Section::Header);
        assert forall|k: Seq<u8>| k != tag implies mandatory_between(k, from, to)
            == mandatory_between(k, from, to - 1) by {
            lemma_mandatory_position(k);
        }
        if has_key(header, tag) {
            lemma_put(before.header, tag, value_of(header, tag));
            assert forall|k: Seq<u8>| #[trigger]
                has_key(after.header, k) <==> has_key(read.header, k) || (has_key(header, k)
                    && mandatory_between(k, from, to)) by {
                if k != tag {
                    assert(has_key(after.header, k) == has_key(before.header, k));
                }
            }
            assert forall|k: Seq<u8>| has_key(after.header, k) implies #[trigger] value_of(
                after.header,
                k,
            ) == if has_key(header, k) && mandatory_between(k, from, to) {
                value_of(header, k)
            } else {
                value_of(read.header, k)
            } by {
                if k != tag {
                    assert(has_key(before.header, k));
                    assert(value_of(after.header, k) == value_of(before.header, k));
                }
            }
        } else {
            assert forall|k: Seq<u8>| #[trigger]
                has_key(after.header, k) <==> has_key(read.header, k) || (has_key(header, k)
                    && mandatory_between(k, from, to)) by {
                assert(has_key(after.header, k) == has_key(before.header, k));
            }
        }
    }
}

/// The header that the encoder completes holds no tag twice where the header
/// of the message holds none twice, and only mandatory tags where that one
/// does.
pub proof fn lemma_with_defaults(header: Entries, now: Seq<u8>)
    requires
        distinct_keys(header),
    ensures
        distinct_keys(with_defaults(header, now)),
        has_key(with_defaults(header, now), begin_string_tag()),
        only_mandatory(header) ==> only_mandatory(with_defaults(header, now)),
{
    let named = if has_key(header, begin_string_tag()) {
        header
    } else {
        put(header, begin_string_tag(), default_begin_string())
    };
    let done = with_defaults(header, now);
    lemma_put(header, begin_string_tag(), default_begin_string());
    lemma_put(named, sending_time_tag(), now);
    assert(begin_string_tag()[0] != sending_time_tag()[0]);
    if only_mandatory(header) {
        assert forall|i: int| 0 <= i < named.len() implies mandatory_position(
            (#[trigger] named[i]).0,
        ) is Some by {
            if i < header.len() {
                assert(named[i] == header[i]);
            }
        }
        assert forall|i: int| 0 <= i < done.len() implies mandatory_position(
            (#[trigger] done[i]).0,
        ) is Some by {
            if i < named.len() {
                assert(done[i] == named[i]);
            }
        }
    }
}

/// Reading what was written gives the message back.
///
/// For a message that holds no byte of the framing in its tags and values,
/// whose header holds mandatory tags only and whose body holds body tags
/// only: reading its text succeeds; the header that is read maps every tag
/// to what the written header maps it to; the body that is read holds the
/// same fields in the same order; the trailer is the checksum.
pub proof fn lemma_decode_inverts_encode(m: MessageView, now: Seq<u8>)
    requires
        distinct_keys(m.header),
        distinct_keys(m.body),
        readable(m, now),
        only_mandatory(m.header),
        only_body(m.body),
    ensures
        decoded(encoded(m, now)) matches Ok(read) && as_map(read.header) == as_map(
            sealed(m, now).header,
        ) && read.body == m.body && as_map(read.body) == as_map(m.body) && read.trailer == sealed(
            m,
            now,
        ).trailer,
{
    lemma_decoded_encoded(m, now);
    let header = with_defaults(m.header, now);
    let begin_string = value_of(header, begin_string_tag());
    let span = payload(header, m.body);
    let length = decimal(span.len());
    let sum = checksum_text(checksum(checked_part(begin_string, span)));
    let r0 = empty_message();
    let r1 = place(r0, begin_string_tag(), begin_string);
    let r2 = place(r1, body_length_tag(), length);
    let r3 = place_mandatory(r2, header, 2, 7);
    let r4 = place_optional(r3, header);
    let r5 = place_all(r4, m.body);
    let read = place(r5, checksum_tag(), sum);
    assert(read == received(m, now));
    let written = sealed(m, now).header;

    lemma_with_defaults(m.header, now);
    lemma_mandatory_tags_differ();
    assert(mandatory_tags()[0] == begin_string_tag());
    assert(mandatory_tags()[1] == body_length_tag());
    assert(section_of(begin_string_tag()) == Section::Header);
    assert(section_of(body_length_tag()) == Section::Header);
    assert(section_of(checksum_tag()) == Section::Trailer);
    lemma_put(r0.header, begin_string_tag(), begin_string);
    lemma_put(r1.header, body_length_tag(), length);
    assert(!has_key(r0.header, begin_string_tag()));
    lemma_place_mandatory(r2, header, 2, 7);
    lemma_place_optional(r3, header);
    lemma_place_all_body(r4, m.body);
    assert(read.header == r3.header);
    assert(read.trailer =~= sealed(m, now).trailer) by {
        assert(!has_key(r5.trailer, checksum_tag()));
    }
    lemma_put(header, body_length_tag(), length);

    assert forall|k: Seq<u8>| has_key(r2.header, k) <==> k == begin_string_tag() || k
        == body_length_tag() by {
        if k != body_length_tag() && k != begin_string_tag() {
            assert(has_key(r2.header, k) == has_key(r1.header, k));
            assert(has_key(r1.header, k) == has_key(r0.header, k));
        }
    }
    assert forall|k: Seq<u8>| has_key(header, k) implies mandatory_position(k) is Some by {
        let at = key_index(header, k);
        assert(header[at].0 == k);
    }
    assert forall|k: Seq<u8>| has_key(r3.header, k) == has_key(written, k) && (has_key(
        r3.header,
        k,
    ) ==> value_of(r3.header, k) == value_of(written, k)) by {
        lemma_mandatory_position(k);
        if k == body_length_tag() {
            assert(has_key(r3.header, k));
        } else if k == begin_string_tag() {
            assert(has_key(r3.header, k));
            assert(value_of(r2.header, k) == value_of(r1.header, k));
        } else {
            assert(has_key(written, k) == has_key(header, k));
            assert(has_key(r3.header, k) == (has_key(r2.header, k) || (has_key(header, k)
                && mandatory_between(k, 2, 7))));
        }
    }
    assert(as_map(r3.header) =~= as_map(written));
}

/// The body length that is read is the number of bytes between the body
/// length field and the checksum field.
///
/// For a message that holds no byte of the framing in its tags and values,
/// and no body field with the tag of the body length: reading its text
/// succeeds, and gives as the body length the length, in decimal, of the
/// bytes after the second field and before the checksum field.
pub proof fn lemma_body_length_counts_span(m: MessageView, now: Seq<u8>)
    requires
        readable(m, now),
        without_tag(m.body, body_length_tag()),
    ensures
        decoded(encoded(m, now)) matches Ok(read) && has_key(read.header, body_length_tag())
            && value_of(read.header, body_length_tag()) == decimal(
            counted_span(encoded(m, now)).len(),
        ),
        counted_span(encoded(m, now)) == payload(with_defaults(m.header, now), m.body),
{
    lemma_decoded_encoded(m, now);
    lemma_scan_encoded(m, now);
    let header = with_defaults(m.header, now);
    let begin_string = value_of(header, begin_string_tag());
    let span = payload(header, m.body);
    let length = decimal(span.len());
    let text = encoded(m, now);
    let covered = checked_part(begin_string, span);
    let first = field(begin_string_tag(), begin_string);
    let second = field(body_length_tag(), length);
    assert(covered =~= first + second + span);
    assert(counted_span(text) =~= span) by {
        let from: int = (first.len() + second.len()) as int;
        assert(text.subrange(from, covered.len() as int) =~= text.take(
            covered.len() as int,
        ).subrange(from, covered.len() as int));
    }

    let r0 = empty_message();
    let r1 = place(r0, begin_string_tag(), begin_string);
    let r2 = place(r1, body_length_tag(), length);
    let r3 = place_mandatory(r2, header, 2, 7);
    let r4 = place_optional(r3, header);
    let r5 = place_all(r4, m.body);
    lemma_mandatory_tags_differ();
    assert(mandatory_tags()[0] == begin_string_tag());
    assert(mandatory_tags()[1] == body_length_tag());
    assert(section_of(begin_string_tag()) == Section::Header);
    assert(section_of(body_length_tag()) == Section::Header);
    assert(section_of(checksum_tag()) == Section::Trailer);
    lemma_put(r0.header, begin_string_tag(), begin_string);
    lemma_put(r1.header, body_length_tag(), length);
    lemma_place_mandatory(r2, header, 2, 7);
    assert(has_key(r3.header, body_length_tag()));
    assert(!mandatory_between(body_length_tag(), 2, 7));
    assert(value_of(r3.header, body_length_tag()) == length);
    lemma_place_optional(r3, header);
    lemma_place_all_keeps(r4, m.body, body_length_tag());
}

} // verus!
