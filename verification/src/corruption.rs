//! A changed byte is found out: a text that was read as a message is
//! refused for its checksum once one of its bytes is another.

use crate::message::decoded;
use crate::message::empty_message;
use crate::message::encoded;
use crate::message::field_value;
use crate::message::scan;
use crate::message::MessageView;
use crate::message_lemmas::field_end;
use crate::message_lemmas::lemma_checksum_field;
use crate::message_lemmas::lemma_decoded_encoded;
use crate::message_lemmas::lemma_scan_encoded;
use crate::message_lemmas::readable;
use crate::text::lemma_run_len_is;
use crate::wire::byte_sum;
use crate::wire::checksum;
use crate::wire::checksum_text;
use crate::wire::lemma_byte_sum_update;
use crate::wire::lemma_checksum_text_injective;
use crate::wire::DecodeError;
use crate::wire::DELIMITER;
use vstd::prelude::*;

verus! {

/// Where the checksum field of `text` starts, where reading finds one.
pub open spec fn checksum_field_start(text: Seq<u8>) -> Option<int> {
    match scan(text, 0, empty_message()) {
        Ok((at, _)) => Some(at),
        Err(_) => None,
    }
}

/// Whether `changed` still has the framing of `text`: it ends with the
/// delimiter, every field before its checksum field has its `=`, and its
/// checksum field starts where that of `text` does.
pub open spec fn same_framing(text: Seq<u8>, changed: Seq<u8>) -> bool {
    &&& changed.len() > 0
    &&& changed.last() == DELIMITER
    &&& checksum_field_start(changed) is Some
    &&& checksum_field_start(changed) == checksum_field_start(text)
}

/// Two texts that differ in one byte have different checksums.
pub proof fn lemma_checksum_changes(bytes: Seq<u8>, at: int, byte: u8)
    requires
        0 <= at < bytes.len(),
        byte != bytes[at],
    ensures
        checksum(bytes.update(at, byte)) != checksum(bytes),
{
    lemma_byte_sum_update(bytes, at, byte);
    let before = byte_sum(bytes) as int;
    let after = byte_sum(bytes.update(at, byte)) as int;
    assert(after - before == byte - bytes[at]);
    if after % 256 == before % 256 {
        assert((after - before) % 256 == 0) by (nonlinear_arith)
            requires
                after % 256 == before % 256,
        ;
    }
}

/// A text that is read as a message is refused for its checksum once one of
/// its bytes, up to the delimiter that ends its checksum field, is another,
/// where the change leaves the framing: the text still ends with the
/// delimiter, no field before the checksum field has lost its `=`, and the
/// checksum field still starts at the same place.
pub proof fn lemma_changed_byte_fails_checksum(text: Seq<u8>, at: int, byte: u8)
    requires
        decoded(text) is Ok,
        checksum_field_start(text) matches Some(start) && 0 <= at <= field_end(text, start),
        at < text.len(),
        byte != text[at],
        same_framing(text, text.update(at, byte)),
    ensures
        decoded(text.update(at, byte)) == Err::<MessageView, DecodeError>(
            DecodeError::InvalidChecksum,
        ),
{
    let changed = text.update(at, byte);
    let start = checksum_field_start(text)->Some_0;
    let end = field_end(text, start);
    let new_end = field_end(changed, start);
    lemma_checksum_field(text, 0, empty_message());
    lemma_checksum_field(changed, 0, empty_message());
    let sum = checksum(text.take(start));
    let new_sum = checksum(changed.take(start));
    let value = field_value(text, start);
    let new_value = field_value(changed, start);
    assert(value == checksum_text(sum));
    assert(value.len() == 3);
    assert(end == start + 6);
    if at < start {
        assert(changed.take(start) =~= text.take(start).update(at, byte));
        lemma_checksum_changes(text.take(start), at, byte);
        assert forall|i: int| start <= i < end implies changed[i] != DELIMITER by {
            assert(changed[i] == text[i]);
        }
        lemma_run_len_is(changed, DELIMITER, start, end);
        assert(new_value =~= value);
        if new_value == checksum_text(new_sum) {
            lemma_checksum_text_injective(sum, new_sum);
        }
    } else {
        assert(changed.take(start) =~= text.take(start));
        if new_value == value {
            assert(new_value.len() == 3);
            assert(new_end == end);
            assert(at != start && at != start + 1 && at != start + 2);
            if at < end {
                assert(new_value[at - start - 3] == changed[at]);
                assert(value[at - start - 3] == text[at]);
            }
        }
    }
}

/// A written message is refused for its checksum once one of its bytes is
/// another, where the change leaves the framing.
pub proof fn lemma_changed_message_fails_checksum(
    m: MessageView,
    now: Seq<u8>,
    at: int,
    byte: u8,
)
    requires
        readable(m, now),
        0 <= at < encoded(m, now).len(),
        byte != encoded(m, now)[at],
        same_framing(encoded(m, now), encoded(m, now).update(at, byte)),
    ensures
        decoded(encoded(m, now).update(at, byte)) == Err::<MessageView, DecodeError>(
            DecodeError::InvalidChecksum,
        ),
{
    let text = encoded(m, now);
    lemma_decoded_encoded(m, now);
    lemma_scan_encoded(m, now);
    lemma_checksum_field(text, 0, empty_message());
    let start = checksum_field_start(text)->Some_0;
    assert(field_value(text, start).len() == 3);
    assert(field_end(text, start) == text.len() - 1);
    lemma_changed_byte_fails_checksum(text, at, byte);
}

} // verus!
