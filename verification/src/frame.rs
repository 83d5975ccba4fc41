//! Cutting one message off the front of the bytes that a connection has
//! delivered so far.
//!
//! A message is taken to end with the first delimiter at or after the first
//! occurrence of `10=`, the start of the checksum field. The search is a plain
//! search for these three bytes: a message that holds them before its
//! checksum field, as in a field `110=5`, is cut short.

use crate::field_map::value_of;
use crate::message::checked_part;
use crate::message::empty_message;
use crate::message::encoded;
use crate::message::field_value;
use crate::message::payload;
use crate::message::with_defaults;
use crate::message::MessageView;
use crate::message_lemmas::lemma_checksum_field;
use crate::message_lemmas::lemma_scan_encoded;
use crate::message_lemmas::readable;
use crate::text::find_byte;
use crate::text::lemma_run_len;
use crate::text::lemma_run_len_is;
use crate::text::run_len;
use crate::wire::begin_string_tag;
use crate::wire::DELIMITER;
use vstd::prelude::*;
use vstd::slice::slice_subrange;
use vstd::slice::slice_to_vec;
use vstd::utf8::*;

verus! {

/// Whether the bytes `10=` stand at `at`.
pub open spec fn marker_at(buffer: Seq<u8>, at: int) -> bool {
    0 <= at && at + 3 <= buffer.len() && buffer[at] == 0x31 && buffer[at + 1] == 0x30 && buffer[at
        + 2] == 0x3d
}

/// The first place at or after `from` where `10=` stands; the length of the
/// buffer where it stands nowhere.
pub open spec fn first_marker(buffer: Seq<u8>, from: int) -> int
    decreases buffer.len() - from,
{
    if from < 0 || from + 3 > buffer.len() {
        buffer.len() as int
    } else if marker_at(buffer, from) {
        from
    } else {
        first_marker(buffer, from + 1)
    }
}

/// The length of the first message in `buffer`: up to and with the first
/// delimiter at or after the first `10=`. `None` where the buffer holds no
/// `10=`, or no delimiter after it.
pub open spec fn frame_end(buffer: Seq<u8>) -> Option<int> {
    let marker = first_marker(buffer, 0);
    let end = marker + run_len(buffer, DELIMITER, marker);
    if marker >= buffer.len() || end >= buffer.len() {
        None
    } else {
        Some(end + 1)
    }
}

/// The text that `String::from_utf8_lossy` makes of `bytes`.
pub uninterp spec fn lossy_text(bytes: Seq<u8>) -> Seq<char>;

/// `first_marker` finds a marker, and passes over none.
pub proof fn lemma_first_marker(buffer: Seq<u8>, from: int)
    requires
        0 <= from,
    ensures
        from <= first_marker(buffer, from) || first_marker(buffer, from) == buffer.len(),
        first_marker(buffer, from) <= buffer.len(),
        forall|i: int| from <= i < first_marker(buffer, from) ==> !marker_at(buffer, i),
        first_marker(buffer, from) < buffer.len() ==> marker_at(
            buffer,
            first_marker(buffer, from),
        ),
    decreases buffer.len() - from,
{
    if from + 3 <= buffer.len() && !marker_at(buffer, from) {
        lemma_first_marker(buffer, from + 1);
    }
}

/// The first marker is known by its place: no marker stands before it.
pub proof fn lemma_first_marker_is(buffer: Seq<u8>, from: int, at: int)
    requires
        0 <= from <= at,
        forall|i: int| from <= i < at ==> !marker_at(buffer, i),
        marker_at(buffer, at) || (at == buffer.len() && forall|i: int|
            from <= i ==> !marker_at(buffer, i)),
    ensures
        first_marker(buffer, from) == at,
    decreases buffer.len() - from,
{
    if from + 3 <= buffer.len() && !marker_at(buffer, from) {
        if from < at {
            lemma_first_marker_is(buffer, from + 1, at);
        } else {
            lemma_first_marker(buffer, from + 1);
        }
    }
}

/// A message that is followed by more bytes is still cut off where it ends:
/// what comes after a complete message does not move its end.
pub proof fn lemma_frame_end_with_more(buffer: Seq<u8>, more: Seq<u8>)
    requires
        frame_end(buffer) is Some,
    ensures
        frame_end(buffer + more) == frame_end(buffer),
{
    let marker = first_marker(buffer, 0);
    let end = marker + run_len(buffer, DELIMITER, marker);
    let longer = buffer + more;
    lemma_first_marker(buffer, 0);
    lemma_run_len(buffer, DELIMITER, marker);
    assert forall|i: int| 0 <= i < marker implies !marker_at(longer, i) by {
        assert(!marker_at(buffer, i));
    }
    assert(marker_at(longer, marker));
    lemma_first_marker_is(longer, 0, marker);
    assert forall|i: int| marker <= i < end implies longer[i] != DELIMITER by {
        assert(buffer[i] != DELIMITER);
    }
    lemma_run_len_is(longer, DELIMITER, marker, end);
}

/// The bytes of a message and nothing more are one message: cutting a message
/// off a buffer that starts with it gives the message, and leaves what
/// followed it.
pub proof fn lemma_frame_end_back_to_back(first: Seq<u8>, second: Seq<u8>)
    requires
        frame_end(first) == Some(first.len() as int),
    ensures
        frame_end(first + second) == Some(first.len() as int),
        (first + second).take(first.len() as int) == first,
        (first + second).skip(first.len() as int) == second,
{
    lemma_frame_end_with_more(first, second);
    assert((first + second).take(first.len() as int) =~= first);
    assert((first + second).skip(first.len() as int) =~= second);
}

/// A buffer that holds less than its first message holds no message yet.
pub proof fn lemma_frame_end_truncated(buffer: Seq<u8>, kept: int)
    requires
        frame_end(buffer) matches Some(end) && 0 <= kept < end,
    ensures
        frame_end(buffer.take(kept)) is None,
{
    let marker = first_marker(buffer, 0);
    let end = marker + run_len(buffer, DELIMITER, marker);
    let short = buffer.take(kept);
    lemma_first_marker(buffer, 0);
    lemma_run_len(buffer, DELIMITER, marker);
    lemma_first_marker(short, 0);
    let found = first_marker(short, 0);
    if found < short.len() {
        assert(marker_at(short, found));
        assert(marker_at(buffer, found));
        assert(marker <= found);
        lemma_run_len(short, DELIMITER, found);
        let stop = found + run_len(short, DELIMITER, found);
        if stop < short.len() {
            assert(short[stop] == DELIMITER);
            assert(buffer[stop] == DELIMITER);
            assert(false);
        }
    }
}

/// A written message is one frame, where it holds `10=` nowhere before its
/// checksum field: cutting the first message off its text gives all of the
/// text.
pub proof fn lemma_encoded_is_one_frame(m: MessageView, now: Seq<u8>)
    requires
        readable(m, now),
        first_marker(encoded(m, now), 0) >= checked_part(
            value_of(with_defaults(m.header, now), begin_string_tag()),
            payload(with_defaults(m.header, now), m.body),
        ).len(),
    ensures
        frame_end(encoded(m, now)) == Some(encoded(m, now).len() as int),
{
    let text = encoded(m, now);
    let header = with_defaults(m.header, now);
    let covered = checked_part(
        value_of(header, begin_string_tag()),
        payload(header, m.body),
    );
    let start = covered.len() as int;
    lemma_scan_encoded(m, now);
    lemma_checksum_field(text, 0, empty_message());
    assert(marker_at(text, start));
    lemma_first_marker(text, 0);
    assert(first_marker(text, 0) == start);
    assert(field_value(text, start).len() == 3);
}

/// The text of `bytes`, with the replacement character for what is not
/// UTF-8.
///
/// Calls `String::from_utf8_lossy`. Not verified: the contract names the
/// result, and claims that bytes which are valid UTF-8 are kept as they are.
#[verifier::external_body]
fn text_of(bytes: &[u8]) -> (text: String)
    ensures
        text@ == lossy_text(bytes@),
        valid_utf8(bytes@) ==> encode_utf8(text@) == bytes@,
{
    String::from_utf8_lossy(bytes).into_owned()
}

/// The first place where `10=` stands in `buffer`.
fn find_marker(buffer: &[u8]) -> (at: usize)
    ensures
        at == first_marker(buffer@, 0),
{
    let n = buffer.len();
    let mut i: usize = 0;
    while i < n && !(n - i >= 3 && buffer[i] == 0x31 && buffer[i + 1] == 0x30 && buffer[i + 2]
        == 0x3d)
        invariant
            i <= n,
            n == buffer@.len(),
            forall|j: int| 0 <= j < i ==> !marker_at(buffer@, j),
        decreases n - i,
    {
        i += 1;
    }
    proof {
        lemma_first_marker_is(buffer@, 0, i as int);
    }
    i
}

/// The length of the first message in `buffer`.
pub fn frame_length(buffer: &[u8]) -> (length: Option<usize>)
    ensures
        match frame_end(buffer@) {
            Some(end) => length == Some(end as usize) && 0 < end <= buffer@.len(),
            None => length is None,
        },
{
    let marker = find_marker(buffer);
    if marker >= buffer.len() {
        return None;
    }
    let end = find_byte(buffer, DELIMITER, marker);
    if end >= buffer.len() {
        None
    } else {
        Some(end + 1)
    }
}

/// Cuts the first message off `buffer`: the text of the message, and the
/// bytes that follow it. `None` where the buffer holds no complete message.
pub fn extract_message(buffer: &[u8]) -> (cut: Option<(String, Vec<u8>)>)
    ensures
        match frame_end(buffer@) {
            Some(end) => cut matches Some((message, rest)) && message@ == lossy_text(
                buffer@.take(end),
            ) && (valid_utf8(buffer@.take(end)) ==> encode_utf8(message@) == buffer@.take(end))
                && rest@ == buffer@.skip(end),
            None => cut is None,
        },
{
    match frame_length(buffer) {
        None => None,
        Some(end) => {
            let message = text_of(slice_subrange(buffer, 0, end));
            let rest = slice_to_vec(slice_subrange(buffer, end, buffer.len()));
            assert(buffer@.subrange(0, end as int) =~= buffer@.take(end as int));
            assert(buffer@.subrange(end as int, buffer@.len() as int) =~= buffer@.skip(end as int));
            Some((message, rest))
        },
    }
}

} // verus!
