//! Strings seen as the bytes they put on the wire.
//!
//! Every contract of this crate speaks of text through its UTF-8 bytes,
//! `encode_utf8(s@)`. This module holds the few facts and helpers that connect
//! `str` and `String` values to those bytes.

use vstd::prelude::*;
use vstd::string::StringExecFns;
use vstd::string::StringSliceAdditionalSpecFns;
use vstd::utf8::*;

verus! {

/// The number of bytes from `from` up to, and not including, the next `stop`
/// byte; up to the end of `text` where none follows.
pub open spec fn run_len(text: Seq<u8>, stop: u8, from: int) -> nat
    decreases text.len() - from,
{
    if from < 0 || from >= text.len() || text[from] == stop {
        0
    } else {
        1 + run_len(text, stop, from + 1)
    }
}

/// `run_len` stays inside the text and passes over no `stop` byte.
pub proof fn lemma_run_len(text: Seq<u8>, stop: u8, from: int)
    requires
        0 <= from <= text.len(),
    ensures
        from + run_len(text, stop, from) <= text.len(),
        forall|i: int| from <= i < from + run_len(text, stop, from) ==> text[i] != stop,
        from + run_len(text, stop, from) < text.len() ==> text[from + run_len(text, stop, from)]
            == stop,
    decreases text.len() - from,
{
    if from < text.len() && text[from] != stop {
        lemma_run_len(text, stop, from + 1);
    }
}

/// A run is known by its end: the first place at or after `from` that holds
/// `stop`, or the end of the text.
pub proof fn lemma_run_len_is(text: Seq<u8>, stop: u8, from: int, end: int)
    requires
        0 <= from <= end <= text.len(),
        forall|i: int| from <= i < end ==> text[i] != stop,
        end < text.len() ==> text[end] == stop,
    ensures
        from + run_len(text, stop, from) == end,
    decreases end - from,
{
    if from < end {
        lemma_run_len_is(text, stop, from + 1, end);
    }
}

/// Whether the two slices hold the same bytes.
pub fn bytes_eq(a: &[u8], b: &[u8]) -> (same: bool)
    ensures
        same == (a@ == b@),
{
    if a.len() != b.len() {
        return false;
    }
    let mut i: usize = 0;
    while i < a.len()
        invariant
            i <= a.len(),
            a.len() == b.len(),
            forall|j: int| 0 <= j < i ==> a@[j] == b@[j],
        decreases a.len() - i,
    {
        if a[i] != b[i] {
            return false;
        }
        i += 1;
    }
    assert(a@ =~= b@);
    true
}

/// The place of the first `stop` byte at or after `from`, or the length of
/// `text` where there is none.
pub fn find_byte(text: &[u8], stop: u8, from: usize) -> (at: usize)
    requires
        from <= text@.len(),
    ensures
        at == from + run_len(text@, stop, from as int),
        from <= at <= text@.len(),
{
    let mut i: usize = from;
    while i < text.len() && text[i] != stop
        invariant
            from <= i <= text@.len(),
            forall|j: int| from <= j < i ==> text@[j] != stop,
        decreases text@.len() - i,
    {
        i += 1;
    }
    proof {
        lemma_run_len_is(text@, stop, from as int, i as int);
    }
    i
}

/// Encoding text to UTF-8 goes part by part.
pub proof fn lemma_encode_utf8_concat(a: Seq<char>, b: Seq<char>)
    ensures
        encode_utf8(a + b) == encode_utf8(a) + encode_utf8(b),
    decreases a.len(),
{
    if a.len() == 0 {
        assert(a + b =~= b);
        assert(encode_utf8(a) + encode_utf8(b) =~= encode_utf8(b));
    } else {
        assert((a + b).drop_first() =~= a.drop_first() + b);
        lemma_encode_utf8_concat(a.drop_first(), b);
        assert(encode_utf8(a + b) =~= encode_utf8(a) + encode_utf8(b));
    }
}

/// Two texts with the same UTF-8 bytes are the same text.
pub proof fn lemma_encode_utf8_injective(a: Seq<char>, b: Seq<char>)
    requires
        encode_utf8(a) == encode_utf8(b),
    ensures
        a == b,
{
    encode_utf8_decode_utf8(a);
    encode_utf8_decode_utf8(b);
}

/// Text of ASCII characters is encoded as one byte for each character.
pub proof fn lemma_ascii_bytes(s: Seq<char>)
    requires
        is_ascii_chars(s),
    ensures
        encode_utf8(s) == Seq::new(s.len(), |i: int| s[i] as u8),
{
    is_ascii_chars_encode_utf8(s);
    assert(encode_utf8(s) =~= Seq::new(s.len(), |i: int| s[i] as u8));
}

/// In valid UTF-8 a character starts right after every ASCII byte.
pub proof fn lemma_boundary_after_ascii(bytes: Seq<u8>, i: int)
    requires
        valid_utf8(bytes),
        0 <= i < bytes.len(),
        bytes[i] < 0x80,
    ensures
        is_char_boundary(bytes, i + 1),
    decreases bytes.len(),
{
    let first = length_of_first_scalar(bytes);
    let rest = pop_first_scalar(bytes);
    if i == 0 {
        assert(first == 1);
        assert(is_char_boundary(rest, 0));
    } else if i < first {
        assert(is_continuation_byte(bytes[i]));
    } else {
        assert(rest[i - first] == bytes[i]);
        lemma_boundary_after_ascii(rest, i - first);
    }
}

/// Appends `piece` to `out`; on the wire the bytes of `piece` follow those
/// that `out` held.
pub fn push_text(out: &mut String, piece: &str)
    ensures
        encode_utf8(final(out)@) == encode_utf8(old(out)@) + piece.spec_bytes(),
{
    proof {
        lemma_encode_utf8_concat(out@, piece@);
    }
    out.append(piece);
}

/// The part of `s` from byte `from` up to byte `to`, both of which lie next to
/// an ASCII byte or at an end of `s`.
pub fn slice_text<'a>(s: &'a str, from: usize, to: usize) -> (part: &'a str)
    requires
        from <= to <= s.spec_bytes().len(),
        from == 0 || s.spec_bytes()[from - 1] < 0x80,
        to == s.spec_bytes().len() || s.spec_bytes()[to as int] < 0x80,
    ensures
        part.spec_bytes() == s.spec_bytes().subrange(from as int, to as int),
{
    let ghost bytes = s.spec_bytes();
    proof {
        encode_utf8_valid_utf8(s@);
        if to == bytes.len() {
            is_char_boundary_start_end_of_seq(bytes);
        } else {
            is_char_boundary_iff_not_is_continuation_byte(bytes, to as int);
        }
    }
    let (head, _) = s.split_at(to);
    let ghost head_bytes = head.spec_bytes();
    proof {
        encode_utf8_valid_utf8(head@);
        if from > 0 {
            if from == to {
                is_char_boundary_start_end_of_seq(head_bytes);
            } else {
                lemma_boundary_after_ascii(head_bytes, from - 1);
            }
        }
    }
    let (_, part) = head.split_at(from);
    assert(part.spec_bytes() =~= bytes.subrange(from as int, to as int));
    part
}

} // verus!
