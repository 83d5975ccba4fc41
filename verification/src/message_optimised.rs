//! Messages of typed fields in a fixed number of slots.
//!
//! The header has ten slots, the second of which is for the body length; the
//! body has ten; the trailer has one, for the checksum. On the wire the
//! fields stand in the order of their slots, header before body, and the
//! checksum field ends the message.

use crate::tag::FixField;
use crate::tag::FixTag;
use crate::text::bytes_eq;
use crate::text::lemma_ascii_bytes;
use crate::text::lemma_encode_utf8_injective;
use crate::wire::checksum;
use crate::wire::checksum_of;
use crate::wire::checksum_tag;
use crate::wire::checksum_text;
use crate::wire::decimal;
use crate::wire::digit;
use crate::wire::field;
use crate::wire::push_field;
use crate::wire::trailer_tag;
use vstd::prelude::*;
use vstd::string::StringSliceAdditionalSpecFns;
use vstd::utf8::*;

verus! {

/// A message of typed fields.
pub struct FixMessage2 {
    pub header: [Option<FixTag>; 10],
    pub body: [Option<FixTag>; 10],
    pub trailer: [Option<FixTag>; 1],
}

/// A typed field on the wire.
pub open spec fn tag_field(tag: FixTag) -> Seq<u8> {
    field(encode_utf8(tag.tag_text()), encode_utf8(tag.value_text()))
}

/// Whether the body length counts a field: every field but the begin string
/// and the body length itself.
pub open spec fn counted(tag: FixTag) -> bool {
    tag.tag_text() != "8"@ && tag.tag_text() != "9"@
}

/// The fields in `slots` on the wire, in the order of the slots.
pub open spec fn slots_text(slots: Seq<Option<FixTag>>) -> Seq<u8>
    decreases slots.len(),
{
    if slots.len() == 0 {
        Seq::empty()
    } else {
        slots_text(slots.drop_last()) + match slots.last() {
            Some(tag) => tag_field(tag),
            None => Seq::empty(),
        }
    }
}

/// The fields in `slots` that the body length counts, on the wire.
pub open spec fn counted_text(slots: Seq<Option<FixTag>>) -> Seq<u8>
    decreases slots.len(),
{
    if slots.len() == 0 {
        Seq::empty()
    } else {
        counted_text(slots.drop_last()) + match slots.last() {
            Some(tag) => if counted(tag) {
                tag_field(tag)
            } else {
                Seq::empty()
            },
            None => Seq::empty(),
        }
    }
}

/// The body length of a message: the number of bytes of its header and body
/// fields, without the begin string and the body length.
pub open spec fn body_length(header: Seq<Option<FixTag>>, body: Seq<Option<FixTag>>) -> nat {
    counted_text(header).len() + counted_text(body).len()
}

/// Ten to the power of `digits`.
pub open spec fn pow10(digits: nat) -> nat
    decreases digits,
{
    if digits == 0 {
        1
    } else {
        10 * pow10((digits - 1) as nat)
    }
}

/// A number below ten to the power of `digits` has no more than `digits`
/// digits.
pub proof fn lemma_decimal_len(n: nat, digits: nat)
    requires
        digits >= 1,
        n < pow10(digits),
    ensures
        1 <= decimal(n).len() <= digits,
    decreases digits,
{
    reveal_with_fuel(pow10, 2);
    if n >= 10 {
        assert(digits >= 2);
        lemma_decimal_len(n / 10, (digits - 1) as nat);
    }
}

/// No number that the machine holds has more than twenty digits.
pub proof fn lemma_decimal_fits(n: usize)
    ensures
        1 <= decimal(n as nat).len() <= 20,
{
    assert(pow10(20) == 100000000000000000000) by {
        reveal_with_fuel(pow10, 21);
    }
    lemma_decimal_len(n as nat, 20);
}

/// Digits are UTF-8.
pub proof fn lemma_digits_are_utf8(bytes: Seq<u8>)
    requires
        forall|i: int| 0 <= i < bytes.len() ==> 0x30 <= #[trigger] bytes[i] <= 0x39,
    ensures
        valid_utf8(bytes),
{
    let chars = Seq::new(bytes.len(), |i: int| bytes[i] as char);
    assert(is_ascii_chars(chars));
    lemma_ascii_bytes(chars);
    assert(encode_utf8(chars) =~= bytes);
    encode_utf8_valid_utf8(chars);
}

/// The text that the bytes are.
///
/// Calls `core::str::from_utf8`. Not verified: the contract claims that bytes
/// which are valid UTF-8 are the bytes of the text that is returned.
#[verifier::external_body]
fn utf8_text<'a>(bytes: &'a [u8]) -> (text: &'a str)
    requires
        valid_utf8(bytes@),
    ensures
        text.spec_bytes() == bytes@,
{
    core::str::from_utf8(bytes).unwrap()
}

/// Writes `n` in decimal at the end of `buffer`, and gives the digits as
/// text.
pub fn int_to_str_no_alloc<'a>(n: usize, buffer: &'a mut [u8]) -> (text: &'a str)
    requires
        old(buffer)@.len() >= decimal(n as nat).len(),
    ensures
        text.spec_bytes() == decimal(n as nat),
        final(buffer)@.len() == old(buffer)@.len(),
        final(buffer)@.skip(old(buffer)@.len() - decimal(n as nat).len()) == decimal(n as nat),
        final(buffer)@.take(old(buffer)@.len() - decimal(n as nat).len()) == old(buffer)@.take(
            old(buffer)@.len() - decimal(n as nat).len(),
        ),
{
    let len = buffer.len();
    let mut at: usize = len;
    let mut rest: usize = n;
    proof {
        crate::wire::lemma_decimal_digits(n as nat);
        assert(decimal(n as nat) + buffer@.subrange(len as int, len as int) =~= decimal(n as nat));
    }
    loop
        invariant_except_break
            decimal(n as nat) == decimal(rest as nat) + buffer@.subrange(at as int, len as int),
            decimal(rest as nat).len() <= at,
        invariant
            len == buffer@.len(),
            len == old(buffer)@.len(),
            at <= len,
            buffer@.take(at as int) == old(buffer)@.take(at as int),
        ensures
            at < len,
            buffer@.subrange(at as int, len as int) == decimal(n as nat),
        decreases rest,
    {
        let ghost before = buffer@;
        proof {
            crate::wire::lemma_decimal_digits(rest as nat);
            crate::wire::lemma_decimal_digits((rest / 10) as nat);
        }
        at -= 1;
        buffer[at] = 0x30 + (rest % 10) as u8;
        proof {
            assert(buffer@.take(at as int) =~= before.take(at + 1).take(at as int));
            assert(old(buffer)@.take(at as int) =~= old(buffer)@.take(at + 1).take(at as int));
            assert(buffer@.subrange(at as int, len as int) =~= seq![digit((rest % 10) as nat)]
                + before.subrange(at + 1, len as int));
        }
        if rest < 10 {
            proof {
                assert(buffer@.subrange(at as int, len as int) =~= decimal(n as nat));
            }
            break;
        }
        proof {
            assert(decimal(rest as nat) =~= decimal((rest / 10) as nat) + seq![
                digit((rest % 10) as nat),
            ]);
            assert(decimal(n as nat) =~= decimal((rest / 10) as nat) + buffer@.subrange(
                at as int,
                len as int,
            ));
        }
        rest = rest / 10;
    }
    proof {
        crate::wire::lemma_decimal_digits(n as nat);
        lemma_digits_are_utf8(buffer@.subrange(at as int, len as int));
        assert(buffer@.skip(at as int) =~= buffer@.subrange(at as int, len as int));
    }
    utf8_text(vstd::slice::slice_subrange(buffer, at, len))
}

/// Whether the body length counts the field.
fn is_counted(tag: &FixTag) -> (counts: bool)
    ensures
        counts == counted(*tag),
{
    let id = tag.tag_id();
    let begin = bytes_eq(id.as_bytes(), "8".as_bytes());
    let length = bytes_eq(id.as_bytes(), "9".as_bytes());
    proof {
        if begin {
            lemma_encode_utf8_injective(id@, "8"@);
        }
        if length {
            lemma_encode_utf8_injective(id@, "9"@);
        }
    }
    !begin && !length
}

/// Appends the fields in `slots` to `out`: all of them, or those that the
/// body length counts.
fn push_slots(out: &mut String, slots: &[Option<FixTag>], all: bool)
    ensures
        encode_utf8(final(out)@) == encode_utf8(old(out)@) + if all {
            slots_text(slots@)
        } else {
            counted_text(slots@)
        },
{
    let ghost start = encode_utf8(out@);
    let mut i: usize = 0;
    assert(slots@.take(0) =~= Seq::<Option<FixTag>>::empty());
    assert(start + Seq::<u8>::empty() =~= start);
    while i < slots.len()
        invariant
            i <= slots@.len(),
            encode_utf8(out@) == start + if all {
                slots_text(slots@.take(i as int))
            } else {
                counted_text(slots@.take(i as int))
            },
        decreases slots@.len() - i,
    {
        proof {
            assert(slots@.take(i + 1).drop_last() =~= slots@.take(i as int));
            assert(slots@.take(i + 1).last() == slots@[i as int]);
        }
        let ghost before = encode_utf8(out@);
        match &slots[i] {
            Some(tag) => {
                if all || is_counted(tag) {
                    let value = tag.value();
                    push_field(out, tag.tag_id(), value.as_str());
                } else {
                    assert(before + Seq::<u8>::empty() =~= before);
                }
            },
            None => {
                assert(before + Seq::<u8>::empty() =~= before);
            },
        }
        i += 1;
        proof {
            let done = if all {
                slots_text(slots@.take(i as int))
            } else {
                counted_text(slots@.take(i as int))
            };
            assert(encode_utf8(out@) =~= start + done);
        }
    }
    assert(slots@.take(i as int) =~= slots@);
}

/// The body length of `message`.
pub fn calculate_body_length(message: &FixMessage2) -> (length: usize)
    ensures
        length == body_length(message.header@, message.body@),
{
    let mut text = String::new();
    assert(encode_utf8(text@) =~= Seq::<u8>::empty());
    push_slots(&mut text, message.header.as_slice(), false);
    push_slots(&mut text, message.body.as_slice(), false);
    assert(encode_utf8(text@) =~= counted_text(message.header@) + counted_text(message.body@));
    text.as_str().as_bytes().len()
}

/// The checksum of `fix_str`.
pub fn calculate_checksum(fix_str: String) -> (sum: usize)
    ensures
        sum == checksum(encode_utf8(fix_str@)),
{
    checksum_of(fix_str.as_str().as_bytes()) as usize
}

impl FixMessage2 {
    /// A message with every slot empty.
    pub fn new() -> (message: FixMessage2)
        ensures
            forall|i: int| 0 <= i < 10 ==> message.header@[i] is None,
            forall|i: int| 0 <= i < 10 ==> message.body@[i] is None,
            message.trailer@[0] is None,
    {
        FixMessage2 {
            header: [None, None, None, None, None, None, None, None, None, None],
            body: [None, None, None, None, None, None, None, None, None, None],
            trailer: [None],
        }
    }

    /// Puts the message on the wire, and leaves in it what was sent: the
    /// body length in the second slot of the header, and the checksum in the
    /// trailer.
    ///
    /// The body length is that of the message as it was given. The checksum
    /// is that of all header and body fields as they are sent, in three
    /// digits.
    pub fn encode(&mut self) -> (text: String)
        ensures
            final(self).body@ == old(self).body@,
            forall|i: int| 0 <= i < 10 && i != 1 ==> final(self).header@[i] == old(self).header@[i],
            final(self).header@[1] matches Some(FixTag::BodyLength(length)) && encode_utf8(length@)
                == decimal(body_length(old(self).header@, old(self).body@)),
            final(self).trailer@[0] matches Some(FixTag::Checksum(sum)) && encode_utf8(sum@)
                == checksum_text(
                checksum(slots_text(final(self).header@) + slots_text(final(self).body@)),
            ),
            encode_utf8(text@) == slots_text(final(self).header@) + slots_text(final(self).body@)
                + field(
                checksum_tag(),
                checksum_text(
                    checksum(slots_text(final(self).header@) + slots_text(final(self).body@)),
                ),
            ),
    {
        let length = calculate_body_length(self);
        let mut buffer = [0u8;20];
        proof {
            lemma_decimal_fits(length);
        }
        let length_text = int_to_str_no_alloc(length, &mut buffer).to_owned();
        self.header[1] = Some(FixTag::BodyLength(length_text));

        let mut text = String::new();
        assert(encode_utf8(text@) =~= Seq::<u8>::empty());
        push_slots(&mut text, self.header.as_slice(), true);
        push_slots(&mut text, self.body.as_slice(), true);
        let ghost covered = slots_text(self.header@) + slots_text(self.body@);
        assert(encode_utf8(text@) =~= covered);
        let sum = crate::wire::checksum_string(checksum_of(text.as_str().as_bytes()));
        push_field(&mut text, trailer_tag(), sum.as_str());
        self.trailer[0] = Some(FixTag::Checksum(sum));
        text
    }
}

} // verus!
