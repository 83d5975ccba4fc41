//! The source of the sending time.

use vstd::prelude::*;
use vstd::utf8::*;

verus! {

/// Supplies the current time as text, `YYYYMMDD-HH:MM:SS.mmm`.
///
/// An encoder asks the clock only for a message that carries no sending time.
/// Nothing is known of what an implementation returns.
pub trait Clock: Send + Sync {
    fn now(&self) -> String;
}

/// Whether `byte` can stand in a time stamp: a digit, a sign, `:` or `.`.
pub open spec fn is_time_stamp_byte(byte: u8) -> bool {
    0x30 <= byte <= 0x39 || byte == 0x2b || byte == 0x2d || byte == 0x3a || byte == 0x2e
}

/// Whether `text` has the shape of a time stamp: a year of four digits or
/// more, which may follow a sign, and then `MMDD-HH:MM:SS.mmm`.
pub open spec fn is_time_stamp(text: Seq<u8>) -> bool {
    let n = text.len() as int;
    &&& n >= 21
    &&& forall|i: int| 0 <= i < n ==> is_time_stamp_byte(#[trigger] text[i])
    &&& text[n - 13] == 0x2d
    &&& text[n - 10] == 0x3a
    &&& text[n - 7] == 0x3a
    &&& text[n - 4] == 0x2e
}

/// The time of the system clock in UTC, as `chrono` formats it with
/// `%Y%m%d-%H:%M:%S%.3f`.
///
/// Calls `chrono::Utc::now` and `chrono::DateTime::format`. Not verified: the
/// contract claims that the text has 21 bytes or more, each a digit, a sign,
/// `:` or `.`, and that `-`, `:`, `:` and `.` stand where the format puts
/// them, counted from the end. (The year is written in four digits, or in
/// more after a sign where it lies outside 0 to 9999.) `Utc::now` panics
/// where the system clock stands before 1970.
#[verifier::external_body]
fn utc_time_stamp() -> (stamp: String)
    ensures
        is_time_stamp(encode_utf8(stamp@)),
{
    format!("{}", chrono::Utc::now().format("%Y%m%d-%H:%M:%S%.3f"))
}

/// The clock of the system.
#[derive(Debug)]
pub struct RealClock;

impl Clock for RealClock {
    fn now(&self) -> (stamp: String)
        ensures
            is_time_stamp(encode_utf8(stamp@)),
    {
        utc_time_stamp()
    }
}

} // verus!
