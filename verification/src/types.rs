//! The structured result of a parse, and the error taxonomy.

use vstd::prelude::*;

verus! {

/// Why a parse failed.
///
/// `InvalidFormat` means the input does not match the expected lexical
/// shape at the current position (a non-digit where digits are expected,
/// a misplaced separator, a malformed timezone suffix, or an input that
/// is too short). `RangeError` means a field was lexically well formed
/// but its numeric value lies outside its legal bound.
#[derive(Clone, Copy, Debug, PartialEq, Eq)]
pub enum ParseError {
    InvalidFormat,
    RangeError,
}

/// A parsed date-time: calendar fields plus an optional fixed UTC offset.
///
/// `offset_seconds` present means the value is timezone-aware; absent
/// means it is naive. The value is built once by the parser and never
/// mutated afterwards.
#[derive(Clone, Copy, Debug, PartialEq, Eq)]
pub struct ParsedDateTime {
    pub year: u32,
    pub month: u8,
    pub day: u8,
    pub hour: u8,
    pub minute: u8,
    pub second: u8,
    pub microsecond: u32,
    pub offset_seconds: Option<i32>,
}

/// The ranges every parser-produced value satisfies: year 1..=9999 (four
/// digits, non-zero), month 1..=12, day 1..=31 (no month-aware bound),
/// hour 0..=23, minute 0..=59, second 0..=59, microsecond 0..=999999.
pub open spec fn valid_fields(p: ParsedDateTime) -> bool {
    &&& 1 <= p.year <= 9999
    &&& 1 <= p.month <= 12
    &&& 1 <= p.day <= 31
    &&& p.hour <= 23
    &&& p.minute <= 59
    &&& p.second <= 59
    &&& p.microsecond <= 999999
}

/// An offset that the extended textual form `sHH:MM` can carry exactly:
/// a whole number of minutes, at most 99 hours 59 minutes in magnitude.
pub open spec fn representable_offset(off: int) -> bool {
    &&& -359940 <= off <= 359940
    &&& off % 60 == 0
}

} // verus!
