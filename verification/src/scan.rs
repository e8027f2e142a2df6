//! The four sub-scanners: date, time, fraction and offset.
//!
//! Each scanner is specified as a pure function over the input byte
//! sequence and a cursor, and implemented by an executable function
//! proved to return exactly the specified result. Control flows strictly
//! forward: every scanner hands the next one the position where it
//! stopped, and no scanner backtracks.

use vstd::prelude::*;

use crate::types::ParseError;

verus! {

pub const DASH: u8 = 45;

pub const PLUS: u8 = 43;

pub const DOT: u8 = 46;

pub const COLON: u8 = 58;

pub const UPPER_T: u8 = 84;

pub const UPPER_Z: u8 = 90;

pub open spec fn is_digit(c: u8) -> bool {
    48 <= c <= 57
}

pub open spec fn digit_val(c: u8) -> int {
    c - 48
}

/// Two decimal digits start at position `i`.
pub open spec fn two_digits_at(s: Seq<u8>, i: int) -> bool {
    &&& 0 <= i
    &&& i + 2 <= s.len()
    &&& is_digit(s[i])
    &&& is_digit(s[i + 1])
}

/// The value of the two digits at position `i`.
pub open spec fn val2(s: Seq<u8>, i: int) -> int {
    digit_val(s[i]) * 10 + digit_val(s[i + 1])
}

/// Four decimal digits start at position `i`.
pub open spec fn four_digits_at(s: Seq<u8>, i: int) -> bool {
    &&& 0 <= i
    &&& i + 4 <= s.len()
    &&& is_digit(s[i])
    &&& is_digit(s[i + 1])
    &&& is_digit(s[i + 2])
    &&& is_digit(s[i + 3])
}

/// The value of the four digits at position `i`.
pub open spec fn val4(s: Seq<u8>, i: int) -> int {
    digit_val(s[i]) * 1000 + digit_val(s[i + 1]) * 100 + digit_val(s[i + 2]) * 10 + digit_val(
        s[i + 3],
    )
}

/// Positional separator inference: peek at `i`; if the byte there is
/// `c`, the cursor moves past it, otherwise it stays.
pub open spec fn skip_opt(s: Seq<u8>, i: int, c: u8) -> int {
    if 0 <= i < s.len() && s[i] == c {
        i + 1
    } else {
        i
    }
}

/// The number of consecutive decimal digits starting at position `i`.
pub open spec fn digit_run_len(s: Seq<u8>, i: int) -> int
    decreases s.len() - i,
{
    if 0 <= i < s.len() && is_digit(s[i]) {
        1 + digit_run_len(s, i + 1)
    } else {
        0
    }
}

/// The value of the digit string `s[i..j)` read as a plain integer.
pub open spec fn digits_value(s: Seq<u8>, i: int, j: int) -> int
    decreases j - i,
{
    if j <= i {
        0
    } else {
        digits_value(s, i, j - 1) * 10 + digit_val(s[j - 1])
    }
}

/// Date scanner: year (4 digits, > 0), optional `-`, month (2 digits,
/// 1..=12), optional `-`, day (2 digits, 1..=31). Returns the three
/// fields and the cursor just past the day. The two separators are
/// inferred independently, so mixed forms are accepted.
pub open spec fn spec_scan_date(s: Seq<u8>) -> Result<(int, int, int, int), ParseError> {
    if !four_digits_at(s, 0) {
        Err(ParseError::InvalidFormat)
    } else {
        let y = val4(s, 0);
        if y == 0 {
            Err(ParseError::RangeError)
        } else {
            let i1 = skip_opt(s, 4, DASH);
            if !two_digits_at(s, i1) {
                Err(ParseError::InvalidFormat)
            } else {
                let mo = val2(s, i1);
                if mo < 1 || mo > 12 {
                    Err(ParseError::RangeError)
                } else {
                    let i2 = skip_opt(s, i1 + 2, DASH);
                    if !two_digits_at(s, i2) {
                        Err(ParseError::InvalidFormat)
                    } else {
                        let d = val2(s, i2);
                        if d < 1 || d > 31 {
                            Err(ParseError::RangeError)
                        } else {
                            Ok((y, mo, d, i2 + 2))
                        }
                    }
                }
            }
        }
    }
}

/// Time scanner: optional `T` designator, hour (2 digits, 0..=23),
/// optional `:`, minute (2 digits, 0..=59). Returns hour, minute and
/// the cursor just past the minute.
pub open spec fn spec_scan_time(s: Seq<u8>, i: int) -> Result<(int, int, int), ParseError> {
    let i0 = skip_opt(s, i, UPPER_T);
    if !two_digits_at(s, i0) {
        Err(ParseError::InvalidFormat)
    } else {
        let h = val2(s, i0);
        if h > 23 {
            Err(ParseError::RangeError)
        } else {
            let i1 = skip_opt(s, i0 + 2, COLON);
            if !two_digits_at(s, i1) {
                Err(ParseError::InvalidFormat)
            } else {
                let m = val2(s, i1);
                if m > 59 {
                    Err(ParseError::RangeError)
                } else {
                    Ok((h, m, i1 + 2))
                }
            }
        }
    }
}

/// Second scanner, applied just past the minute. At end of input the
/// second defaults to 0. A `+`, `-` or `Z` leaves the cursor in place
/// for the offset scanner. A `:` followed by at least two more bytes
/// introduces a two-digit second (0..=59). A `T` that is the very last
/// byte is consumed with second 0 (the `T`-terminated basic form).
/// Anything else is malformed.
pub open spec fn spec_scan_second(s: Seq<u8>, i: int) -> Result<(int, int), ParseError> {
    if i >= s.len() {
        Ok((0, i))
    } else {
        let c = s[i];
        if c == PLUS || c == DASH || c == UPPER_Z {
            Ok((0, i))
        } else if c == COLON && i + 3 <= s.len() {
            if !two_digits_at(s, i + 1) {
                Err(ParseError::InvalidFormat)
            } else {
                let v = val2(s, i + 1);
                if v > 59 {
                    Err(ParseError::RangeError)
                } else {
                    Ok((v, i + 3))
                }
            }
        } else if c == UPPER_T && i + 1 == s.len() {
            Ok((0, i + 1))
        } else {
            Err(ParseError::InvalidFormat)
        }
    }
}

/// Fraction scanner, applied just past the second when input remains.
/// A `+`, `-` or `Z` leaves the cursor in place with microsecond 0. A
/// `.` must be followed by one or more digits, whose run is read as a
/// literal integer count of microseconds (no scaling by digit count)
/// and must be at most 999999. Anything else is malformed.
pub open spec fn spec_scan_fraction(s: Seq<u8>, i: int) -> Result<(int, int), ParseError> {
    if i >= s.len() {
        Ok((0, i))
    } else {
        let c = s[i];
        if c == PLUS || c == DASH || c == UPPER_Z {
            Ok((0, i))
        } else if c == DOT {
            let run = digit_run_len(s, i + 1);
            if run == 0 {
                Err(ParseError::InvalidFormat)
            } else {
                let v = digits_value(s, i + 1, i + 1 + run);
                if v > 999999 {
                    Err(ParseError::RangeError)
                } else {
                    Ok((v, i + 1 + run))
                }
            }
        } else {
            Err(ParseError::InvalidFormat)
        }
    }
}

/// `v` negated when `neg` holds: the sign of an offset applied to its
/// magnitude in seconds.
pub open spec fn signed(neg: bool, v: int) -> int {
    if neg {
        -v
    } else {
        v
    }
}

/// Offset scanner, applied to the remaining suffix. A lone `Z` means
/// offset 0. A sign followed by a two-digit hour may stand alone (when
/// it ends the input), or be followed by an optional `:` and exactly a
/// two-digit minute. No bound beyond the two-digit parse is enforced on
/// the hour or minute values.
pub open spec fn spec_scan_offset(s: Seq<u8>, i: int) -> Result<int, ParseError> {
    if i >= s.len() {
        Err(ParseError::InvalidFormat)
    } else {
        let c = s[i];
        if c == UPPER_Z && i + 1 == s.len() {
            Ok(0)
        } else if c == PLUS || c == DASH {
            let neg = c == DASH;
            if !two_digits_at(s, i + 1) {
                Err(ParseError::InvalidFormat)
            } else {
                let h = val2(s, i + 1);
                if i + 3 == s.len() {
                    Ok(signed(neg, h * 3600))
                } else {
                    let j = skip_opt(s, i + 3, COLON);
                    if s.len() - j != 2 {
                        Err(ParseError::InvalidFormat)
                    } else if !two_digits_at(s, j) {
                        Err(ParseError::InvalidFormat)
                    } else {
                        Ok(signed(neg, h * 3600 + val2(s, j) * 60))
                    }
                }
            }
        } else {
            Err(ParseError::InvalidFormat)
        }
    }
}

/// Every byte inside a digit run is a digit.
proof fn lemma_digit_run_is_digits(s: Seq<u8>, i: int)
    ensures
        forall|k: int| i <= k < i + digit_run_len(s, i) ==> is_digit(s[k]),
    decreases s.len() - i,
{
    if 0 <= i < s.len() && is_digit(s[i]) {
        lemma_digit_run_is_digits(s, i + 1);
        assert forall|k: int| i <= k < i + digit_run_len(s, i) implies is_digit(s[k]) by {
            if k != i {
                assert(i + 1 <= k < i + 1 + digit_run_len(s, i + 1));
            }
        }
    }
}

/// The value of a digit string is never negative.
proof fn lemma_digits_value_nonneg(s: Seq<u8>, i: int, j: int)
    requires
        forall|k: int| i <= k < j ==> is_digit(s[k]),
    ensures
        digits_value(s, i, j) >= 0,
    decreases j - i,
{
    if j > i {
        lemma_digits_value_nonneg(s, i, j - 1);
    }
}

/// Whatever the input, a microsecond count the fraction scanner
/// accepts lies in 0..=999999.
pub proof fn lemma_scan_fraction_bounds(s: Seq<u8>, i: int)
    requires
        0 <= i,
    ensures
        match spec_scan_fraction(s, i) {
            Ok(t) => 0 <= t.0 <= 999999,
            Err(e) => true,
        },
{
    if i < s.len() && s[i] == DOT {
        let run = digit_run_len(s, i + 1);
        if run > 0 {
            lemma_digit_run_is_digits(s, i + 1);
            lemma_digits_value_nonneg(s, i + 1, i + 1 + run);
        }
    }
}

/// Whether the byte at position `i` exists and equals `c`.
pub fn at_byte(s: &[u8], i: usize, c: u8) -> (r: bool)
    ensures
        r == (i < s@.len() && s@[i as int] == c),
{
    i < s.len() && s[i] == c
}

/// Reads two digits at position `i` as a number, or reports that no
/// two digits stand there.
pub fn read2(s: &[u8], i: usize) -> (r: Option<u8>)
    ensures
        match r {
            Some(v) => two_digits_at(s@, i as int) && v == val2(s@, i as int),
            None => !two_digits_at(s@, i as int),
        },
{
    if i < s.len() && s.len() - i >= 2 {
        let a = s[i];
        let b = s[i + 1];
        if 48 <= a && a <= 57 && 48 <= b && b <= 57 {
            Some((a - 48) * 10 + (b - 48))
        } else {
            None
        }
    } else {
        None
    }
}

/// Reads four digits at position `i` as a number, or reports that no
/// four digits stand there.
pub fn read4(s: &[u8], i: usize) -> (r: Option<u16>)
    ensures
        match r {
            Some(v) => four_digits_at(s@, i as int) && v == val4(s@, i as int),
            None => !four_digits_at(s@, i as int),
        },
{
    if i < s.len() && s.len() - i >= 4 {
        let a = s[i];
        let b = s[i + 1];
        let c = s[i + 2];
        let d = s[i + 3];
        if 48 <= a && a <= 57 && 48 <= b && b <= 57 && 48 <= c && c <= 57 && 48 <= d && d <= 57 {
            Some(
                (a - 48) as u16 * 1000 + (b - 48) as u16 * 100 + (c - 48) as u16 * 10 + (d
                    - 48) as u16,
            )
        } else {
            None
        }
    } else {
        None
    }
}

/// Runs the date scanner over the start of the input.
pub fn scan_date(s: &[u8]) -> (r: Result<(u16, u8, u8, usize), ParseError>)
    ensures
        match r {
            Ok(t) => spec_scan_date(s@) == Ok::<(int, int, int, int), ParseError>(
                (t.0 as int, t.1 as int, t.2 as int, t.3 as int),
            ) && t.3 <= s@.len(),
            Err(e) => spec_scan_date(s@) == Err::<(int, int, int, int), ParseError>(e),
        },
{
    let y = match read4(s, 0) {
        Some(v) => v,
        None => {
            return Err(ParseError::InvalidFormat);
        },
    };
    if y == 0 {
        return Err(ParseError::RangeError);
    }
    let i1: usize = if at_byte(s, 4, DASH) {
        5
    } else {
        4
    };
    let mo = match read2(s, i1) {
        Some(v) => v,
        None => {
            return Err(ParseError::InvalidFormat);
        },
    };
    if mo < 1 || mo > 12 {
        return Err(ParseError::RangeError);
    }
    let i2: usize = if at_byte(s, i1 + 2, DASH) {
        i1 + 3
    } else {
        i1 + 2
    };
    let d = match read2(s, i2) {
        Some(v) => v,
        None => {
            return Err(ParseError::InvalidFormat);
        },
    };
    if d < 1 || d > 31 {
        return Err(ParseError::RangeError);
    }
    Ok((y, mo, d, i2 + 2))
}

} // verus!
