//! Top-level assembly: the four scanners applied in strict order.

use vstd::prelude::*;

use crate::scan::{
    digit_run_len, digit_val, digits_value, four_digits_at, read2, scan_date, spec_scan_date,
    spec_scan_fraction, spec_scan_offset, spec_scan_second, spec_scan_time, two_digits_at, val2,
    val4, COLON, DASH, DOT, PLUS, UPPER_T, UPPER_Z,
};
use crate::types::{valid_fields, ParseError, ParsedDateTime};

verus! {

/// Builds the result value from the mathematical field values.
pub open spec fn assemble(
    y: int,
    mo: int,
    d: int,
    h: int,
    mi: int,
    sec: int,
    us: int,
    off: Option<int>,
) -> ParsedDateTime {
    ParsedDateTime {
        year: y as u32,
        month: mo as u8,
        day: d as u8,
        hour: h as u8,
        minute: mi as u8,
        second: sec as u8,
        microsecond: us as u32,
        offset_seconds: match off {
            Option::None => Option::None,
            Option::Some(o) => Option::Some(o as i32),
        },
    }
}

/// What parsing returns on every input: the whole grammar, stage by
/// stage. An input shorter than 13 bytes (the shortest admissible form,
/// `YYYYMMDDTHHMM`) is rejected outright; otherwise the date, time,
/// second, fraction and offset scanners run in order, the first failure
/// is returned unchanged, and reaching the end of input after a
/// completed field yields a naive result with the remaining fields at
/// their defaults.
pub open spec fn spec_parse(s: Seq<u8>) -> Result<ParsedDateTime, ParseError> {
    if s.len() < 13 {
        Err(ParseError::InvalidFormat)
    } else {
        match spec_scan_date(s) {
            Err(e) => Err(e),
            Ok((y, mo, d, i)) => match spec_scan_time(s, i) {
                Err(e) => Err(e),
                Ok((h, mi, j)) => match spec_scan_second(s, j) {
                    Err(e) => Err(e),
                    Ok((sec, k)) => if k == s.len() {
                        Ok(assemble(y, mo, d, h, mi, sec, 0, Option::None))
                    } else {
                        match spec_scan_fraction(s, k) {
                            Err(e) => Err(e),
                            Ok((us, l)) => if l == s.len() {
                                Ok(assemble(y, mo, d, h, mi, sec, us, Option::None))
                            } else {
                                match spec_scan_offset(s, l) {
                                    Err(e) => Err(e),
                                    Ok(off) => Ok(
                                        assemble(y, mo, d, h, mi, sec, us, Option::Some(off)),
                                    ),
                                }
                            },
                        }
                    },
                },
            },
        }
    }
}

/// Every valid minimal extended-form input `YYYY-MM-DDTHH:MM` (four
/// digits, `-`, two digits, `-`, two digits, `T`, two digits, `:`, two
/// digits, each group in its legal range) parses successfully to a
/// naive result with second and microsecond 0 and exactly the field
/// values its digit groups spell.
pub proof fn lemma_valid_extended_input_parses(s: Seq<u8>)
    requires
        s.len() == 16,
        four_digits_at(s, 0),
        s[4] == DASH,
        two_digits_at(s, 5),
        s[7] == DASH,
        two_digits_at(s, 8),
        s[10] == UPPER_T,
        two_digits_at(s, 11),
        s[13] == COLON,
        two_digits_at(s, 14),
        1 <= val4(s, 0),
        1 <= val2(s, 5) <= 12,
        1 <= val2(s, 8) <= 31,
        val2(s, 11) <= 23,
        val2(s, 14) <= 59,
    ensures
        spec_parse(s) == Ok::<ParsedDateTime, ParseError>(
            assemble(
                val4(s, 0),
                val2(s, 5),
                val2(s, 8),
                val2(s, 11),
                val2(s, 14),
                0,
                0,
                Option::None,
            ),
        ),
{
    assert(spec_scan_date(s) == Ok::<(int, int, int, int), ParseError>(
        (val4(s, 0), val2(s, 5), val2(s, 8), 10),
    ));
    assert(spec_scan_time(s, 10) == Ok::<(int, int, int), ParseError>(
        (val2(s, 11), val2(s, 14), 16),
    ));
    assert(spec_scan_second(s, 16) == Ok::<(int, int), ParseError>((0, 16)));
}

/// Every valid minimal basic-form input `YYYYMMDDTHHMM` parses
/// successfully, and to the same structured result as the extended
/// form whose digit groups spell the same values: the separators carry
/// no meaning.
pub proof fn lemma_valid_basic_input_parses(s: Seq<u8>)
    requires
        s.len() == 13,
        four_digits_at(s, 0),
        two_digits_at(s, 4),
        two_digits_at(s, 6),
        s[8] == UPPER_T,
        two_digits_at(s, 9),
        two_digits_at(s, 11),
        1 <= val4(s, 0),
        1 <= val2(s, 4) <= 12,
        1 <= val2(s, 6) <= 31,
        val2(s, 9) <= 23,
        val2(s, 11) <= 59,
    ensures
        spec_parse(s) == Ok::<ParsedDateTime, ParseError>(
            assemble(
                val4(s, 0),
                val2(s, 4),
                val2(s, 6),
                val2(s, 9),
                val2(s, 11),
                0,
                0,
                Option::None,
            ),
        ),
{
    assert(spec_scan_date(s) == Ok::<(int, int, int, int), ParseError>(
        (val4(s, 0), val2(s, 4), val2(s, 6), 8),
    ));
    assert(spec_scan_time(s, 8) == Ok::<(int, int, int), ParseError>(
        (val2(s, 9), val2(s, 11), 13),
    ));
    assert(spec_scan_second(s, 13) == Ok::<(int, int), ParseError>((0, 13)));
}

/// Every successful parse yields in-range fields: whatever the input,
/// a value the parser returns satisfies the ranges of the data model.
/// (The offset is not bounded by the fields: only its two-digit hour
/// and minute groups limit it.)
pub proof fn lemma_parse_result_in_range(s: Seq<u8>)
    ensures
        match spec_parse(s) {
            Ok(p) => valid_fields(p),
            Err(e) => true,
        },
{
    if s.len() >= 13 {
        match spec_scan_date(s) {
            Ok(t) => {
                let y = t.0;
                assert(1 <= y <= 9999);
                match spec_scan_time(s, t.3) {
                    Ok(u) => {
                        match spec_scan_second(s, u.2) {
                            Ok(v) => {
                                assert(0 <= v.0 <= 59);
                                match spec_scan_fraction(s, v.1) {
                                    Ok(w) => {
                                        crate::scan::lemma_scan_fraction_bounds(s, v.1);
                                        assert(0 <= w.0 <= 999999);
                                    },
                                    Err(e) => {},
                                }
                            },
                            Err(e) => {},
                        }
                    },
                    Err(e) => {},
                }
            },
            Err(e) => {},
        }
    }
}

/// Parses an ISO-8601-family date-time string, given as bytes.
///
/// Returns exactly what the grammar `spec_parse` assigns to the input:
/// the parsed calendar fields with an optional fixed UTC offset on
/// success, and the first scanner failure otherwise. Parsing is total
/// and all-or-nothing; no input makes it panic.
pub fn parse_datetime(input: &[u8]) -> (r: Result<ParsedDateTime, ParseError>)
    ensures
        r == spec_parse(input@),
{
    if input.len() < 13 {
        return Err(ParseError::InvalidFormat);
    }
    let (y, mo, d, i) = match scan_date(input) {
        Ok(t) => t,
        Err(e) => {
            return Err(e);
        },
    };
    let (h, mi, j) = match scan_time(input, i) {
        Ok(t) => t,
        Err(e) => {
            return Err(e);
        },
    };
    let (sec, k) = match scan_second(input, j) {
        Ok(t) => t,
        Err(e) => {
            return Err(e);
        },
    };
    if k == input.len() {
        return Ok(
            ParsedDateTime {
                year: y as u32,
                month: mo,
                day: d,
                hour: h,
                minute: mi,
                second: sec,
                microsecond: 0,
                offset_seconds: None,
            },
        );
    }
    let (us, l) = match scan_fraction(input, k) {
        Ok(t) => t,
        Err(e) => {
            return Err(e);
        },
    };
    if l == input.len() {
        return Ok(
            ParsedDateTime {
                year: y as u32,
                month: mo,
                day: d,
                hour: h,
                minute: mi,
                second: sec,
                microsecond: us,
                offset_seconds: None,
            },
        );
    }
    let off = match scan_offset(input, l) {
        Ok(t) => t,
        Err(e) => {
            return Err(e);
        },
    };
    Ok(
        ParsedDateTime {
            year: y as u32,
            month: mo,
            day: d,
            hour: h,
            minute: mi,
            second: sec,
            microsecond: us,
            offset_seconds: Some(off),
        },
    )
}

/// Runs the time scanner from cursor `i`.
pub fn scan_time(s: &[u8], i: usize) -> (r: Result<(u8, u8, usize), ParseError>)
    requires
        i <= s@.len(),
    ensures
        match r {
            Ok(t) => spec_scan_time(s@, i as int) == Ok::<(int, int, int), ParseError>(
                (t.0 as int, t.1 as int, t.2 as int),
            ) && t.2 <= s@.len(),
            Err(e) => spec_scan_time(s@, i as int) == Err::<(int, int, int), ParseError>(e),
        },
{
    let n = s.len();
    let i0: usize = if i < n && s[i] == UPPER_T {
        i + 1
    } else {
        i
    };
    let h = match read2(s, i0) {
        Some(v) => v,
        None => {
            return Err(ParseError::InvalidFormat);
        },
    };
    if h > 23 {
        return Err(ParseError::RangeError);
    }
    let i1: usize = if i0 + 2 < n && s[i0 + 2] == COLON {
        i0 + 3
    } else {
        i0 + 2
    };
    let m = match read2(s, i1) {
        Some(v) => v,
        None => {
            return Err(ParseError::InvalidFormat);
        },
    };
    if m > 59 {
        return Err(ParseError::RangeError);
    }
    Ok((h, m, i1 + 2))
}

/// Runs the second scanner from cursor `j`.
pub fn scan_second(s: &[u8], j: usize) -> (r: Result<(u8, usize), ParseError>)
    requires
        j <= s@.len(),
    ensures
        match r {
            Ok(t) => spec_scan_second(s@, j as int) == Ok::<(int, int), ParseError>(
                (t.0 as int, t.1 as int),
            ) && t.1 <= s@.len(),
            Err(e) => spec_scan_second(s@, j as int) == Err::<(int, int), ParseError>(e),
        },
{
    if j == s.len() {
        return Ok((0, j));
    }
    let c = s[j];
    if c == PLUS || c == DASH || c == UPPER_Z {
        return Ok((0, j));
    }
    if c == COLON && s.len() - j >= 3 {
        let v = match read2(s, j + 1) {
            Some(v) => v,
            None => {
                return Err(ParseError::InvalidFormat);
            },
        };
        if v > 59 {
            return Err(ParseError::RangeError);
        }
        return Ok((v, j + 3));
    }
    if c == UPPER_T && j + 1 == s.len() {
        return Ok((0, j + 1));
    }
    Err(ParseError::InvalidFormat)
}

/// Runs the fraction scanner from cursor `k`. The digit run is scanned
/// left to right; the accumulator is clamped at 1000000 so that the
/// out-of-range test on the clamped value agrees with the test on the
/// unbounded mathematical value.
pub fn scan_fraction(s: &[u8], k: usize) -> (r: Result<(u32, usize), ParseError>)
    requires
        k <= s@.len(),
    ensures
        match r {
            Ok(t) => spec_scan_fraction(s@, k as int) == Ok::<(int, int), ParseError>(
                (t.0 as int, t.1 as int),
            ) && t.1 <= s@.len(),
            Err(e) => spec_scan_fraction(s@, k as int) == Err::<(int, int), ParseError>(e),
        },
{
    if k == s.len() {
        return Ok((0, k));
    }
    let c = s[k];
    if c == PLUS || c == DASH || c == UPPER_Z {
        return Ok((0, k));
    }
    if c != DOT {
        return Err(ParseError::InvalidFormat);
    }
    let mut j: usize = k + 1;
    let mut acc: u32 = 0;
    while j < s.len() && 48 <= s[j] && s[j] <= 57
        invariant
            k + 1 <= j <= s@.len(),
            k < s@.len(),
            digit_run_len(s@, k + 1) == (j - k - 1) + digit_run_len(s@, j as int),
            acc == if digits_value(s@, k + 1, j as int) <= 1000000 {
                digits_value(s@, k + 1, j as int)
            } else {
                1000000int
            },
        decreases s@.len() - j,
    {
        let d: u32 = (s[j] - 48) as u32;
        proof {
            assert(digit_run_len(s@, j as int) == 1 + digit_run_len(s@, j + 1));
            assert(digits_value(s@, k + 1, j + 1) == digits_value(s@, k + 1, j as int) * 10
                + digit_val(s@[j as int]));
            if digits_value(s@, k + 1, j as int) > 1000000 {
                assert(digits_value(s@, k + 1, j + 1) > 1000000);
            }
        }
        if acc >= 1000000 {
            acc = 1000000;
        } else {
            acc = acc * 10 + d;
            if acc > 1000000 {
                acc = 1000000;
            }
        }
        j = j + 1;
    }
    proof {
        assert(digit_run_len(s@, j as int) == 0);
        assert(digit_run_len(s@, k + 1) == j - k - 1);
    }
    if j == k + 1 {
        return Err(ParseError::InvalidFormat);
    }
    if acc > 999999 {
        return Err(ParseError::RangeError);
    }
    Ok((acc, j))
}

/// Runs the offset scanner from cursor `l`.
pub fn scan_offset(s: &[u8], l: usize) -> (r: Result<i32, ParseError>)
    requires
        l < s@.len(),
    ensures
        match r {
            Ok(off) => spec_scan_offset(s@, l as int) == Ok::<int, ParseError>(off as int),
            Err(e) => spec_scan_offset(s@, l as int) == Err::<int, ParseError>(e),
        },
{
    let n = s.len();
    let c = s[l];
    if c == UPPER_Z && l + 1 == n {
        return Ok(0);
    }
    if c != PLUS && c != DASH {
        return Err(ParseError::InvalidFormat);
    }
    let negative = c == DASH;
    let h = match read2(s, l + 1) {
        Some(v) => v,
        None => {
            return Err(ParseError::InvalidFormat);
        },
    };
    if l + 3 == n {
        let secs: i32 = h as i32 * 3600;
        return Ok(if negative { -secs } else { secs });
    }
    let j: usize = if l + 3 < n && s[l + 3] == COLON {
        l + 4
    } else {
        l + 3
    };
    if n - j != 2 {
        return Err(ParseError::InvalidFormat);
    }
    let m = match read2(s, j) {
        Some(v) => v,
        None => {
            return Err(ParseError::InvalidFormat);
        },
    };
    let secs: i32 = h as i32 * 3600 + m as i32 * 60;
    Ok(if negative { -secs } else { secs })
}

} // verus!
