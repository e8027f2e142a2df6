//! Building the canonical extended textual form of a parsed value, and
//! the round-trip laws that tie the builder to the parser.

use vstd::prelude::*;

use vstd::arithmetic::div_mod::{
    lemma_div_denominator, lemma_fundamental_div_mod, lemma_mod_division_less_than_divisor,
    lemma_mod_mod,
};

use crate::parse::{assemble, spec_parse};
use crate::scan::{
    digit_run_len, digit_val, digits_value, four_digits_at, is_digit, skip_opt, spec_scan_date,
    spec_scan_fraction, spec_scan_second, spec_scan_time, two_digits_at, val2, val4, COLON, DASH,
    DOT, PLUS, UPPER_T,
};
use crate::types::{representable_offset, valid_fields, ParseError, ParsedDateTime};

verus! {

/// The byte of a single decimal digit.
pub open spec fn dc(v: int) -> u8 {
    (48 + v) as u8
}

/// A value 0..=99 as two decimal digits.
pub open spec fn d2(v: int) -> Seq<u8> {
    seq![dc(v / 10), dc(v % 10)]
}

/// A value 0..=9999 as four decimal digits.
pub open spec fn d4(v: int) -> Seq<u8> {
    d2(v / 100) + d2(v % 100)
}

/// A value 0..=999999 as six decimal digits.
pub open spec fn d6(v: int) -> Seq<u8> {
    d2(v / 10000) + d2((v / 100) % 100) + d2(v % 100)
}

/// The minimal extended form `YYYY-MM-DDTHH:MM`.
pub open spec fn fmt_minimal_extended(p: ParsedDateTime) -> Seq<u8> {
    d4(p.year as int) + seq![DASH] + d2(p.month as int) + seq![DASH] + d2(p.day as int)
        + seq![UPPER_T] + d2(p.hour as int) + seq![COLON] + d2(p.minute as int)
}

/// The minimal basic form `YYYYMMDDTHHMM`: the same fields with no
/// separators.
pub open spec fn fmt_minimal_basic(p: ParsedDateTime) -> Seq<u8> {
    d4(p.year as int) + d2(p.month as int) + d2(p.day as int) + seq![UPPER_T] + d2(p.hour as int)
        + d2(p.minute as int)
}

/// The textual offset suffix `sHH:MM` of a representable offset.
pub open spec fn offset_suffix(off: int) -> Seq<u8> {
    let sign = if off < 0 {
        DASH
    } else {
        PLUS
    };
    let mag = if off < 0 {
        -off
    } else {
        off
    };
    seq![sign] + d2(mag / 3600) + seq![COLON] + d2((mag % 3600) / 60)
}

/// The canonical extended form: `YYYY-MM-DDTHH:MM:SS.ffffff`, with the
/// microsecond count zero-padded to six digits, followed by the offset
/// suffix when the value is aware.
pub open spec fn fmt_extended(p: ParsedDateTime) -> Seq<u8> {
    fmt_minimal_extended(p) + seq![COLON] + d2(p.second as int) + seq![DOT] + d6(
        p.microsecond as int,
    ) + (match p.offset_seconds {
        Option::None => Seq::<u8>::empty(),
        Option::Some(o) => offset_suffix(o as int),
    })
}

/// Appends the two decimal digits of `v`, high digit first.
fn push2(out: &mut Vec<u8>, v: u8)
    requires
        v <= 99,
    ensures
        final(out)@ == old(out)@ + d2(v as int),
{
    out.push(48 + v / 10);
    out.push(48 + v % 10);
    proof {
        assert(out@ =~= old(out)@ + d2(v as int));
    }
}

/// Builds the canonical extended textual form of `p`: the string that
/// `fmt_extended` describes, which `lemma_round_trip` shows parses
/// back to `p`.
pub fn format_datetime(p: &ParsedDateTime) -> (out: Vec<u8>)
    requires
        valid_fields(*p),
        match p.offset_seconds {
            Option::Some(o) => representable_offset(o as int),
            Option::None => true,
        },
    ensures
        out@ == fmt_extended(*p),
{
    let mut out: Vec<u8> = Vec::new();
    push2(&mut out, (p.year / 100) as u8);
    push2(&mut out, (p.year % 100) as u8);
    out.push(DASH);
    push2(&mut out, p.month);
    out.push(DASH);
    push2(&mut out, p.day);
    out.push(UPPER_T);
    push2(&mut out, p.hour);
    out.push(COLON);
    push2(&mut out, p.minute);
    out.push(COLON);
    push2(&mut out, p.second);
    out.push(DOT);
    push2(&mut out, (p.microsecond / 10000) as u8);
    push2(&mut out, ((p.microsecond / 100) % 100) as u8);
    push2(&mut out, (p.microsecond % 100) as u8);
    match p.offset_seconds {
        Option::None => {},
        Option::Some(o) => {
            let neg = o < 0;
            let mag: i32 = if neg {
                -o
            } else {
                o
            };
            proof {
                lemma_offset_parts(mag as int);
            }
            out.push(if neg { DASH } else { PLUS });
            push2(&mut out, (mag / 3600) as u8);
            out.push(COLON);
            push2(&mut out, ((mag % 3600) / 60) as u8);
        },
    }
    proof {
        assert(out@ =~= fmt_extended(*p));
    }
    out
}

/// A value 0..=99 splits into its two decimal digits.
proof fn lemma_parts2(v: int)
    requires
        0 <= v <= 99,
    ensures
        0 <= v / 10 <= 9,
        0 <= v % 10 <= 9,
        (v / 10) * 10 + v % 10 == v,
        is_digit(dc(v / 10)),
        is_digit(dc(v % 10)),
        digit_val(dc(v / 10)) == v / 10,
        digit_val(dc(v % 10)) == v % 10,
{
    lemma_fundamental_div_mod(v, 10);
    lemma_mod_division_less_than_divisor(v, 10);
}

/// Two digits written by `d2` read back as the value they were written
/// from.
proof fn lemma_digits2(s: Seq<u8>, i: int, v: int)
    requires
        0 <= v <= 99,
        0 <= i,
        i + 2 <= s.len(),
        s[i] == dc(v / 10),
        s[i + 1] == dc(v % 10),
    ensures
        two_digits_at(s, i),
        val2(s, i) == v,
{
    lemma_parts2(v);
}

/// Four digits written by `d4` read back as the value they were
/// written from.
proof fn lemma_digits4(s: Seq<u8>, i: int, v: int)
    requires
        0 <= v <= 9999,
        0 <= i,
        i + 4 <= s.len(),
        s[i] == dc((v / 100) / 10),
        s[i + 1] == dc((v / 100) % 10),
        s[i + 2] == dc((v % 100) / 10),
        s[i + 3] == dc((v % 100) % 10),
    ensures
        four_digits_at(s, i),
        val4(s, i) == v,
{
    lemma_fundamental_div_mod(v, 100);
    lemma_mod_division_less_than_divisor(v, 100);
    lemma_parts2(v / 100);
    lemma_parts2(v % 100);
}

/// Six digits written by `d6` read back, as a digit run, as the value
/// they were written from.
proof fn lemma_digits6(s: Seq<u8>, i: int, v: int)
    requires
        0 <= v <= 999999,
        0 <= i,
        i + 6 <= s.len(),
        s[i] == dc((v / 10000) / 10),
        s[i + 1] == dc((v / 10000) % 10),
        s[i + 2] == dc(((v / 100) % 100) / 10),
        s[i + 3] == dc(((v / 100) % 100) % 10),
        s[i + 4] == dc((v % 100) / 10),
        s[i + 5] == dc((v % 100) % 10),
    ensures
        forall|k: int| i <= k < i + 6 ==> is_digit(s[k]),
        digits_value(s, i, i + 6) == v,
{
    lemma_fundamental_div_mod(v, 100);
    lemma_mod_division_less_than_divisor(v, 100);
    lemma_fundamental_div_mod(v / 100, 100);
    lemma_mod_division_less_than_divisor(v / 100, 100);
    lemma_div_denominator(v, 100, 100);
    assert(v == 10000 * (v / 10000) + 100 * ((v / 100) % 100) + (v % 100));
    lemma_parts2(v / 10000);
    lemma_parts2((v / 100) % 100);
    lemma_parts2(v % 100);
    assert(digits_value(s, i, i) == 0);
    assert(digits_value(s, i, i + 1) == digit_val(s[i]));
    assert(digits_value(s, i, i + 2) == digits_value(s, i, i + 1) * 10 + digit_val(s[i + 1]));
    assert(digits_value(s, i, i + 3) == digits_value(s, i, i + 2) * 10 + digit_val(s[i + 2]));
    assert(digits_value(s, i, i + 4) == digits_value(s, i, i + 3) * 10 + digit_val(s[i + 3]));
    assert(digits_value(s, i, i + 5) == digits_value(s, i, i + 4) * 10 + digit_val(s[i + 4]));
    assert(digits_value(s, i, i + 6) == digits_value(s, i, i + 5) * 10 + digit_val(s[i + 5]));
}

/// A representable offset magnitude splits into a two-digit hour and a
/// two-digit minute that recompose it exactly.
proof fn lemma_offset_parts(mag: int)
    requires
        0 <= mag <= 359940,
        mag % 60 == 0,
    ensures
        0 <= mag / 3600 <= 99,
        0 <= (mag % 3600) / 60 <= 59,
        (mag / 3600) * 3600 + ((mag % 3600) / 60) * 60 == mag,
{
    lemma_fundamental_div_mod(mag, 3600);
    lemma_mod_division_less_than_divisor(mag, 3600);
    lemma_fundamental_div_mod(mag % 3600, 60);
    lemma_mod_division_less_than_divisor(mag % 3600, 60);
    assert(60 * 60 == 3600);
    lemma_mod_mod(mag, 60, 60);
}

/// On any input that starts with the minimal extended form of `p`, the
/// date scanner yields `p`'s date with the cursor at 10 and the time
/// scanner, run from there, yields `p`'s time with the cursor at 16.
proof fn lemma_extended_head(s: Seq<u8>, p: ParsedDateTime)
    requires
        valid_fields(p),
        s.len() >= 16,
        s.subrange(0, 16) == fmt_minimal_extended(p),
    ensures
        spec_scan_date(s) == Ok::<(int, int, int, int), ParseError>(
            (p.year as int, p.month as int, p.day as int, 10),
        ),
        spec_scan_time(s, 10) == Ok::<(int, int, int), ParseError>(
            (p.hour as int, p.minute as int, 16),
        ),
{
    let f = fmt_minimal_extended(p);
    let y = p.year as int;
    let mo = p.month as int;
    let d = p.day as int;
    let h = p.hour as int;
    let mi = p.minute as int;
    assert(f.len() == 16);
    assert forall|i: int| 0 <= i < 16 implies s[i] == f[i] by {
        assert(s.subrange(0, 16)[i] == s[i]);
    }
    assert(s[0] == dc((y / 100) / 10));
    assert(s[1] == dc((y / 100) % 10));
    assert(s[2] == dc((y % 100) / 10));
    assert(s[3] == dc((y % 100) % 10));
    assert(s[4] == DASH);
    assert(s[5] == dc(mo / 10));
    assert(s[6] == dc(mo % 10));
    assert(s[7] == DASH);
    assert(s[8] == dc(d / 10));
    assert(s[9] == dc(d % 10));
    assert(s[10] == UPPER_T);
    assert(s[11] == dc(h / 10));
    assert(s[12] == dc(h % 10));
    assert(s[13] == COLON);
    assert(s[14] == dc(mi / 10));
    assert(s[15] == dc(mi % 10));
    lemma_digits4(s, 0, y);
    assert(skip_opt(s, 4, DASH) == 5);
    lemma_digits2(s, 5, mo);
    assert(skip_opt(s, 7, DASH) == 8);
    lemma_digits2(s, 8, d);
    assert(spec_scan_date(s) == Ok::<(int, int, int, int), ParseError>((y, mo, d, 10)));
    assert(skip_opt(s, 10, UPPER_T) == 11);
    lemma_digits2(s, 11, h);
    assert(skip_opt(s, 13, COLON) == 14);
    lemma_digits2(s, 14, mi);
    assert(spec_scan_time(s, 10) == Ok::<(int, int, int), ParseError>((h, mi, 16)));
}

/// Parsing the minimal extended form `YYYY-MM-DDTHH:MM` of any value
/// with in-range fields succeeds and yields that value: a naive result
/// with second and microsecond 0 and the exact date and time fields.
pub proof fn lemma_parse_minimal_extended(p: ParsedDateTime)
    requires
        valid_fields(p),
        p.second == 0,
        p.microsecond == 0,
        p.offset_seconds is None,
    ensures
        spec_parse(fmt_minimal_extended(p)) == Ok::<ParsedDateTime, ParseError>(p),
{
    let s = fmt_minimal_extended(p);
    assert(s.len() == 16);
    assert(s.subrange(0, 16) =~= s);
    lemma_extended_head(s, p);
    assert(spec_scan_second(s, 16) == Ok::<(int, int), ParseError>((0, 16)));
    assert(assemble(
        p.year as int,
        p.month as int,
        p.day as int,
        p.hour as int,
        p.minute as int,
        0,
        0,
        Option::None,
    ) == p);
}

/// Parsing the minimal basic form `YYYYMMDDTHHMM` of any value with
/// in-range fields yields the same structured result as the equivalent
/// extended, separator-bearing form: the separators carry no meaning.
#[verifier::rlimit(50)]
pub proof fn lemma_basic_matches_extended(p: ParsedDateTime)
    requires
        valid_fields(p),
        p.second == 0,
        p.microsecond == 0,
        p.offset_seconds is None,
    ensures
        spec_parse(fmt_minimal_basic(p)) == Ok::<ParsedDateTime, ParseError>(p),
        spec_parse(fmt_minimal_basic(p)) == spec_parse(fmt_minimal_extended(p)),
{
    let s = fmt_minimal_basic(p);
    let y = p.year as int;
    let mo = p.month as int;
    let d = p.day as int;
    let h = p.hour as int;
    let mi = p.minute as int;
    assert(s.len() == 13);
    assert(s[0] == dc((y / 100) / 10));
    assert(s[1] == dc((y / 100) % 10));
    assert(s[2] == dc((y % 100) / 10));
    assert(s[3] == dc((y % 100) % 10));
    assert(s[4] == dc(mo / 10));
    assert(s[5] == dc(mo % 10));
    assert(s[6] == dc(d / 10));
    assert(s[7] == dc(d % 10));
    assert(s[8] == UPPER_T);
    assert(s[9] == dc(h / 10));
    assert(s[10] == dc(h % 10));
    assert(s[11] == dc(mi / 10));
    assert(s[12] == dc(mi % 10));
    lemma_digits4(s, 0, y);
    lemma_parts2(mo);
    assert(skip_opt(s, 4, DASH) == 4);
    lemma_digits2(s, 4, mo);
    lemma_parts2(d);
    assert(skip_opt(s, 6, DASH) == 6);
    lemma_digits2(s, 6, d);
    assert(spec_scan_date(s) == Ok::<(int, int, int, int), ParseError>((y, mo, d, 8)));
    assert(skip_opt(s, 8, UPPER_T) == 9);
    lemma_digits2(s, 9, h);
    lemma_parts2(mi);
    assert(skip_opt(s, 11, COLON) == 11);
    lemma_digits2(s, 11, mi);
    assert(spec_scan_time(s, 8) == Ok::<(int, int, int), ParseError>((h, mi, 13)));
    assert(spec_scan_second(s, 13) == Ok::<(int, int), ParseError>((0, 13)));
    assert(assemble(y, mo, d, h, mi, 0, 0, Option::None) == p);
    lemma_parse_minimal_extended(p);
}

/// Round trip: building the canonical extended string of any value
/// with in-range fields and a representable offset, and parsing it
/// back, returns exactly that value. (The six-digit zero-padding of
/// the microsecond field is what makes the literal digit-run reading
/// of the fraction agree with the value written.)
#[verifier::rlimit(50)]
pub proof fn lemma_round_trip(p: ParsedDateTime)
    requires
        valid_fields(p),
        match p.offset_seconds {
            Option::Some(o) => representable_offset(o as int),
            Option::None => true,
        },
    ensures
        spec_parse(fmt_extended(p)) == Ok::<ParsedDateTime, ParseError>(p),
{
    let s = fmt_extended(p);
    let f = fmt_minimal_extended(p);
    let sec = p.second as int;
    let us = p.microsecond as int;
    assert(f.len() == 16);
    assert(s.subrange(0, 16) =~= f);
    lemma_extended_head(s, p);
    assert(s[16] == COLON);
    assert(s[17] == dc(sec / 10));
    assert(s[18] == dc(sec % 10));
    lemma_digits2(s, 17, sec);
    assert(spec_scan_second(s, 16) == Ok::<(int, int), ParseError>((sec, 19)));
    assert(s[19] == DOT);
    assert(s[20] == dc((us / 10000) / 10));
    assert(s[21] == dc((us / 10000) % 10));
    assert(s[22] == dc(((us / 100) % 100) / 10));
    assert(s[23] == dc(((us / 100) % 100) % 10));
    assert(s[24] == dc((us % 100) / 10));
    assert(s[25] == dc((us % 100) % 10));
    lemma_digits6(s, 20, us);
    match p.offset_seconds {
        Option::None => {
            assert(s.len() == 26);
            assert(digit_run_len(s, 26) == 0);
        },
        Option::Some(oi) => {
            let o = oi as int;
            assert(s.len() == 32);
            assert(s[26] == (if o < 0 {
                DASH
            } else {
                PLUS
            }));
            assert(!is_digit(s[26]));
            assert(digit_run_len(s, 26) == 0);
        },
    }
    assert(digit_run_len(s, 25) == 1);
    assert(digit_run_len(s, 24) == 2);
    assert(digit_run_len(s, 23) == 3);
    assert(digit_run_len(s, 22) == 4);
    assert(digit_run_len(s, 21) == 5);
    assert(digit_run_len(s, 20) == 6);
    assert(spec_scan_fraction(s, 19) == Ok::<(int, int), ParseError>((us, 26)));
    match p.offset_seconds {
        Option::None => {
            assert(assemble(
                p.year as int,
                p.month as int,
                p.day as int,
                p.hour as int,
                p.minute as int,
                sec,
                us,
                Option::None,
            ) == p);
        },
        Option::Some(oi) => {
            let o = oi as int;
            let mag = if o < 0 {
                -o
            } else {
                o
            };
            lemma_offset_parts(mag);
            assert(s[27] == dc((mag / 3600) / 10));
            assert(s[28] == dc((mag / 3600) % 10));
            assert(s[29] == COLON);
            assert(s[30] == dc(((mag % 3600) / 60) / 10));
            assert(s[31] == dc(((mag % 3600) / 60) % 10));
            lemma_digits2(s, 27, mag / 3600);
            lemma_digits2(s, 30, (mag % 3600) / 60);
            assert(skip_opt(s, 29, COLON) == 30);
            assert(crate::scan::spec_scan_offset(s, 26) == Ok::<int, ParseError>(o));
            assert(assemble(
                p.year as int,
                p.month as int,
                p.day as int,
                p.hour as int,
                p.minute as int,
                sec,
                us,
                Option::Some(o),
            ) == p);
        },
    }
}

} // verus!
