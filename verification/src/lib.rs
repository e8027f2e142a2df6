//! A strict parser for ISO-8601-family date-time strings.
//!
//! The parser accepts both the basic form (`20200716T1920`) and the
//! extended form (`2020-07-16T19:20:01.000001+01:00`), validates every
//! field against its legal range, and distinguishes a naive result (no
//! UTC offset) from a timezone-aware one.
//!
//! Three behaviors are deliberate and are pinned down by the contracts
//! and the tests:
//! - the minute is bounded by 59, the conventional ISO-8601 bound;
//! - the fractional digit run is read as a literal microsecond count
//!   (`.5` is 5 microseconds, not 500000), bounded by 999999;
//! - the offset hour and minute groups are read as two digits each
//!   with no further magnitude check, so `+99:99` is accepted.

pub mod emit;
pub mod parse;
pub mod scan;
pub mod types;
