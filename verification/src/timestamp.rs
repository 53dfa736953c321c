//! Wire timestamps and the calendar arithmetic of the core.
//!
//! A timestamp travels as seconds-since-epoch plus a nanosecond remainder.
//! The stored form is normalized: the remainder lies in `[0, 1_000_000_000)`
//! and the seconds lie in the representable range.  Parsing normalizes and
//! range-checks; anything else is rejected.

use vstd::arithmetic::div_mod::{lemma_fundamental_div_mod, lemma_fundamental_div_mod_converse};
use vstd::prelude::*;

use crate::errors::ApiError;

verus! {

pub const NANOS_PER_SECOND: i64 = 1_000_000_000;

pub const SECONDS_PER_DAY: i64 = 86_400;

/// Earliest representable second (midnight opening year -9999).
pub const MIN_TIMESTAMP_SECONDS: i64 = -377_705_116_800;

/// Latest representable second (last second of year 9999).
pub const MAX_TIMESTAMP_SECONDS: i64 = 253_402_300_799;

/// A point in time: seconds since the Unix epoch plus a nanosecond remainder.
#[derive(Clone, Copy, PartialEq, Eq, Structural, Debug)]
pub struct Timestamp {
    pub seconds: i64,
    pub nanos: i32,
}

/// The stored form: a nonnegative sub-second remainder and in-range seconds.
pub open spec fn ts_well_formed(t: Timestamp) -> bool {
    &&& 0 <= t.nanos < NANOS_PER_SECOND
    &&& MIN_TIMESTAMP_SECONDS <= t.seconds <= MAX_TIMESTAMP_SECONDS
}

/// Total order on timestamps, by seconds then remainder.
pub open spec fn ts_le(a: Timestamp, b: Timestamp) -> bool {
    a.seconds < b.seconds || (a.seconds == b.seconds && a.nanos <= b.nanos)
}

/// Strict form of [`ts_le`].
pub open spec fn ts_lt(a: Timestamp, b: Timestamp) -> bool {
    a.seconds < b.seconds || (a.seconds == b.seconds && a.nanos < b.nanos)
}

/// The instant a wire timestamp denotes, in nanoseconds since the epoch.
pub open spec fn total_nanos(t: Timestamp) -> int {
    t.seconds * NANOS_PER_SECOND + t.nanos
}

/// Seconds part of the normalized form of an instant.
pub open spec fn norm_seconds(total: int) -> int {
    total / (NANOS_PER_SECOND as int)
}

/// Nanosecond remainder of the normalized form of an instant.
pub open spec fn norm_nanos(total: int) -> int {
    total % (NANOS_PER_SECOND as int)
}

/// Whether a wire timestamp is present and denotes a representable instant.
pub open spec fn parse_timestamp_ok(t: Option<Timestamp>) -> bool {
    &&& t is Some
    &&& MIN_TIMESTAMP_SECONDS <= norm_seconds(total_nanos(t->Some_0)) <= MAX_TIMESTAMP_SECONDS
}

/// The normalized form of a wire timestamp.
pub open spec fn normalized(w: Timestamp) -> Timestamp {
    Timestamp {
        seconds: norm_seconds(total_nanos(w)) as i64,
        nanos: norm_nanos(total_nanos(w)) as i32,
    }
}

/// Exec comparison realizing [`ts_le`].
pub fn ts_le_exec(a: &Timestamp, b: &Timestamp) -> (r: bool)
    ensures
        r == ts_le(*a, *b),
{
    a.seconds < b.seconds || (a.seconds == b.seconds && a.nanos <= b.nanos)
}

/// Parses a required wire timestamp: a missing one, or one whose normalized
/// form falls outside the representable range, is rejected as
/// `InvalidArgument`; otherwise the normalized form is returned.
pub fn parse_timestamp(t: Option<Timestamp>) -> (r: Result<Timestamp, ApiError>)
    ensures
        parse_timestamp_ok(t) ==> (r matches Ok(p) && p == normalized(t->Some_0) && ts_well_formed(
            p,
        )),
        !parse_timestamp_ok(t) ==> (r matches Err(e) && e is InvalidArgument),
{
    let w = match t {
        None => {
            return Err(ApiError::invalid("'timestamp'"));
        },
        Some(w) => w,
    };
    let ghost total: int = total_nanos(w);
    let mut s: i128 = w.seconds as i128;
    let mut n: i64 = w.nanos as i64;
    if n < 0 {
        n = n + NANOS_PER_SECOND;
        s = s - 1;
    }
    if n < 0 {
        n = n + NANOS_PER_SECOND;
        s = s - 1;
    }
    if n < 0 {
        n = n + NANOS_PER_SECOND;
        s = s - 1;
    }
    if n >= NANOS_PER_SECOND {
        n = n - NANOS_PER_SECOND;
        s = s + 1;
    }
    if n >= NANOS_PER_SECOND {
        n = n - NANOS_PER_SECOND;
        s = s + 1;
    }
    proof {
        assert(0 <= n < NANOS_PER_SECOND);
        assert(s * (NANOS_PER_SECOND as int) + n == total) by (nonlinear_arith)
            requires
                s * (NANOS_PER_SECOND as int) + n == (w.seconds as int) * (NANOS_PER_SECOND as int)
                    + w.nanos,
                total == total_nanos(w),
                total_nanos(w) == (w.seconds as int) * (NANOS_PER_SECOND as int) + w.nanos,
        ;
        lemma_fundamental_div_mod_converse(total, NANOS_PER_SECOND as int, s as int, n as int);
    }
    if s < MIN_TIMESTAMP_SECONDS as i128 || s > MAX_TIMESTAMP_SECONDS as i128 {
        Err(ApiError::invalid("'timestamp'"))
    } else {
        Ok(Timestamp { seconds: s as i64, nanos: n as i32 })
    }
}

/// Calendar day (in UTC) an instant falls on, counted from the epoch.
pub open spec fn day_of(seconds: int) -> int {
    seconds / (SECONDS_PER_DAY as int)
}

/// Exec computation of [`day_of`], flooring also for instants before the
/// epoch.
pub fn day_of_timestamp(t: &Timestamp) -> (d: i64)
    requires
        ts_well_formed(*t),
    ensures
        d == day_of(t.seconds as int),
{
    if t.seconds >= 0 {
        let q: u64 = (t.seconds as u64) / (SECONDS_PER_DAY as u64);
        q as i64
    } else {
        let m: u64 = (-(t.seconds + 1)) as u64;
        let q: u64 = m / (SECONDS_PER_DAY as u64);
        let r: u64 = m % (SECONDS_PER_DAY as u64);
        proof {
            lemma_fundamental_div_mod(m as int, SECONDS_PER_DAY as int);
            assert(t.seconds as int == (-(q as int) - 1) * (SECONDS_PER_DAY as int) + (
            SECONDS_PER_DAY as int - (r as int) - 1)) by (nonlinear_arith)
                requires
                    m as int == (SECONDS_PER_DAY as int) * (q as int) + (r as int),
                    t.seconds as int == -(m as int) - 1,
            ;
            lemma_fundamental_div_mod_converse(
                t.seconds as int,
                SECONDS_PER_DAY as int,
                -(q as int) - 1,
                SECONDS_PER_DAY as int - (r as int) - 1,
            );
        }
        -(q as i64) - 1
    }
}

/// Whether two instants fall on the same UTC calendar day.
pub open spec fn same_day(a: Timestamp, b: Timestamp) -> bool {
    day_of(a.seconds as int) == day_of(b.seconds as int)
}

/// Exec check realizing [`same_day`].
pub fn same_day_exec(a: &Timestamp, b: &Timestamp) -> (r: bool)
    requires
        ts_well_formed(*a),
        ts_well_formed(*b),
    ensures
        r == same_day(*a, *b),
{
    day_of_timestamp(a) == day_of_timestamp(b)
}

} // verus!
