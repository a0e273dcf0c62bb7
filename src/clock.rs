use vstd::prelude::*;

use std::time::Instant;

verus! {

/// Nanoseconds in a millisecond.
pub const NANOS_PER_MILLI: u64 = 1_000_000;

/// Nanoseconds in a second.
pub const NANOS_PER_SEC: u64 = 1_000_000_000;

/// Largest value of a timestamp.
pub const TIMESTAMP_MAX: u64 = 0xffff_ffff_ffff_ffff;

/// Elapsed nanoseconds since the origin of a monotonic clock.
#[derive(Clone, Copy, Debug, PartialEq, Eq, Structural, Hash, PartialOrd, Ord)]
pub struct Timestamp(pub u64);

impl Timestamp {
    pub fn from_nanos(nanos: u64) -> (r: Timestamp)
        ensures
            r.0 == nanos,
    {
        Timestamp(nanos)
    }

    pub fn from_millis(millis: u64) -> (r: Timestamp)
        requires
            millis * NANOS_PER_MILLI <= TIMESTAMP_MAX,
        ensures
            r.0 == millis * NANOS_PER_MILLI,
    {
        Timestamp(millis * NANOS_PER_MILLI)
    }

    pub fn from_secs(secs: u64) -> (r: Timestamp)
        requires
            secs * NANOS_PER_SEC <= TIMESTAMP_MAX,
        ensures
            r.0 == secs * NANOS_PER_SEC,
    {
        Timestamp(secs * NANOS_PER_SEC)
    }

    pub fn as_nanos(&self) -> (r: u64)
        ensures
            r == self.0,
    {
        self.0
    }

    /// Nanoseconds from `self` to `other`, zero when `other` is not later.
    pub fn saturating_elapsed_since(&self, other: &Timestamp) -> (r: u64)
        ensures
            r == (if other.0 >= self.0 {
                (other.0 - self.0) as u64
            } else {
                0
            }),
    {
        other.0.saturating_sub(self.0)
    }

    pub open spec fn spec_trunc(self, window: u64) -> Timestamp {
        Timestamp((self.0 - self.0 % window) as u64)
    }

    /// The largest multiple of `window` that is not later than `self`.
    pub fn trunc(&self, window: u64) -> (r: Self)
        requires
            window > 0,
        ensures
            r == self.spec_trunc(window),
            r.0 % window == 0,
            r.0 <= self.0,
            self.0 - r.0 < window,
    {
        let rem = self.0 % window;
        proof {
            lemma_trunc_multiple(self.0, window);
        }
        Timestamp(self.0 - rem)
    }

    /// The timestamp `nanos` later, clamped at the largest timestamp.
    pub fn saturating_add(&self, nanos: u64) -> (r: Timestamp)
        ensures
            r.0 == (if self.0 + nanos > TIMESTAMP_MAX {
                TIMESTAMP_MAX as int
            } else {
                self.0 + nanos
            }),
    {
        Timestamp(self.0.saturating_add(nanos))
    }
}

pub proof fn lemma_trunc_multiple(t: u64, w: u64)
    requires
        w > 0,
    ensures
        t % w <= t,
        t % w < w,
        ((t - t % w) as u64) % w == 0,
{
    let q = t as int / w as int;
    vstd::arithmetic::div_mod::lemma_fundamental_div_mod(t as int, w as int);
    vstd::arithmetic::div_mod::lemma_div_pos_is_pos(t as int, w as int);
    vstd::arithmetic::mul::lemma_mul_nonnegative(w as int, q);
    vstd::arithmetic::mul::lemma_mul_is_commutative(w as int, q);
    vstd::arithmetic::div_mod::lemma_mod_multiples_basic(q, w as int);
    assert(t - t % w == q * w);
}

#[verifier::external_type_specification]
#[verifier::external_body]
pub struct ExInstant(Instant);

/// Relies on `Instant::now`: a reading of the monotonic clock.
#[verifier::external_body]
fn instant_now() -> (r: Instant) {
    Instant::now()
}

/// Relies on `Instant::elapsed`: nanoseconds since the reading, which depend
/// on the time of the call.
#[verifier::external_body]
fn instant_elapsed_nanos(start: &Instant) -> (r: u128) {
    start.elapsed().as_nanos()
}

/// The timestamp of `nanos` elapsed nanoseconds, clamped at the largest
/// timestamp.
pub fn timestamp_of_elapsed(nanos: u128) -> (r: Timestamp)
    ensures
        r.0 == (if nanos > TIMESTAMP_MAX as u128 {
            TIMESTAMP_MAX
        } else {
            nanos as u64
        }),
{
    if nanos > TIMESTAMP_MAX as u128 {
        Timestamp(TIMESTAMP_MAX)
    } else {
        Timestamp(nanos as u64)
    }
}

/// A monotonic clock, with the wall-clock instant of its origin.
pub struct ClockNano {
    start: Instant,
    wall_time: u128,
}

impl ClockNano {
    /// A clock whose origin is now; `wall_time` is the wall-clock instant of
    /// now, in nanoseconds since the Unix epoch.
    pub fn new(wall_time: u128) -> (r: ClockNano)
        ensures
            r.wall_origin() == wall_time,
    {
        ClockNano { start: instant_now(), wall_time }
    }

    pub closed spec fn wall_origin(&self) -> u128 {
        self.wall_time
    }

    /// The wall-clock instant of `ts`, in nanoseconds since the Unix epoch,
    /// clamped at the largest such value.
    pub fn wall_time(&self, ts: Timestamp) -> (r: u128)
        ensures
            r == (if self.wall_origin() + ts.0 > u128::MAX {
                u128::MAX as int
            } else {
                self.wall_origin() + ts.0
            }),
    {
        self.wall_time.saturating_add(ts.0 as u128)
    }

    /// Time elapsed since the origin, clamped at the largest timestamp: the
    /// timestamp that [timestamp_of_elapsed] gives for the nanoseconds the
    /// monotonic clock reports, whatever they are.
    pub fn now(&self) -> (r: Timestamp)
        ensures
            r.0 <= TIMESTAMP_MAX,
    {
        timestamp_of_elapsed(instant_elapsed_nanos(&self.start))
    }
}

} // verus!
