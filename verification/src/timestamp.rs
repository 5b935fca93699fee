//! Points in time, as the tracker stores and compares them.
//!
//! A timestamp keeps the Unix time of an instant, to the nanosecond, and the
//! UTC offset it was recorded with. Two timestamps denote the same instant
//! when their Unix times agree, whatever their offsets.
use vstd::prelude::*;

verus! {

pub const NANOS_PER_SECOND: u32 = 1_000_000_000;

/// Unix times beyond this bound (about 31 000 years from 1970, either way) are
/// not accepted; every date that `time::OffsetDateTime` can hold is well inside.
pub const MAX_ABS_UNIX_SECONDS: i64 = 1_000_000_000_000;

/// The largest UTC offset in seconds (25:59:59).
pub const MAX_ABS_OFFSET_SECONDS: i32 = 93_599;

#[derive(Debug, Clone, Copy, PartialEq, Eq, Structural)]
pub struct Timestamp {
    unix_seconds: i64,
    nanosecond: u32,
    offset_seconds: i32,
}

/// Whether the parts make a timestamp.
pub open spec fn parts_fit(unix_seconds: int, nanosecond: int, offset_seconds: int) -> bool {
    &&& -MAX_ABS_UNIX_SECONDS <= unix_seconds <= MAX_ABS_UNIX_SECONDS
    &&& 0 <= nanosecond < NANOS_PER_SECOND
    &&& -MAX_ABS_OFFSET_SECONDS <= offset_seconds <= MAX_ABS_OFFSET_SECONDS
}

/// Whole seconds in a span of nanoseconds, rounded toward zero.
pub open spec fn whole_seconds(nanos: int) -> int {
    if nanos >= 0 {
        nanos / (NANOS_PER_SECOND as int)
    } else {
        -((-nanos) / (NANOS_PER_SECOND as int))
    }
}

impl Timestamp {
    #[verifier::type_invariant]
    spec fn wf(self) -> bool {
        parts_fit(self.unix_seconds as int, self.nanosecond as int, self.offset_seconds as int)
    }

    /// The instant, in nanoseconds since the Unix epoch.
    pub closed spec fn instant(self) -> int {
        self.unix_seconds * (NANOS_PER_SECOND as int) + self.nanosecond
    }

    pub closed spec fn spec_unix_seconds(self) -> int {
        self.unix_seconds as int
    }

    pub closed spec fn spec_nanosecond(self) -> int {
        self.nanosecond as int
    }

    pub closed spec fn spec_offset_seconds(self) -> int {
        self.offset_seconds as int
    }

    /// Whether the parts make a timestamp.
    pub fn fits(unix_seconds: i64, nanosecond: u32, offset_seconds: i32) -> (r: bool)
        ensures
            r == parts_fit(unix_seconds as int, nanosecond as int, offset_seconds as int),
    {
        -MAX_ABS_UNIX_SECONDS <= unix_seconds && unix_seconds <= MAX_ABS_UNIX_SECONDS
            && nanosecond < NANOS_PER_SECOND && -MAX_ABS_OFFSET_SECONDS <= offset_seconds
            && offset_seconds <= MAX_ABS_OFFSET_SECONDS
    }

    /// The timestamp `unix_seconds` seconds and `nanosecond` nanoseconds after
    /// the Unix epoch, recorded with a UTC offset of `offset_seconds`.
    pub fn new(unix_seconds: i64, nanosecond: u32, offset_seconds: i32) -> (r: Self)
        requires
            parts_fit(unix_seconds as int, nanosecond as int, offset_seconds as int),
        ensures
            r.spec_unix_seconds() == unix_seconds,
            r.spec_nanosecond() == nanosecond,
            r.spec_offset_seconds() == offset_seconds,
            r.instant() == unix_seconds * (NANOS_PER_SECOND as int) + nanosecond,
    {
        Timestamp { unix_seconds, nanosecond, offset_seconds }
    }

    pub fn unix_seconds(&self) -> (r: i64)
        ensures
            r == self.spec_unix_seconds(),
    {
        self.unix_seconds
    }

    pub fn nanosecond(&self) -> (r: u32)
        ensures
            r == self.spec_nanosecond(),
    {
        self.nanosecond
    }

    pub fn offset_seconds(&self) -> (r: i32)
        ensures
            r == self.spec_offset_seconds(),
    {
        self.offset_seconds
    }

    /// Whether both denote the same instant (offsets aside).
    pub fn same_instant(&self, other: &Self) -> (r: bool)
        ensures
            r == (self.instant() == other.instant()),
    {
        proof {
            use_type_invariant(self);
            use_type_invariant(other);
            assert(self.instant() == other.instant() ==> self.unix_seconds == other.unix_seconds
                && self.nanosecond == other.nanosecond) by (nonlinear_arith)
                requires
                    self.instant() == self.unix_seconds * 1_000_000_000int + self.nanosecond,
                    other.instant() == other.unix_seconds * 1_000_000_000int + other.nanosecond,
                    0 <= self.nanosecond < 1_000_000_000,
                    0 <= other.nanosecond < 1_000_000_000,
            ;
        }
        self.unix_seconds == other.unix_seconds && self.nanosecond == other.nanosecond
    }

    /// Whether this instant comes strictly before the other one.
    pub fn is_before(&self, other: &Self) -> (r: bool)
        ensures
            r == (self.instant() < other.instant()),
    {
        proof {
            use_type_invariant(self);
            use_type_invariant(other);
            assert(self.instant() < other.instant() <==> (self.unix_seconds < other.unix_seconds
                || (self.unix_seconds == other.unix_seconds && self.nanosecond < other.nanosecond)))
                by (nonlinear_arith)
                requires
                    self.instant() == self.unix_seconds * 1_000_000_000int + self.nanosecond,
                    other.instant() == other.unix_seconds * 1_000_000_000int + other.nanosecond,
                    0 <= self.nanosecond < 1_000_000_000,
                    0 <= other.nanosecond < 1_000_000_000,
            ;
        }
        self.unix_seconds < other.unix_seconds || (self.unix_seconds == other.unix_seconds
            && self.nanosecond < other.nanosecond)
    }

    /// Whole seconds from `earlier` to this instant, rounded toward zero
    /// (negative when `earlier` is later).
    pub fn whole_seconds_since(&self, earlier: &Self) -> (r: i64)
        ensures
            r == whole_seconds(self.instant() - earlier.instant()),
    {
        proof {
            use_type_invariant(self);
            use_type_invariant(earlier);
        }
        let diff: i128 = (self.unix_seconds as i128 - earlier.unix_seconds as i128) * 1_000_000_000i128
            + (self.nanosecond as i128 - earlier.nanosecond as i128);
        assert(diff == self.instant() - earlier.instant());
        if diff >= 0 {
            let q = diff / 1_000_000_000i128;
            assert(q <= 3_000_000_000_000) by (nonlinear_arith)
                requires
                    diff <= 3_000_000_000_000_000_000_000,
                    q == diff / 1_000_000_000,
            ;
            q as i64
        } else {
            let q = (-diff) / 1_000_000_000i128;
            assert(q <= 3_000_000_000_000) by (nonlinear_arith)
                requires
                    -diff <= 3_000_000_000_000_000_000_000,
                    q == (-diff) / 1_000_000_000,
            ;
            -(q as i64)
        }
    }
}

} // verus!
