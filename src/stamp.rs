//! Logical timestamps: a wall-clock instant in 32.32 fixed-point seconds,
//! made unique by the identifier of the clock that issued it.
use vstd::prelude::*;

verus! {

/// Number of fraction units in one second of a 32.32 fixed-point instant.
pub const FRAC_PER_SEC: u64 = 0x1_0000_0000;

/// Number of nanoseconds in one second.
pub const NANO_PER_SEC: u64 = 1_000_000_000;

/// A causally ordered timestamp: `time` holds seconds in its upper 32 bits
/// and the fraction of a second in its lower 32 bits; `id` identifies the
/// clock that issued it and breaks ties between equal instants.
#[derive(Clone, Copy, Debug, PartialEq, Eq, Structural)]
pub struct LogicalTime {
    pub time: u64,
    pub id: u128,
}

/// The total order on logical timestamps: by instant, then by clock id.
pub open spec fn stamp_lt(a: LogicalTime, b: LogicalTime) -> bool {
    a.time < b.time || (a.time == b.time && a.id < b.id)
}

/// Nanoseconds since the epoch of a 32.32 fixed-point instant, the fraction
/// rounded down to a whole nanosecond.
pub open spec fn nanos_of(time: u64) -> int {
    ((time / FRAC_PER_SEC) as int) * (NANO_PER_SEC as int)
        + (((time % FRAC_PER_SEC) as int) * (NANO_PER_SEC as int)) / (FRAC_PER_SEC as int)
}

impl LogicalTime {
    /// The physical time under which the store indexes a row of this stamp.
    pub open spec fn spec_physical(self) -> int {
        nanos_of(self.time)
    }

    /// Whether `self` comes strictly before `other`.
    pub fn precedes(&self, other: &LogicalTime) -> (r: bool)
        ensures
            r == stamp_lt(*self, *other),
    {
        self.time < other.time || (self.time == other.time && self.id < other.id)
    }

    /// Nanoseconds since the epoch of this stamp's wall-clock component.
    pub fn physical_time(&self) -> (r: u128)
        ensures
            r as int == self.spec_physical(),
    {
        let secs: u64 = self.time / FRAC_PER_SEC;
        let frac: u64 = self.time % FRAC_PER_SEC;
        assert(secs < FRAC_PER_SEC) by {
            assert(self.time <= u64::MAX);
        }
        assert((secs as u128) * (NANO_PER_SEC as u128) < 0x1_0000_0000_0000_0000_0000) by (nonlinear_arith)
            requires secs < FRAC_PER_SEC;
        assert((frac as u128) * (NANO_PER_SEC as u128) < 0x1_0000_0000_0000_0000_0000) by (nonlinear_arith)
            requires frac < FRAC_PER_SEC;
        let sub: u128 = (frac as u128) * (NANO_PER_SEC as u128) / (FRAC_PER_SEC as u128);
        assert(sub <= (frac as u128) * (NANO_PER_SEC as u128));
        (secs as u128) * (NANO_PER_SEC as u128) + sub
    }
}

/// The fraction part of an instant is below one second.
proof fn lemma_sub_second(frac: int)
    requires
        0 <= frac < FRAC_PER_SEC,
    ensures
        0 <= (frac * (NANO_PER_SEC as int)) / (FRAC_PER_SEC as int) < NANO_PER_SEC,
{
    assert(frac * (NANO_PER_SEC as int) >= 0) by (nonlinear_arith)
        requires frac >= 0;
    assert(frac * (NANO_PER_SEC as int) < (FRAC_PER_SEC as int) * (NANO_PER_SEC as int)) by (nonlinear_arith)
        requires 0 <= frac < FRAC_PER_SEC;
    vstd::arithmetic::div_mod::lemma_div_is_ordered(
        frac * (NANO_PER_SEC as int),
        (FRAC_PER_SEC as int) * (NANO_PER_SEC as int) - 1,
        (FRAC_PER_SEC as int),
    );
    assert(((FRAC_PER_SEC as int) * (NANO_PER_SEC as int) - 1) / (FRAC_PER_SEC as int) == NANO_PER_SEC - 1);
}

/// Physical time never runs backwards as the instant grows.
pub proof fn lemma_physical_monotonic(t1: u64, t2: u64)
    requires
        t1 <= t2,
    ensures
        nanos_of(t1) <= nanos_of(t2),
{
    let s1 = (t1 / FRAC_PER_SEC) as int;
    let s2 = (t2 / FRAC_PER_SEC) as int;
    let f1 = (t1 % FRAC_PER_SEC) as int;
    let f2 = (t2 % FRAC_PER_SEC) as int;
    let n = (NANO_PER_SEC as int);
    lemma_sub_second(f1);
    lemma_sub_second(f2);
    if s1 == s2 {
        assert(f1 <= f2);
        assert(f1 * n <= f2 * n) by (nonlinear_arith)
            requires f1 <= f2, n > 0;
        vstd::arithmetic::div_mod::lemma_div_is_ordered(f1 * n, f2 * n, (FRAC_PER_SEC as int));
    } else {
        vstd::arithmetic::div_mod::lemma_div_is_ordered(t1 as int, t2 as int, (FRAC_PER_SEC as int));
        assert(s1 < s2);
        assert(s1 * n + n <= s2 * n) by (nonlinear_arith)
            requires s1 < s2, n > 0;
    }
}

/// A stamp whose physical time lies strictly after another's also follows it
/// in the logical order.
pub proof fn lemma_later_physical_is_later(a: LogicalTime, b: LogicalTime)
    requires
        a.spec_physical() < b.spec_physical(),
    ensures
        stamp_lt(a, b),
{
    if b.time <= a.time {
        lemma_physical_monotonic(b.time, a.time);
    }
}

} // verus!
