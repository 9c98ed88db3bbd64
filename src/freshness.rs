//! When a cached registry snapshot may still be used.
use vstd::prelude::*;

verus! {

/// Seconds in one hour.
pub const SECS_PER_HOUR: u64 = 3600;

/// Nanoseconds in one second.
pub const NANOS_PER_SEC: u32 = 1_000_000_000;

/// The age below which a cached snapshot is still used.
#[derive(Clone, Copy, Debug, PartialEq, Eq)]
pub struct MaxAge {
    pub secs: u64,
    pub nanos: u32,
}

impl MaxAge {
    /// Well-formed: the sub-second part is below one second.
    pub open spec fn wf(self) -> bool {
        self.nanos < NANOS_PER_SEC
    }

    /// The age in nanoseconds.
    pub open spec fn total_nanos(self) -> int {
        self.secs as int * NANOS_PER_SEC as int + self.nanos as int
    }

    /// The default: 48 hours.
    pub fn default_max_age() -> (r: MaxAge)
        ensures
            r.wf(),
            r.secs == 48 * SECS_PER_HOUR,
            r.nanos == 0,
    {
        MaxAge { secs: 48 * SECS_PER_HOUR, nanos: 0 }
    }

    /// An age of whole seconds.
    pub fn from_secs(secs: u64) -> (r: MaxAge)
        ensures
            r.wf(),
            r.secs == secs,
            r.nanos == 0,
    {
        MaxAge { secs, nanos: 0 }
    }
}

/// A snapshot acquired at `acquired` (seconds) is fresh at `now` (seconds)
/// iff its age is strictly below `max_age`.
pub open spec fn fresh(acquired: int, now: int, max_age: MaxAge) -> bool {
    (now - acquired) * (NANOS_PER_SEC as int) < max_age.total_nanos()
}

/// Is a snapshot acquired at `acquired` still fresh at `now`? Both are whole
/// seconds on the same clock; a snapshot from the future counts as fresh.
pub fn is_fresh(acquired: u64, now: u64, max_age: MaxAge) -> (r: bool)
    requires
        max_age.wf(),
    ensures
        r == fresh(acquired as int, now as int, max_age),
{
    if now < acquired {
        return true;
    }
    let age: u64 = now - acquired;
    if age < max_age.secs {
        true
    } else if age == max_age.secs {
        max_age.nanos > 0
    } else {
        false
    }
}

/// Freshness depends on the acquisition time, the current time and the
/// maximum age alone, and its boundary is exclusive: a snapshot exactly
/// `max_age` old is stale, and one a second younger is fresh.
pub proof fn lemma_freshness_boundary(acquired: int, max_secs: u64)
    requires
        max_secs >= 1,
    ensures
        !fresh(acquired, acquired + max_secs, MaxAge { secs: max_secs, nanos: 0 }),
        fresh(acquired, acquired + max_secs - 1, MaxAge { secs: max_secs, nanos: 0 }),
{
}

} // verus!
