//! What tests of locks share.
use vstd::prelude::*;

use crate::accordin_shared::condvar;
use crate::accordin_shared::condvar::CvSwitches;
use crate::accordin_shared::mutex_hook;
use crate::accordin_shared::mutex_hook::HookCounters;

verus! {

/// A measurement over the debug counters.
pub struct DebugCounterMeasurement {
    pub baseline: HookCounters,
}

/// Begins a measurement. The counters stand still until it is enabled.
pub fn measure_debug_counters(counters: &mut HookCounters) -> (r: DebugCounterMeasurement)
    ensures
        !final(counters).enabled,
        *final(counters) == (HookCounters { enabled: false, ..*old(counters) }),
        r.baseline == *final(counters),
{
    mutex_hook::set_cv_admission_counters_enabled(counters, false);
    DebugCounterMeasurement { baseline: *counters }
}

impl DebugCounterMeasurement {
    pub fn enable(&self, counters: &mut HookCounters)
        ensures
            *final(counters) == (HookCounters { enabled: true, ..*old(counters) }),
    {
        mutex_hook::set_cv_admission_counters_enabled(counters, true);
    }

    /// Leaves the counters off, whichever way they were.
    pub fn finish(self, counters: &mut HookCounters)
        ensures
            *final(counters) == (HookCounters { enabled: false, ..*old(counters) }),
    {
        mutex_hook::set_cv_admission_counters_enabled(counters, false);
    }
}

/// The choice of a thread whether its broadcasts move their waiters.
pub struct RequeueGuard {
    pub requeue: bool,
}

pub fn waking_thread(switches: &mut CvSwitches, requeue: bool) -> (r: RequeueGuard)
    ensures
        final(switches).requeues() == requeue,
        *final(switches) == (CvSwitches {
            requeue_overridden: true,
            requeue_forced: Some(requeue),
            ..*old(switches)
        }),
        r.requeue == requeue,
{
    condvar::force_cv_requeue_for_thread(switches, Some(requeue));
    RequeueGuard { requeue }
}

impl RequeueGuard {
    /// Takes the choice back.
    pub fn restore(self, switches: &mut CvSwitches)
        ensures
            final(switches).requeues() == old(switches).requeue,
            *final(switches) == (CvSwitches {
                requeue_overridden: true,
                requeue_forced: None,
                ..*old(switches)
            }),
    {
        condvar::force_cv_requeue_for_thread(switches, None);
    }
}

/// A point in time.
#[derive(Clone, Copy, Debug, PartialEq, Eq, Structural)]
pub struct Timespec {
    pub tv_sec: i64,
    pub tv_nsec: i64,
}

pub const NS_PER_SEC: i64 = 1_000_000_000;

pub open spec fn nanos_of(time: Timespec) -> int {
    time.tv_sec * NS_PER_SEC + time.tv_nsec
}

/// The point in time `nanos` after `now`.
pub fn deadline_in(now: Timespec, nanos: i64) -> (r: Timespec)
    requires
        0 <= now.tv_nsec < NS_PER_SEC,
        0 <= nanos <= i64::MAX - now.tv_nsec,
        0 <= now.tv_sec,
        now.tv_sec + (now.tv_nsec + nanos) / (NS_PER_SEC as int) <= i64::MAX,
    ensures
        0 <= r.tv_nsec < NS_PER_SEC,
        nanos_of(r) == nanos_of(now) + nanos,
{
    let deadline_nsec: i64 = now.tv_nsec + nanos;
    Timespec {
        tv_sec: now.tv_sec + deadline_nsec / NS_PER_SEC,
        tv_nsec: deadline_nsec % NS_PER_SEC,
    }
}

pub fn deadline_in_millis(now: Timespec, millis: i64) -> (r: Timespec)
    requires
        0 <= now.tv_nsec < NS_PER_SEC,
        0 <= millis,
        millis * 1_000_000 <= i64::MAX - now.tv_nsec,
        0 <= now.tv_sec,
        now.tv_sec + (now.tv_nsec + millis * 1_000_000) / (NS_PER_SEC as int) <= i64::MAX,
    ensures
        0 <= r.tv_nsec < NS_PER_SEC,
        nanos_of(r) == nanos_of(now) + millis * 1_000_000,
{
    deadline_in(now, millis * 1_000_000)
}

/// Of two points in time the one with more seconds is the later one, and in the same second
/// the one with more nanoseconds; a second is a thousand million of them.
pub proof fn law_times_are_ordered_by_seconds_first(a: Timespec, b: Timespec)
    requires
        0 <= a.tv_nsec < 1_000_000_000,
        0 <= b.tv_nsec < 1_000_000_000,
    ensures
        a.tv_sec < b.tv_sec ==> nanos_of(a) < nanos_of(b),
        a.tv_sec == b.tv_sec ==> nanos_of(b) - nanos_of(a) == b.tv_nsec - a.tv_nsec,
        a.tv_sec + 1 == b.tv_sec && a.tv_nsec == b.tv_nsec ==> nanos_of(b) - nanos_of(a)
            == 1_000_000_000,
{
}

} // verus!
