//! The scheduler's counters of how it routed threads. They are there only while
//! the scheduler maintains them.
use vstd::prelude::*;

verus! {

pub const ROUTING_COUNTER_COUNT: usize = 9;

pub open spec fn routing_name(index: usize) -> Seq<char> {
    match index {
        0 => "select_local_direct"@,
        1 => "wake_consumed_seen"@,
        2 => "wake_consumed_granted"@,
        3 => "wake_consumed_inactive"@,
        4 => "wake_consumed_normal"@,
        5 => "wake_read_fail"@,
        6 => "running_pending_grant_success"@,
        7 => "running_pending_grant_failure"@,
        _ => "block_release_read_fail"@,
    }
}

/// The names of the counters, in the order in which they are published.
pub fn routing_counter_name(index: usize) -> (r: &'static str)
    requires
        index < ROUTING_COUNTER_COUNT,
    ensures
        r@ == routing_name(index),
{
    match index {
        0 => "select_local_direct",
        1 => "wake_consumed_seen",
        2 => "wake_consumed_granted",
        3 => "wake_consumed_inactive",
        4 => "wake_consumed_normal",
        5 => "wake_read_fail",
        6 => "running_pending_grant_success",
        7 => "running_pending_grant_failure",
        _ => "block_release_read_fail",
    }
}

/// The published counters. An empty slot: no evidence.
pub struct RoutingCounters {
    pub slots: [Option<u64>; ROUTING_COUNTER_COUNT],
}

impl RoutingCounters {
    pub fn new() -> (r: Self)
        ensures
            forall|i: int| 0 <= i < ROUTING_COUNTER_COUNT ==> #[trigger] r.slots@[i] is None,
    {
        RoutingCounters { slots: [None; ROUTING_COUNTER_COUNT] }
    }

    pub fn set_routing_counter_ptrs(&mut self, slots: [Option<u64>; ROUTING_COUNTER_COUNT])
        ensures
            final(self).slots == slots,
    {
        self.slots = slots;
    }

    pub fn clear_routing_counter_ptrs(&mut self)
        ensures
            forall|i: int|
                0 <= i < ROUTING_COUNTER_COUNT ==> #[trigger] final(self).slots@[i] is None,
    {
        self.set_routing_counter_ptrs([None; ROUTING_COUNTER_COUNT]);
    }

    /// All values, or nothing while one of them is not published.
    pub fn routing_counters(&self) -> (r: Option<[u64; ROUTING_COUNTER_COUNT]>)
        ensures
            r is Some == (forall|i: int|
                0 <= i < ROUTING_COUNTER_COUNT ==> #[trigger] self.slots@[i] is Some),
            r is Some ==> forall|i: int|
                0 <= i < ROUTING_COUNTER_COUNT ==> Some(#[trigger] r->0@[i]) == self.slots@[i],
    {
        let mut values: [u64; ROUTING_COUNTER_COUNT] = [0; ROUTING_COUNTER_COUNT];
        let mut i: usize = 0;
        while i < ROUTING_COUNTER_COUNT
            invariant
                i <= ROUTING_COUNTER_COUNT,
                forall|k: int| 0 <= k < i ==> #[trigger] self.slots@[k] is Some,
                forall|k: int| 0 <= k < i ==> Some(#[trigger] values@[k]) == self.slots@[k],
            decreases ROUTING_COUNTER_COUNT - i,
        {
            match self.slots[i] {
                None => {
                    assert(self.slots@[i as int] is None);
                    return None;
                },
                Some(value) => {
                    values[i] = value;
                },
            }
            i += 1;
        }
        Some(values)
    }
}

} // verus!
