//! What the pthread hooks and the direct interfaces share around a lock: the
//! acquire bracket, the debug counters, the registries, and the decisions of each
//! hooked call.
use std::collections::HashSet;
use std::marker::PhantomData;

use vstd::prelude::*;

use crate::accordin_shared::condvar::CondRelock;
use crate::errno::{EBUSY, EINVAL, ENOTSUP};
use crate::install;
use crate::install::{InstallPhase, INSTALLING, NO_STATE};
use crate::lock_backend::LockBackend;
use crate::text;

verus! {

/// Reconciles the cond-reacquire protocol of the locks against the wake routing of
/// the scheduler.
#[derive(Clone, Copy, Debug, PartialEq, Eq, Structural)]
pub struct CvAdmissionCounters {
    pub hints_published: u64,
    pub specialized_relocks: u64,
    pub fallback_relocks: u64,
    /// Re-acquisitions that took the admission decision from a routed wakeup.
    pub route_relocks: u64,
}

/// Accounts the staging that a cond broadcast parks its waiters on against the
/// unlocks that release them.
#[derive(Clone, Copy, Debug, PartialEq, Eq, Structural)]
pub struct CvRequeueCounters {
    /// Waiters moved from a cond to the stage of a lock.
    pub requeued: u64,
    /// Broadcasts that woke their waiters because they could not be moved.
    pub fallbacks: u64,
    /// Staged waiters released by an unlock.
    pub drain_wakes: u64,
    /// Staged waiters released by a broadcaster.
    pub stranding_wakes: u64,
    /// Most waiters ever staged on one lock at once.
    pub staged_high_water: u64,
    /// Conds that gave their binding up because of a second mutex.
    pub binding_conflicts: u64,
}

/// Accounts the writer-event wake protocol against the routing that it asks for.
#[derive(Clone, Copy, Debug, PartialEq, Eq, Structural)]
pub struct WriterEventCounters {
    /// Waits that blocked and showed that they sleep.
    pub arms: u64,
    /// Wakes that left the reason unset.
    pub spurious_wakes: u64,
    /// Waiters released as the new head of the queue.
    pub leader_posts: u64,
    /// Completed posts that took the routed state back.
    pub route_takebacks: u64,
    /// Completed posts that found no state published.
    pub route_takeback_unpublished: u64,
    /// Completed posts that lost the state to the waiter itself.
    pub route_takeback_lost: u64,
    /// Completed wakes that still carried the routed state.
    pub completed_misroutes: u64,
    /// Re-acquisitions on the decision of their wake.
    pub relocks_admitted: u64,
    /// Re-acquisitions that asked for a slot themselves.
    pub relocks_normal: u64,
}

/// Accounts how a slow-path mark related to the class that the admission word
/// already named.
#[derive(Clone, Copy, Debug, PartialEq, Eq, Structural)]
pub struct AdmissionMarkCounters {
    pub pending_same_class: u64,
    pub pending_cross_class: u64,
    pub pending_cross_class_token_kept: u64,
}

/// Accounts what the admission gate does to a slow path.
#[derive(Clone, Copy, Debug, PartialEq, Eq, Structural)]
pub struct AdmissionGateCounters {
    pub gate_wait_loops: u64,
    pub gate_timeouts: u64,
    /// Waits that nothing could grant.
    pub gate_bypass_ungrantable: u64,
}

/// The debug counters of a process. They are shared by all threads, so they stay
/// off unless a run asks for them.
#[derive(Clone, Copy, Debug, PartialEq, Eq, Structural)]
pub struct HookCounters {
    pub enabled: bool,
    pub admission: CvAdmissionCounters,
    pub requeue: CvRequeueCounters,
    pub writer_event: WriterEventCounters,
    pub mark: AdmissionMarkCounters,
    pub gate: AdmissionGateCounters,
}

impl HookCounters {
    pub fn new() -> (r: Self)
        ensures
            !r.enabled,
            r.admission.hints_published == 0,
            r.admission.specialized_relocks == 0,
            r.admission.fallback_relocks == 0,
            r.admission.route_relocks == 0,
            r.requeue.requeued == 0,
            r.requeue.fallbacks == 0,
            r.requeue.drain_wakes == 0,
            r.requeue.stranding_wakes == 0,
            r.requeue.staged_high_water == 0,
            r.requeue.binding_conflicts == 0,
            r.writer_event.arms == 0,
            r.writer_event.spurious_wakes == 0,
            r.writer_event.leader_posts == 0,
            r.writer_event.route_takebacks == 0,
            r.writer_event.route_takeback_unpublished == 0,
            r.writer_event.route_takeback_lost == 0,
            r.writer_event.completed_misroutes == 0,
            r.writer_event.relocks_admitted == 0,
            r.writer_event.relocks_normal == 0,
            r.mark.pending_same_class == 0,
            r.mark.pending_cross_class == 0,
            r.mark.pending_cross_class_token_kept == 0,
            r.gate.gate_wait_loops == 0,
            r.gate.gate_timeouts == 0,
            r.gate.gate_bypass_ungrantable == 0,
    {
        HookCounters {
            enabled: false,
            admission: CvAdmissionCounters {
                hints_published: 0,
                specialized_relocks: 0,
                fallback_relocks: 0,
                route_relocks: 0,
            },
            requeue: CvRequeueCounters {
                requeued: 0,
                fallbacks: 0,
                drain_wakes: 0,
                stranding_wakes: 0,
                staged_high_water: 0,
                binding_conflicts: 0,
            },
            writer_event: WriterEventCounters {
                arms: 0,
                spurious_wakes: 0,
                leader_posts: 0,
                route_takebacks: 0,
                route_takeback_unpublished: 0,
                route_takeback_lost: 0,
                completed_misroutes: 0,
                relocks_admitted: 0,
                relocks_normal: 0,
            },
            mark: AdmissionMarkCounters {
                pending_same_class: 0,
                pending_cross_class: 0,
                pending_cross_class_token_kept: 0,
            },
            gate: AdmissionGateCounters {
                gate_wait_loops: 0,
                gate_timeouts: 0,
                gate_bypass_ungrantable: 0,
            },
        }
    }
}

/// What a counter holds once `amount` was counted. A counter that is full starts
/// over.
pub open spec fn counted(enabled: bool, value: u64, amount: u64) -> u64 {
    if enabled {
        value.wrapping_add(amount)
    } else {
        value
    }
}

fn add_cv_counter(enabled: bool, value: u64, amount: u64) -> (r: u64)
    ensures
        r == counted(enabled, value, amount),
{
    if enabled {
        value.wrapping_add(amount)
    } else {
        value
    }
}

pub fn cv_admission_counters_enabled(counters: &HookCounters) -> (r: bool)
    ensures
        r == counters.enabled,
{
    counters.enabled
}

pub fn set_cv_admission_counters_enabled(counters: &mut HookCounters, enabled: bool)
    ensures
        *final(counters) == (HookCounters { enabled, ..*old(counters) }),
{
    counters.enabled = enabled;
}

pub fn cv_admission_counters(counters: &HookCounters) -> (r: CvAdmissionCounters)
    ensures
        r == counters.admission,
{
    counters.admission
}

pub fn cv_requeue_counters(counters: &HookCounters) -> (r: CvRequeueCounters)
    ensures
        r == counters.requeue,
{
    counters.requeue
}

pub fn writer_event_counters(counters: &HookCounters) -> (r: WriterEventCounters)
    ensures
        r == counters.writer_event,
{
    counters.writer_event
}

pub fn admission_mark_counters(counters: &HookCounters) -> (r: AdmissionMarkCounters)
    ensures
        r == counters.mark,
{
    counters.mark
}

pub fn admission_gate_counters(counters: &HookCounters) -> (r: AdmissionGateCounters)
    ensures
        r == counters.gate,
{
    counters.gate
}

/// The values of the family in the order in which they are printed.
pub fn cv_admission_field_values(counters: &HookCounters) -> (r: [u64; 4])
    ensures
        r@ == seq![
            counters.admission.hints_published,
            counters.admission.specialized_relocks,
            counters.admission.fallback_relocks,
            counters.admission.route_relocks,
        ],
{
    [
        counters.admission.hints_published,
        counters.admission.specialized_relocks,
        counters.admission.fallback_relocks,
        counters.admission.route_relocks,
    ]
}

/// The values of the family in the order in which they are printed.
pub fn cv_requeue_field_values(counters: &HookCounters) -> (r: [u64; 6])
    ensures
        r@ == seq![
            counters.requeue.requeued,
            counters.requeue.fallbacks,
            counters.requeue.drain_wakes,
            counters.requeue.stranding_wakes,
            counters.requeue.staged_high_water,
            counters.requeue.binding_conflicts,
        ],
{
    [
        counters.requeue.requeued,
        counters.requeue.fallbacks,
        counters.requeue.drain_wakes,
        counters.requeue.stranding_wakes,
        counters.requeue.staged_high_water,
        counters.requeue.binding_conflicts,
    ]
}

/// The values of the family in the order in which they are printed.
pub fn admission_mark_field_values(counters: &HookCounters) -> (r: [u64; 3])
    ensures
        r@ == seq![
            counters.mark.pending_same_class,
            counters.mark.pending_cross_class,
            counters.mark.pending_cross_class_token_kept,
        ],
{
    [
        counters.mark.pending_same_class,
        counters.mark.pending_cross_class,
        counters.mark.pending_cross_class_token_kept,
    ]
}

/// The values of the family in the order in which they are printed.
pub fn admission_gate_field_values(counters: &HookCounters) -> (r: [u64; 3])
    ensures
        r@ == seq![
            counters.gate.gate_wait_loops,
            counters.gate.gate_timeouts,
            counters.gate.gate_bypass_ungrantable,
        ],
{
    [
        counters.gate.gate_wait_loops,
        counters.gate.gate_timeouts,
        counters.gate.gate_bypass_ungrantable,
    ]
}

/// Completed posts: each of them left exactly one of three outcomes behind.
pub open spec fn completed_posts(counters: WriterEventCounters) -> u64 {
    counters.route_takebacks.saturating_add(counters.route_takeback_unpublished).saturating_add(
        counters.route_takeback_lost,
    )
}

/// The values of the family in the order in which they are printed.
pub fn writer_event_field_values(counters: &HookCounters) -> (r: [u64; 10])
    ensures
        r@ == seq![
            counters.writer_event.arms,
            counters.writer_event.spurious_wakes,
            completed_posts(counters.writer_event),
            counters.writer_event.leader_posts,
            counters.writer_event.route_takebacks,
            counters.writer_event.route_takeback_unpublished,
            counters.writer_event.route_takeback_lost,
            counters.writer_event.completed_misroutes,
            counters.writer_event.relocks_admitted,
            counters.writer_event.relocks_normal,
        ],
{
    let values: WriterEventCounters = counters.writer_event;
    let posts: u64 = values.route_takebacks.saturating_add(
        values.route_takeback_unpublished,
    ).saturating_add(values.route_takeback_lost);
    [
        values.arms,
        values.spurious_wakes,
        posts,
        values.leader_posts,
        values.route_takebacks,
        values.route_takeback_unpublished,
        values.route_takeback_lost,
        values.completed_misroutes,
        values.relocks_admitted,
        values.relocks_normal,
    ]
}

pub open spec fn with_admission_gate_wait_loop(counters: HookCounters) -> HookCounters {
    HookCounters {
        gate: AdmissionGateCounters {
            gate_wait_loops: counted(counters.enabled, counters.gate.gate_wait_loops, 1),
            ..counters.gate
        },
        ..counters
    }
}

pub fn record_admission_gate_wait_loop(counters: &mut HookCounters)
    ensures
        *final(counters) == with_admission_gate_wait_loop(*old(counters)),
{
    counters.gate.gate_wait_loops = add_cv_counter(
        counters.enabled,
        counters.gate.gate_wait_loops,
        1,
    );
}

pub open spec fn with_admission_gate_timeout(counters: HookCounters) -> HookCounters {
    HookCounters {
        gate: AdmissionGateCounters {
            gate_timeouts: counted(counters.enabled, counters.gate.gate_timeouts, 1),
            ..counters.gate
        },
        ..counters
    }
}

pub fn record_admission_gate_timeout(counters: &mut HookCounters)
    ensures
        *final(counters) == with_admission_gate_timeout(*old(counters)),
{
    counters.gate.gate_timeouts = add_cv_counter(counters.enabled, counters.gate.gate_timeouts, 1);
}

pub open spec fn with_admission_gate_bypass(counters: HookCounters) -> HookCounters {
    HookCounters {
        gate: AdmissionGateCounters {
            gate_bypass_ungrantable: counted(counters.enabled, counters.gate.gate_bypass_ungrantable, 1),
            ..counters.gate
        },
        ..counters
    }
}

pub fn record_admission_gate_bypass(counters: &mut HookCounters)
    ensures
        *final(counters) == with_admission_gate_bypass(*old(counters)),
{
    counters.gate.gate_bypass_ungrantable = add_cv_counter(
        counters.enabled,
        counters.gate.gate_bypass_ungrantable,
        1,
    );
}

pub open spec fn with_admission_mark_same_class(counters: HookCounters) -> HookCounters {
    HookCounters {
        mark: AdmissionMarkCounters {
            pending_same_class: counted(counters.enabled, counters.mark.pending_same_class, 1),
            ..counters.mark
        },
        ..counters
    }
}

pub fn record_admission_mark_same_class(counters: &mut HookCounters)
    ensures
        *final(counters) == with_admission_mark_same_class(*old(counters)),
{
    counters.mark.pending_same_class = add_cv_counter(
        counters.enabled,
        counters.mark.pending_same_class,
        1,
    );
}

pub open spec fn with_admission_mark_cross_class(counters: HookCounters) -> HookCounters {
    HookCounters {
        mark: AdmissionMarkCounters {
            pending_cross_class: counted(counters.enabled, counters.mark.pending_cross_class, 1),
            ..counters.mark
        },
        ..counters
    }
}

pub fn record_admission_mark_cross_class(counters: &mut HookCounters)
    ensures
        *final(counters) == with_admission_mark_cross_class(*old(counters)),
{
    counters.mark.pending_cross_class = add_cv_counter(
        counters.enabled,
        counters.mark.pending_cross_class,
        1,
    );
}

pub open spec fn with_admission_mark_cross_class_token_kept(counters: HookCounters) -> HookCounters {
    HookCounters {
        mark: AdmissionMarkCounters {
            pending_cross_class_token_kept: counted(counters.enabled, counters.mark.pending_cross_class_token_kept, 1),
            ..counters.mark
        },
        ..counters
    }
}

pub fn record_admission_mark_cross_class_token_kept(counters: &mut HookCounters)
    ensures
        *final(counters) == with_admission_mark_cross_class_token_kept(*old(counters)),
{
    counters.mark.pending_cross_class_token_kept = add_cv_counter(
        counters.enabled,
        counters.mark.pending_cross_class_token_kept,
        1,
    );
}

pub open spec fn with_cv_hint_published(counters: HookCounters) -> HookCounters {
    HookCounters {
        admission: CvAdmissionCounters {
            hints_published: counted(counters.enabled, counters.admission.hints_published, 1),
            ..counters.admission
        },
        ..counters
    }
}

pub fn record_cv_hint_published(counters: &mut HookCounters)
    ensures
        *final(counters) == with_cv_hint_published(*old(counters)),
{
    counters.admission.hints_published = add_cv_counter(
        counters.enabled,
        counters.admission.hints_published,
        1,
    );
}

pub open spec fn with_cv_specialized_relock(counters: HookCounters) -> HookCounters {
    HookCounters {
        admission: CvAdmissionCounters {
            specialized_relocks: counted(counters.enabled, counters.admission.specialized_relocks, 1),
            ..counters.admission
        },
        ..counters
    }
}

pub fn record_cv_specialized_relock(counters: &mut HookCounters)
    ensures
        *final(counters) == with_cv_specialized_relock(*old(counters)),
{
    counters.admission.specialized_relocks = add_cv_counter(
        counters.enabled,
        counters.admission.specialized_relocks,
        1,
    );
}

pub open spec fn with_cv_fallback_relock(counters: HookCounters) -> HookCounters {
    HookCounters {
        admission: CvAdmissionCounters {
            fallback_relocks: counted(counters.enabled, counters.admission.fallback_relocks, 1),
            ..counters.admission
        },
        ..counters
    }
}

pub fn record_cv_fallback_relock(counters: &mut HookCounters)
    ensures
        *final(counters) == with_cv_fallback_relock(*old(counters)),
{
    counters.admission.fallback_relocks = add_cv_counter(
        counters.enabled,
        counters.admission.fallback_relocks,
        1,
    );
}

pub open spec fn with_cv_route_relock(counters: HookCounters) -> HookCounters {
    HookCounters {
        admission: CvAdmissionCounters {
            route_relocks: counted(counters.enabled, counters.admission.route_relocks, 1),
            ..counters.admission
        },
        ..counters
    }
}

pub fn record_cv_route_relock(counters: &mut HookCounters)
    ensures
        *final(counters) == with_cv_route_relock(*old(counters)),
{
    counters.admission.route_relocks = add_cv_counter(
        counters.enabled,
        counters.admission.route_relocks,
        1,
    );
}

pub open spec fn with_cv_requeue_fallback(counters: HookCounters) -> HookCounters {
    HookCounters {
        requeue: CvRequeueCounters {
            fallbacks: counted(counters.enabled, counters.requeue.fallbacks, 1),
            ..counters.requeue
        },
        ..counters
    }
}

pub fn record_cv_requeue_fallback(counters: &mut HookCounters)
    ensures
        *final(counters) == with_cv_requeue_fallback(*old(counters)),
{
    counters.requeue.fallbacks = add_cv_counter(counters.enabled, counters.requeue.fallbacks, 1);
}

pub open spec fn with_cv_drain_wake(counters: HookCounters) -> HookCounters {
    HookCounters {
        requeue: CvRequeueCounters {
            drain_wakes: counted(counters.enabled, counters.requeue.drain_wakes, 1),
            ..counters.requeue
        },
        ..counters
    }
}

pub fn record_cv_drain_wake(counters: &mut HookCounters)
    ensures
        *final(counters) == with_cv_drain_wake(*old(counters)),
{
    counters.requeue.drain_wakes = add_cv_counter(
        counters.enabled,
        counters.requeue.drain_wakes,
        1,
    );
}

pub open spec fn with_cv_stranding_wake(counters: HookCounters) -> HookCounters {
    HookCounters {
        requeue: CvRequeueCounters {
            stranding_wakes: counted(counters.enabled, counters.requeue.stranding_wakes, 1),
            ..counters.requeue
        },
        ..counters
    }
}

pub fn record_cv_stranding_wake(counters: &mut HookCounters)
    ensures
        *final(counters) == with_cv_stranding_wake(*old(counters)),
{
    counters.requeue.stranding_wakes = add_cv_counter(
        counters.enabled,
        counters.requeue.stranding_wakes,
        1,
    );
}

pub open spec fn with_cv_binding_conflict(counters: HookCounters) -> HookCounters {
    HookCounters {
        requeue: CvRequeueCounters {
            binding_conflicts: counted(counters.enabled, counters.requeue.binding_conflicts, 1),
            ..counters.requeue
        },
        ..counters
    }
}

pub fn record_cv_binding_conflict(counters: &mut HookCounters)
    ensures
        *final(counters) == with_cv_binding_conflict(*old(counters)),
{
    counters.requeue.binding_conflicts = add_cv_counter(
        counters.enabled,
        counters.requeue.binding_conflicts,
        1,
    );
}

pub open spec fn with_writer_event_arm(counters: HookCounters) -> HookCounters {
    HookCounters {
        writer_event: WriterEventCounters {
            arms: counted(counters.enabled, counters.writer_event.arms, 1),
            ..counters.writer_event
        },
        ..counters
    }
}

pub fn record_writer_event_arm(counters: &mut HookCounters)
    ensures
        *final(counters) == with_writer_event_arm(*old(counters)),
{
    counters.writer_event.arms = add_cv_counter(counters.enabled, counters.writer_event.arms, 1);
}

pub open spec fn with_writer_event_spurious_wake(counters: HookCounters) -> HookCounters {
    HookCounters {
        writer_event: WriterEventCounters {
            spurious_wakes: counted(counters.enabled, counters.writer_event.spurious_wakes, 1),
            ..counters.writer_event
        },
        ..counters
    }
}

pub fn record_writer_event_spurious_wake(counters: &mut HookCounters)
    ensures
        *final(counters) == with_writer_event_spurious_wake(*old(counters)),
{
    counters.writer_event.spurious_wakes = add_cv_counter(
        counters.enabled,
        counters.writer_event.spurious_wakes,
        1,
    );
}

pub open spec fn with_writer_event_leader_post(counters: HookCounters) -> HookCounters {
    HookCounters {
        writer_event: WriterEventCounters {
            leader_posts: counted(counters.enabled, counters.writer_event.leader_posts, 1),
            ..counters.writer_event
        },
        ..counters
    }
}

pub fn record_writer_event_leader_post(counters: &mut HookCounters)
    ensures
        *final(counters) == with_writer_event_leader_post(*old(counters)),
{
    counters.writer_event.leader_posts = add_cv_counter(
        counters.enabled,
        counters.writer_event.leader_posts,
        1,
    );
}

pub open spec fn with_writer_event_route_takeback(counters: HookCounters) -> HookCounters {
    HookCounters {
        writer_event: WriterEventCounters {
            route_takebacks: counted(counters.enabled, counters.writer_event.route_takebacks, 1),
            ..counters.writer_event
        },
        ..counters
    }
}

pub fn record_writer_event_route_takeback(counters: &mut HookCounters)
    ensures
        *final(counters) == with_writer_event_route_takeback(*old(counters)),
{
    counters.writer_event.route_takebacks = add_cv_counter(
        counters.enabled,
        counters.writer_event.route_takebacks,
        1,
    );
}

pub open spec fn with_writer_event_route_takeback_unpublished(counters: HookCounters) -> HookCounters {
    HookCounters {
        writer_event: WriterEventCounters {
            route_takeback_unpublished: counted(counters.enabled, counters.writer_event.route_takeback_unpublished, 1),
            ..counters.writer_event
        },
        ..counters
    }
}

pub fn record_writer_event_route_takeback_unpublished(counters: &mut HookCounters)
    ensures
        *final(counters) == with_writer_event_route_takeback_unpublished(*old(counters)),
{
    counters.writer_event.route_takeback_unpublished = add_cv_counter(
        counters.enabled,
        counters.writer_event.route_takeback_unpublished,
        1,
    );
}

pub open spec fn with_writer_event_route_takeback_lost(counters: HookCounters) -> HookCounters {
    HookCounters {
        writer_event: WriterEventCounters {
            route_takeback_lost: counted(counters.enabled, counters.writer_event.route_takeback_lost, 1),
            ..counters.writer_event
        },
        ..counters
    }
}

pub fn record_writer_event_route_takeback_lost(counters: &mut HookCounters)
    ensures
        *final(counters) == with_writer_event_route_takeback_lost(*old(counters)),
{
    counters.writer_event.route_takeback_lost = add_cv_counter(
        counters.enabled,
        counters.writer_event.route_takeback_lost,
        1,
    );
}

pub open spec fn with_writer_event_completed_misroute(counters: HookCounters) -> HookCounters {
    HookCounters {
        writer_event: WriterEventCounters {
            completed_misroutes: counted(counters.enabled, counters.writer_event.completed_misroutes, 1),
            ..counters.writer_event
        },
        ..counters
    }
}

pub fn record_writer_event_completed_misroute(counters: &mut HookCounters)
    ensures
        *final(counters) == with_writer_event_completed_misroute(*old(counters)),
{
    counters.writer_event.completed_misroutes = add_cv_counter(
        counters.enabled,
        counters.writer_event.completed_misroutes,
        1,
    );
}

pub open spec fn with_writer_event_relock_admitted(counters: HookCounters) -> HookCounters {
    HookCounters {
        writer_event: WriterEventCounters {
            relocks_admitted: counted(counters.enabled, counters.writer_event.relocks_admitted, 1),
            ..counters.writer_event
        },
        ..counters
    }
}

pub fn record_writer_event_relock_admitted(counters: &mut HookCounters)
    ensures
        *final(counters) == with_writer_event_relock_admitted(*old(counters)),
{
    counters.writer_event.relocks_admitted = add_cv_counter(
        counters.enabled,
        counters.writer_event.relocks_admitted,
        1,
    );
}

pub open spec fn with_writer_event_relock_normal(counters: HookCounters) -> HookCounters {
    HookCounters {
        writer_event: WriterEventCounters {
            relocks_normal: counted(counters.enabled, counters.writer_event.relocks_normal, 1),
            ..counters.writer_event
        },
        ..counters
    }
}

pub fn record_writer_event_relock_normal(counters: &mut HookCounters)
    ensures
        *final(counters) == with_writer_event_relock_normal(*old(counters)),
{
    counters.writer_event.relocks_normal = add_cv_counter(
        counters.enabled,
        counters.writer_event.relocks_normal,
        1,
    );
}

pub open spec fn with_cv_requeued(counters: HookCounters, moved: u64) -> HookCounters {
    HookCounters {
        requeue: CvRequeueCounters {
            requeued: counted(counters.enabled, counters.requeue.requeued, moved),
            ..counters.requeue
        },
        ..counters
    }
}

pub fn record_cv_requeued(counters: &mut HookCounters, moved: u64)
    ensures
        *final(counters) == with_cv_requeued(*old(counters), moved),
{
    counters.requeue.requeued = add_cv_counter(counters.enabled, counters.requeue.requeued, moved);
}

/// Completed posts have no counter of their own: each leaves one of the three
/// takeback outcomes behind.
pub fn record_writer_event_completed_post(counters: &mut HookCounters)
    ensures
        *final(counters) == *old(counters),
{
}

pub open spec fn with_cv_staged_high_water(counters: HookCounters, staged: u64) -> HookCounters {
    HookCounters {
        requeue: CvRequeueCounters {
            staged_high_water: if counters.enabled && staged
                > counters.requeue.staged_high_water {
                staged
            } else {
                counters.requeue.staged_high_water
            },
            ..counters.requeue
        },
        ..counters
    }
}

/// Keeps the largest stage ever seen.
pub fn record_cv_staged_high_water(counters: &mut HookCounters, staged: u64)
    ensures
        *final(counters) == with_cv_staged_high_water(*old(counters), staged),
{
    if counters.enabled && staged > counters.requeue.staged_high_water {
        counters.requeue.staged_high_water = staged;
    }
}

// The lock algorithms behind the hooks.
/// A lock algorithm as the hooks use it.
pub trait MutexHookBackend {
    type LockState;

    /// Whether its locks go through admission.
    fn uses_admission_scope() -> bool;

    fn create_state() -> Self::LockState;

    fn lock(state: &Self::LockState);

    fn try_lock(state: &Self::LockState) -> bool;

    fn unlock(state: &Self::LockState);
}

/// Fits a plain lock algorithm to the hooks. Its locks go through admission.
pub struct LockBackendAdapter<L> {
    pub backend: PhantomData<L>,
}

impl<L: LockBackend + Default> MutexHookBackend for LockBackendAdapter<L> {
    type LockState = L;

    fn uses_admission_scope() -> (r: bool)
        ensures
            r,
    {
        true
    }

    fn create_state() -> (r: L)
        ensures
            call_ensures(L::default, (), r),
    {
        L::default()
    }

    fn lock(state: &L)
        ensures
            call_ensures(L::lock, (state,), ()),
    {
        state.lock();
    }

    fn try_lock(state: &L) -> (r: bool)
        ensures
            call_ensures(L::try_lock, (state,), r),
    {
        state.try_lock()
    }

    fn unlock(state: &L)
        ensures
            call_ensures(L::unlock, (state,), ()),
    {
        state.unlock();
    }
}

// The acquire and release brackets.
/// Whether an acquisition still has to ask admission for a slot.
#[derive(Clone, Copy, Debug, PartialEq, Eq, Structural)]
pub enum AcquireMode {
    Normal,
    AlreadyAdmitted,
}

impl AcquireMode {
    /// The mode in which a writer-event re-acquisition enters. The wait decided
    /// it, so no hint is looked for and no counter moves.
    pub fn for_event_relock(relock: CondRelock) -> (r: Self)
        ensures
            r == if relock == CondRelock::AlreadyAdmitted {
                AcquireMode::AlreadyAdmitted
            } else {
                AcquireMode::Normal
            },
    {
        match relock {
            CondRelock::AlreadyAdmitted => AcquireMode::AlreadyAdmitted,
            _ => AcquireMode::Normal,
        }
    }
}

/// Whether a cond re-acquisition looks for a hint in the admission word.
pub fn relock_looks_for_hint(relock: CondRelock) -> (r: bool)
    ensures
        r == (relock == CondRelock::TakeHint),
{
    relock == CondRelock::TakeHint
}

/// The mode in which a cond re-acquisition enters. A routed wakeup carries the
/// admission decision, and so does a hint that was found, `hint`. Otherwise the
/// re-acquisition is an ordinary contender.
pub fn acquire_mode_for_cond_relock(
    relock: CondRelock,
    hint: bool,
    counters: &mut HookCounters,
) -> (r: AcquireMode)
    ensures
        relock == CondRelock::AlreadyAdmitted ==> r == AcquireMode::AlreadyAdmitted
            && *final(counters) == *old(counters),
        relock == CondRelock::TakeHint && hint ==> r == AcquireMode::AlreadyAdmitted
            && *final(counters) == with_cv_specialized_relock(*old(counters)),
        relock == CondRelock::Normal || (relock == CondRelock::TakeHint && !hint) ==> r
            == AcquireMode::Normal && *final(counters) == with_cv_fallback_relock(*old(counters)),
{
    match relock {
        CondRelock::AlreadyAdmitted => AcquireMode::AlreadyAdmitted,
        CondRelock::TakeHint => if hint {
            record_cv_specialized_relock(counters);
            AcquireMode::AlreadyAdmitted
        } else {
            record_cv_fallback_relock(counters);
            AcquireMode::Normal
        },
        CondRelock::Normal => {
            record_cv_fallback_relock(counters);
            AcquireMode::Normal
        },
    }
}

/// What the caller of an acquire bracket is to do next.
#[derive(Clone, Copy, Debug, PartialEq, Eq, Structural)]
pub enum AcquireAction {
    /// Try the lock; the answer is whether that took it.
    TryLock,
    /// Note the time.
    BeginWait,
    /// Show that the thread is about to wait; the answer is whether it has to
    /// wait for a slot.
    MarkPending,
    AwaitAdmission,
    /// Take the lock, however long that takes.
    Lock,
    /// Account the time since the wait began.
    EndWait,
    RecordAcquired,
    PublishHold,
    Done,
}

pub open spec fn first_acquire_action(mode: AcquireMode, token_consumed: bool) -> AcquireAction {
    if mode == AcquireMode::Normal && !token_consumed {
        AcquireAction::TryLock
    } else {
        AcquireAction::BeginWait
    }
}

pub open spec fn next_acquire_action(
    mode: AcquireMode,
    done: AcquireAction,
    answer: bool,
) -> AcquireAction {
    match done {
        AcquireAction::TryLock => if answer {
            AcquireAction::RecordAcquired
        } else {
            AcquireAction::BeginWait
        },
        AcquireAction::BeginWait => if mode == AcquireMode::Normal {
            AcquireAction::MarkPending
        } else {
            AcquireAction::Lock
        },
        AcquireAction::MarkPending => if answer {
            AcquireAction::AwaitAdmission
        } else {
            AcquireAction::Lock
        },
        AcquireAction::AwaitAdmission => AcquireAction::Lock,
        AcquireAction::Lock => AcquireAction::EndWait,
        AcquireAction::EndWait => AcquireAction::RecordAcquired,
        AcquireAction::RecordAcquired => AcquireAction::PublishHold,
        AcquireAction::PublishHold => AcquireAction::Done,
        AcquireAction::Done => AcquireAction::Done,
    }
}

/// Where an acquisition begins. Only a normal one asks admission for a slot; a
/// caller that has the decision skips the uncontended attempt as well.
pub fn lock_scope_with_stats(mode: AcquireMode, token_consumed: bool) -> (r: AcquireAction)
    ensures
        r == first_acquire_action(mode, token_consumed),
{
    if mode == AcquireMode::Normal && !token_consumed {
        AcquireAction::TryLock
    } else {
        AcquireAction::BeginWait
    }
}

/// What follows `done`. The answer is looked at where `done` has one.
pub fn lock_scope_next(mode: AcquireMode, done: AcquireAction, answer: bool) -> (r: AcquireAction)
    ensures
        r == next_acquire_action(mode, done, answer),
{
    match done {
        AcquireAction::TryLock => if answer {
            AcquireAction::RecordAcquired
        } else {
            AcquireAction::BeginWait
        },
        AcquireAction::BeginWait => if mode == AcquireMode::Normal {
            AcquireAction::MarkPending
        } else {
            AcquireAction::Lock
        },
        AcquireAction::MarkPending => if answer {
            AcquireAction::AwaitAdmission
        } else {
            AcquireAction::Lock
        },
        AcquireAction::AwaitAdmission => AcquireAction::Lock,
        AcquireAction::Lock => AcquireAction::EndWait,
        AcquireAction::EndWait => AcquireAction::RecordAcquired,
        AcquireAction::RecordAcquired => AcquireAction::PublishHold,
        AcquireAction::PublishHold => AcquireAction::Done,
        AcquireAction::Done => AcquireAction::Done,
    }
}

pub open spec fn acquire_rank(action: AcquireAction) -> nat {
    match action {
        AcquireAction::TryLock => 8,
        AcquireAction::BeginWait => 7,
        AcquireAction::MarkPending => 6,
        AcquireAction::AwaitAdmission => 5,
        AcquireAction::Lock => 4,
        AcquireAction::EndWait => 3,
        AcquireAction::RecordAcquired => 2,
        AcquireAction::PublishHold => 1,
        AcquireAction::Done => 0,
    }
}

/// All actions from `action` on, over the answers to trying and to marking.
pub open spec fn acquire_actions(
    mode: AcquireMode,
    action: AcquireAction,
    tried: bool,
    marked: bool,
) -> Seq<AcquireAction>
    decreases acquire_rank(action),
{
    if action == AcquireAction::Done {
        seq![action]
    } else {
        let answer = if action == AcquireAction::TryLock {
            tried
        } else {
            marked
        };
        seq![action] + acquire_actions(
            mode,
            next_acquire_action(mode, action, answer),
            tried,
            marked,
        )
    }
}

/// How often the actions take the lock.
pub open spec fn times_taken(actions: Seq<AcquireAction>, tried: bool) -> int
    decreases actions.len(),
{
    if actions.len() == 0 {
        0
    } else {
        (if actions[0] == AcquireAction::Lock || (actions[0] == AcquireAction::TryLock && tried) {
            1int
        } else {
            0
        }) + times_taken(actions.subrange(1, actions.len() as int), tried)
    }
}

proof fn lemma_taken_step(
    mode: AcquireMode,
    action: AcquireAction,
    tried: bool,
    marked: bool,
)
    requires
        action != AcquireAction::Done,
    ensures
        ({
            let answer = if action == AcquireAction::TryLock {
                tried
            } else {
                marked
            };
            let rest = acquire_actions(
                mode,
                next_acquire_action(mode, action, answer),
                tried,
                marked,
            );
            &&& acquire_actions(mode, action, tried, marked) == seq![action] + rest
            &&& times_taken(acquire_actions(mode, action, tried, marked), tried) == times_taken(
                rest,
                tried,
            ) + if action == AcquireAction::Lock || (action == AcquireAction::TryLock && tried) {
                1int
            } else {
                0
            }
        }),
{
    let answer = if action == AcquireAction::TryLock {
        tried
    } else {
        marked
    };
    let rest = acquire_actions(mode, next_acquire_action(mode, action, answer), tried, marked);
    let all = seq![action] + rest;
    assert(all.subrange(1, all.len() as int) =~= rest);
    assert(all[0] == action);
}

/// Whatever the answers, an acquisition takes its lock exactly once.
pub proof fn law_an_acquisition_takes_the_lock_once(
    mode: AcquireMode,
    token_consumed: bool,
    tried: bool,
    marked: bool,
)
    ensures
        times_taken(
            acquire_actions(mode, first_acquire_action(mode, token_consumed), tried, marked),
            tried,
        ) == 1,
{
    lemma_taken_step(mode, AcquireAction::TryLock, tried, marked);
    lemma_taken_step(mode, AcquireAction::BeginWait, tried, marked);
    lemma_taken_step(mode, AcquireAction::MarkPending, tried, marked);
    lemma_taken_step(mode, AcquireAction::AwaitAdmission, tried, marked);
    lemma_taken_step(mode, AcquireAction::Lock, tried, marked);
    lemma_taken_step(mode, AcquireAction::EndWait, tried, marked);
    lemma_taken_step(mode, AcquireAction::RecordAcquired, tried, marked);
    lemma_taken_step(mode, AcquireAction::PublishHold, tried, marked);
    let end = acquire_actions(mode, AcquireAction::Done, tried, marked);
    assert(end.subrange(1, 1) =~= Seq::<AcquireAction>::empty());
    assert(times_taken(end.subrange(1, 1), tried) == 0);
    assert(times_taken(end, tried) == 0);
}

/// An acquisition that was admitted already neither tries the lock first nor asks
/// admission again.
pub proof fn law_an_admitted_acquisition_asks_nothing(
    token_consumed: bool,
    tried: bool,
    marked: bool,
)
    ensures
        acquire_actions(
            AcquireMode::AlreadyAdmitted,
            first_acquire_action(AcquireMode::AlreadyAdmitted, token_consumed),
            tried,
            marked,
        ) == seq![
            AcquireAction::BeginWait,
            AcquireAction::Lock,
            AcquireAction::EndWait,
            AcquireAction::RecordAcquired,
            AcquireAction::PublishHold,
            AcquireAction::Done,
        ],
{
    let mode = AcquireMode::AlreadyAdmitted;
    lemma_taken_step(mode, AcquireAction::BeginWait, tried, marked);
    lemma_taken_step(mode, AcquireAction::Lock, tried, marked);
    lemma_taken_step(mode, AcquireAction::EndWait, tried, marked);
    lemma_taken_step(mode, AcquireAction::RecordAcquired, tried, marked);
    lemma_taken_step(mode, AcquireAction::PublishHold, tried, marked);
    assert(acquire_actions(mode, AcquireAction::BeginWait, tried, marked) =~= seq![
        AcquireAction::BeginWait,
        AcquireAction::Lock,
        AcquireAction::EndWait,
        AcquireAction::RecordAcquired,
        AcquireAction::PublishHold,
        AcquireAction::Done,
    ]);
}

/// What the caller of a release bracket is to do next.
#[derive(Clone, Copy, Debug, PartialEq, Eq, Structural)]
pub enum ReleaseAction {
    /// Note the time.
    HoldEnd,
    /// Read the staging handle, while the lock still exists.
    ReadStaging,
    ClearHold,
    Unlock,
    FinishScope,
    RecordPostUnlock,
    /// Release a staged waiter, now that the lock is free.
    Drain,
    Done,
}

/// What follows `done` where a lock is released. `scoped`: its locks go through
/// admission.
pub fn unlock_with_stats(scoped: bool, done: ReleaseAction) -> (r: ReleaseAction)
    ensures
        r == match done {
            ReleaseAction::HoldEnd => ReleaseAction::ReadStaging,
            ReleaseAction::ReadStaging => if scoped {
                ReleaseAction::ClearHold
            } else {
                ReleaseAction::Unlock
            },
            ReleaseAction::ClearHold => ReleaseAction::Unlock,
            ReleaseAction::Unlock => if scoped {
                ReleaseAction::FinishScope
            } else {
                ReleaseAction::RecordPostUnlock
            },
            ReleaseAction::FinishScope => ReleaseAction::RecordPostUnlock,
            ReleaseAction::RecordPostUnlock => ReleaseAction::Drain,
            ReleaseAction::Drain => ReleaseAction::Done,
            ReleaseAction::Done => ReleaseAction::Done,
        },
{
    match done {
        ReleaseAction::HoldEnd => ReleaseAction::ReadStaging,
        ReleaseAction::ReadStaging => if scoped {
            ReleaseAction::ClearHold
        } else {
            ReleaseAction::Unlock
        },
        ReleaseAction::ClearHold => ReleaseAction::Unlock,
        ReleaseAction::Unlock => if scoped {
            ReleaseAction::FinishScope
        } else {
            ReleaseAction::RecordPostUnlock
        },
        ReleaseAction::FinishScope => ReleaseAction::RecordPostUnlock,
        ReleaseAction::RecordPostUnlock => ReleaseAction::Drain,
        ReleaseAction::Drain => ReleaseAction::Done,
        ReleaseAction::Done => ReleaseAction::Done,
    }
}

// Registries.
pub fn hook_scope_value_is_registered(value: Option<&str>) -> (r: bool)
    ensures
        r == match value {
            Some(value) => text::eq_ignore_case(value@, "registered"@),
            None => false,
        },
{
    match value {
        Some(value) => {
            let chars: Vec<char> = text::chars_of(value);
            let len: usize = chars.len();
            assert(chars@.subrange(0, len as int) =~= value@);
            text::spells(&chars, 0, len, "registered")
        },
        None => false,
    }
}

pub fn registered_hook_scope_enabled(value: Option<&str>) -> (r: bool)
    ensures
        r == match value {
            Some(value) => text::eq_ignore_case(value@, "registered"@),
            None => false,
        },
{
    hook_scope_value_is_registered(value)
}

/// The addresses that are hooked one by one. 0 is never among them.
pub struct AddressRegistry {
    pub entries: HashSet<usize>,
}

impl AddressRegistry {
    pub fn new() -> (r: Self)
        ensures
            r.entries@ == Set::<usize>::empty(),
    {
        AddressRegistry { entries: HashSet::new() }
    }

    pub open spec fn registered(self, addr: usize) -> bool {
        addr != 0 && self.entries@.contains(addr)
    }

    /// Adds an address, and reports whether it is new.
    pub fn register_addr(&mut self, addr: usize) -> (r: bool)
        ensures
            r == (addr != 0 && !old(self).registered(addr)),
            final(self).entries@ == if addr == 0 {
                old(self).entries@
            } else {
                old(self).entries@.insert(addr)
            },
    {
        broadcast use vstd::std_specs::hash::group_hash_axioms;

        if addr == 0 {
            return false;
        }
        self.entries.insert(addr)
    }

    /// Removes an address, and reports whether it was there.
    pub fn unregister_addr(&mut self, addr: usize) -> (r: bool)
        ensures
            r == old(self).registered(addr),
            final(self).entries@ == if addr == 0 {
                old(self).entries@
            } else {
                old(self).entries@.remove(addr)
            },
    {
        broadcast use vstd::std_specs::hash::group_hash_axioms;

        if addr == 0 {
            return false;
        }
        self.entries.remove(&addr)
    }

    pub fn contains_addr(&self, addr: usize) -> (r: bool)
        ensures
            r == self.registered(addr),
    {
        broadcast use vstd::std_specs::hash::group_hash_axioms;

        addr != 0 && self.entries.contains(&addr)
    }
}

pub fn register_hooked_mutex_addr(mutexes: &mut AddressRegistry, mutex: usize) -> (r: bool)
    ensures
        r == (mutex != 0 && !old(mutexes).registered(mutex)),
        forall|addr: usize|
            #[trigger] final(mutexes).registered(addr) == (old(mutexes).registered(addr) || (addr
                == mutex && addr != 0)),
{
    mutexes.register_addr(mutex)
}

pub fn unregister_hooked_mutex_addr(mutexes: &mut AddressRegistry, mutex: usize) -> (r: bool)
    ensures
        r == old(mutexes).registered(mutex),
        forall|addr: usize|
            #[trigger] final(mutexes).registered(addr) == (old(mutexes).registered(addr) && addr
                != mutex),
{
    mutexes.unregister_addr(mutex)
}

pub fn hooked_mutex_registered(mutexes: &AddressRegistry, mutex: usize) -> (r: bool)
    ensures
        r == mutexes.registered(mutex),
{
    mutexes.contains_addr(mutex)
}

pub fn register_hooked_cond_addr(conds: &mut AddressRegistry, cond: usize) -> (r: bool)
    ensures
        r == (cond != 0 && !old(conds).registered(cond)),
        forall|addr: usize|
            #[trigger] final(conds).registered(addr) == (old(conds).registered(addr) || (addr
                == cond && addr != 0)),
{
    conds.register_addr(cond)
}

pub fn unregister_hooked_cond_addr(conds: &mut AddressRegistry, cond: usize) -> (r: bool)
    ensures
        r == old(conds).registered(cond),
        forall|addr: usize|
            #[trigger] final(conds).registered(addr) == (old(conds).registered(addr) && addr
                != cond),
{
    conds.unregister_addr(cond)
}

pub fn hooked_cond_registered(conds: &AddressRegistry, cond: usize) -> (r: bool)
    ensures
        r == conds.registered(cond),
{
    conds.contains_addr(cond)
}

/// A change to the scheduler's map of threads.
#[derive(Clone, Copy, Debug, PartialEq, Eq, Structural)]
pub enum MapCall {
    Update { key: u32, value: u64 },
    Delete { key: u32 },
}

/// The change that makes a thread known: its admission word under its id.
pub fn register_thread_ctx_with_map(tid: u32, admission_word_ptr: u64) -> (r: MapCall)
    ensures
        r == (MapCall::Update { key: tid, value: admission_word_ptr }),
{
    MapCall::Update { key: tid, value: admission_word_ptr }
}

pub fn unregister_thread_ctx_with_map(tid: u32) -> (r: MapCall)
    ensures
        r == (MapCall::Delete { key: tid }),
{
    MapCall::Delete { key: tid }
}

/// How many threads the scheduler knows, and what it was told of that.
#[derive(Clone, Copy, Debug, PartialEq, Eq, Structural)]
pub struct ThreadRegistry {
    pub count: usize,
    /// The scheduler's own copy, where it has one.
    pub published: Option<u32>,
}

pub open spec fn published_count(present: bool, count: usize) -> Option<u32> {
    if !present {
        None
    } else if count > u32::MAX {
        Some(u32::MAX)
    } else {
        Some(count as u32)
    }
}

impl ThreadRegistry {
    /// What the scheduler was told is the number of threads.
    pub open spec fn in_sync(self) -> bool {
        self.published == published_count(self.published is Some, self.count)
    }

    pub fn new() -> (r: Self)
        ensures
            r.count == 0,
            r.published is None,
            r.in_sync(),
    {
        ThreadRegistry { count: 0, published: None }
    }

    fn sync_registered_thread_count_to_bpf(&mut self)
        ensures
            final(self).count == old(self).count,
            final(self).published == published_count(old(self).published is Some, old(self).count),
    {
        if self.published.is_some() {
            let count: u32 = if self.count > u32::MAX as usize {
                u32::MAX
            } else {
                self.count as u32
            };
            self.published = Some(count);
        }
    }
}

/// Gives the scheduler a copy of the number of threads, or takes it away.
pub fn set_registered_thread_count_ptr(registry: &mut ThreadRegistry, present: bool)
    ensures
        final(registry).count == old(registry).count,
        final(registry).published == published_count(present, old(registry).count),
        final(registry).in_sync(),
{
    registry.published =
    if present {
        Some(0)
    } else {
        None
    };
    registry.sync_registered_thread_count_to_bpf();
}

/// Accounts a thread that the scheduler was told of. `map_present`: there is a map
/// to enter it into; `entered`: that worked. The thread may be held waiting for a
/// grant only if the scheduler can read it.
pub fn register_current_thread(
    registry: &mut ThreadRegistry,
    scheduler_registered: &mut bool,
    map_present: bool,
    entered: bool,
) -> (r: bool)
    requires
        map_present && entered ==> old(registry).count < usize::MAX,
    ensures
        r == (map_present && entered),
        *final(scheduler_registered) == if map_present {
            entered
        } else {
            *old(scheduler_registered)
        },
        final(registry).count == old(registry).count + if r {
            1int
        } else {
            0
        },
        r ==> final(registry).published == published_count(
            old(registry).published is Some,
            final(registry).count,
        ),
        !r ==> *final(registry) == *old(registry),
{
    if !map_present {
        return false;
    }
    *scheduler_registered = entered;
    if entered {
        registry.count = registry.count + 1;
        registry.sync_registered_thread_count_to_bpf();
    }
    entered
}

/// Accounts a thread that ends. `removed`: its entry was taken out of the map.
pub fn unregister_current_thread(
    registry: &mut ThreadRegistry,
    scheduler_registered: &mut bool,
    map_present: bool,
    removed: bool,
)
    requires
        map_present && removed ==> old(registry).count > 0,
    ensures
        !*final(scheduler_registered),
        map_present && removed ==> {
            &&& final(registry).count == old(registry).count - 1
            &&& final(registry).published == published_count(
                old(registry).published is Some,
                final(registry).count,
            )
        },
        !(map_present && removed) ==> *final(registry) == *old(registry),
{
    *scheduler_registered = false;
    if map_present && removed {
        registry.count = registry.count - 1;
        registry.sync_registered_thread_count_to_bpf();
    }
}

pub fn registered_thread_count(registry: &ThreadRegistry) -> (r: usize)
    ensures
        r == registry.count,
{
    registry.count
}

// The decisions of the hooked calls.
/// What a hooked call does.
#[derive(Clone, Copy, Debug, PartialEq, Eq, Structural)]
pub enum HookDecision {
    /// Hands the call to the function that is hooked.
    Real,
    /// Fails.
    Fail { errno: i32 },
    /// Does its own work.
    Proceed,
}

/// Whether calls on a mutex are hooked: all of them, or those of the mutexes that
/// were registered.
pub fn should_hook_mutex(scope: bool, mutexes: &AddressRegistry, mutex: usize) -> (r: bool)
    ensures
        r == (!scope || mutexes.registered(mutex)),
{
    !scope || mutexes.contains_addr(mutex)
}

/// Creating a mutex only empties it: `word` is what it holds.
pub fn pthread_mutex_init(scope: bool, mutex: usize, word: &mut usize) -> (r: HookDecision)
    ensures
        r == if scope {
            HookDecision::Real
        } else if mutex == 0 {
            HookDecision::Fail { errno: EINVAL }
        } else {
            HookDecision::Proceed
        },
        *final(word) == if r == HookDecision::Proceed {
            NO_STATE
        } else {
            *old(word)
        },
{
    if scope {
        return HookDecision::Real;
    }
    if mutex == 0 {
        return HookDecision::Fail { errno: EINVAL };
    }
    *word = NO_STATE;
    HookDecision::Proceed
}

/// How a mutex becomes a registered one.
#[derive(Clone, Copy, Debug, PartialEq, Eq, Structural)]
pub enum RegisterDecision {
    Fail { errno: i32 },
    /// The mutex that is there has to be destroyed first.
    Destroy,
    Registered,
}

/// Registers a mutex that holds `word`. A mutex without a state is emptied; where
/// only registered ones are hooked, what was there is destroyed before. `destroyed`:
/// what that returned, once it was asked for.
pub fn register_hooked_mutex(
    scope: bool,
    mutexes: &mut AddressRegistry,
    mutex: usize,
    word: &mut usize,
    destroyed: Option<i32>,
) -> (r: RegisterDecision)
    ensures
        r == if mutex == 0 {
            RegisterDecision::Fail { errno: EINVAL }
        } else if *old(word) != NO_STATE || !scope {
            RegisterDecision::Registered
        } else {
            match destroyed {
                None => RegisterDecision::Destroy,
                Some(errno) => if errno != 0 {
                    RegisterDecision::Fail { errno }
                } else {
                    RegisterDecision::Registered
                },
            }
        },
        *final(word) == *old(word),
        forall|addr: usize|
            #[trigger] final(mutexes).registered(addr) == (old(mutexes).registered(addr) || (addr
                == mutex && scope && r == RegisterDecision::Registered)),
{
    if mutex == 0 {
        return RegisterDecision::Fail { errno: EINVAL };
    }
    if *word != NO_STATE {
        if scope {
            register_hooked_mutex_addr(mutexes, mutex);
        }
        return RegisterDecision::Registered;
    }
    if scope {
        match destroyed {
            None => {
                return RegisterDecision::Destroy;
            },
            Some(errno) => if errno != 0 {
                return RegisterDecision::Fail { errno };
            },
        }
    }
    *word = NO_STATE;
    if scope {
        register_hooked_mutex_addr(mutexes, mutex);
    }
    RegisterDecision::Registered
}

/// Unregisters a mutex that holds `word`. The second part is the state that is to
/// be dropped.
pub fn unregister_hooked_mutex(
    scope: bool,
    mutexes: &mut AddressRegistry,
    mutex: usize,
    word: &mut usize,
) -> (r: (HookDecision, Option<usize>))
    ensures
        r.0 == if mutex == 0 {
            HookDecision::Fail { errno: EINVAL }
        } else {
            HookDecision::Proceed
        },
        r.1 == if mutex != 0 && *old(word) != NO_STATE {
            Some(*old(word))
        } else {
            None
        },
        *final(word) == if mutex == 0 {
            *old(word)
        } else {
            NO_STATE
        },
        forall|addr: usize|
            #[trigger] final(mutexes).registered(addr) == (old(mutexes).registered(addr) && !(scope
                && addr == mutex)),
{
    if mutex == 0 {
        return (HookDecision::Fail { errno: EINVAL }, None);
    }
    if scope {
        unregister_hooked_mutex_addr(mutexes, mutex);
    }
    (HookDecision::Proceed, install::take_state(word, false))
}

/// Destroys a mutex that holds `word`. The second part is the state that is to be
/// dropped.
pub fn pthread_mutex_destroy(
    scope: bool,
    mutexes: &mut AddressRegistry,
    mutex: usize,
    word: &mut usize,
) -> (r: (HookDecision, Option<usize>))
    ensures
        r.0 == if mutex == 0 {
            HookDecision::Fail { errno: EINVAL }
        } else if scope && !old(mutexes).registered(mutex) {
            HookDecision::Real
        } else {
            HookDecision::Proceed
        },
        r.1 == if r.0 == HookDecision::Proceed && *old(word) != NO_STATE {
            Some(*old(word))
        } else {
            None
        },
        *final(word) == if r.0 == HookDecision::Proceed {
            NO_STATE
        } else {
            *old(word)
        },
        forall|addr: usize|
            #[trigger] final(mutexes).registered(addr) == (old(mutexes).registered(addr) && !(scope
                && addr == mutex)),
{
    if mutex == 0 {
        return (HookDecision::Fail { errno: EINVAL }, None);
    }
    if !should_hook_mutex(scope, mutexes, mutex) {
        return (HookDecision::Real, None);
    }
    if scope {
        unregister_hooked_mutex_addr(mutexes, mutex);
    }
    (HookDecision::Proceed, install::take_state(word, false))
}

/// Locking, by whatever call: a mutex that is not hooked is passed on even where
/// there is none. `hooked`: what deciding whether to hook the mutex gave.
pub fn pthread_mutex_lock(mutex: usize, hooked: bool) -> (r: HookDecision)
    ensures
        r == if !hooked {
            HookDecision::Real
        } else if mutex == 0 {
            HookDecision::Fail { errno: EINVAL }
        } else {
            HookDecision::Proceed
        },
{
    if !hooked {
        HookDecision::Real
    } else if mutex == 0 {
        HookDecision::Fail { errno: EINVAL }
    } else {
        HookDecision::Proceed
    }
}

/// What a trylock returns.
pub fn trylock_result(acquired: bool) -> (r: i32)
    ensures
        r == if acquired {
            0
        } else {
            EBUSY
        },
{
    if acquired {
        0
    } else {
        EBUSY
    }
}

pub fn pthread_mutex_unlock(mutex: usize, hooked: bool, word: usize) -> (r: HookDecision)
    ensures
        r == if mutex == 0 {
            HookDecision::Fail { errno: EINVAL }
        } else if !hooked {
            HookDecision::Real
        } else if word == NO_STATE {
            HookDecision::Fail { errno: EINVAL }
        } else {
            HookDecision::Proceed
        },
{
    if mutex == 0 {
        HookDecision::Fail { errno: EINVAL }
    } else if !hooked {
        HookDecision::Real
    } else if word == NO_STATE {
        HookDecision::Fail { errno: EINVAL }
    } else {
        HookDecision::Proceed
    }
}

/// Creating a condition variable gives it a state, `built`.
pub fn pthread_cond_init(scope: bool, cond: usize, word: &mut usize, built: usize) -> (r:
    HookDecision)
    ensures
        r == if scope {
            HookDecision::Real
        } else if cond == 0 {
            HookDecision::Fail { errno: EINVAL }
        } else {
            HookDecision::Proceed
        },
        *final(word) == if r == HookDecision::Proceed {
            built
        } else {
            *old(word)
        },
{
    if scope {
        return HookDecision::Real;
    }
    if cond == 0 {
        return HookDecision::Fail { errno: EINVAL };
    }
    *word = built;
    HookDecision::Proceed
}

/// Destroys a condition variable that holds `word`. The second part is the state
/// that is to be dropped.
pub fn pthread_cond_destroy(
    scope: bool,
    conds: &mut AddressRegistry,
    cond: usize,
    word: &mut usize,
) -> (r: (HookDecision, Option<usize>))
    ensures
        r.0 == if cond == 0 {
            HookDecision::Fail { errno: EINVAL }
        } else if scope && !old(conds).registered(cond) {
            HookDecision::Real
        } else {
            HookDecision::Proceed
        },
        r.1 == if r.0 == HookDecision::Proceed && *old(word) > INSTALLING {
            Some(*old(word))
        } else {
            None
        },
        *final(word) == if r.1 is Some {
            NO_STATE
        } else {
            *old(word)
        },
        forall|addr: usize|
            #[trigger] final(conds).registered(addr) == (old(conds).registered(addr) && !(scope
                && addr == cond)),
{
    if cond == 0 {
        return (HookDecision::Fail { errno: EINVAL }, None);
    }
    if scope && !hooked_cond_registered(conds, cond) {
        return (HookDecision::Real, None);
    }
    if scope {
        unregister_hooked_cond_addr(conds, cond);
    }
    (HookDecision::Proceed, install::take_state(word, true))
}

/// The state of a condition variable is installed. In the registered scope its address
/// is registered with that, so that it is hooked from then on.
pub fn cond_installed(scope: bool, conds: &mut AddressRegistry, cond: usize)
    ensures
        forall|addr: usize|
            #[trigger] final(conds).registered(addr) == (old(conds).registered(addr) || (scope
                && cond != 0 && addr == cond)),
{
    if scope {
        register_hooked_cond_addr(conds, cond);
    }
}

/// One step of finding the state of a condition variable or installing it. Who installs
/// it, from what it `built`, also registers the condition variable.
pub fn ensure_cond_state_step(
    scope: bool,
    conds: &mut AddressRegistry,
    cond: usize,
    word: &mut usize,
    phase: InstallPhase,
    built: usize,
) -> (r: InstallPhase)
    requires
        phase == InstallPhase::Build ==> built > INSTALLING,
    ensures
        (*final(word), r) == install::install_stepped(*old(word), phase, built),
        forall|addr: usize|
            #[trigger] final(conds).registered(addr) == (old(conds).registered(addr) || (scope
                && phase == InstallPhase::Build && cond != 0 && addr == cond)),
{
    let next: InstallPhase = install::install_step(word, phase, built);
    if phase == InstallPhase::Build {
        cond_installed(scope, conds, cond);
    }
    next
}

/// What is done about a signal or a broadcast.
pub open spec fn signal_decision(scope: bool, conds: AddressRegistry, cond: usize) -> HookDecision {
    if scope && !conds.registered(cond) {
        HookDecision::Real
    } else if cond == 0 {
        HookDecision::Fail { errno: EINVAL }
    } else {
        HookDecision::Proceed
    }
}

/// Once a wait installed the state of a condition variable, signals to it are hooked,
/// whatever else is registered: `after` is the registry since.
pub proof fn law_an_installed_cond_is_signalled(
    scope: bool,
    conds: AddressRegistry,
    after: AddressRegistry,
    cond: usize,
)
    requires
        cond != 0,
        forall|addr: usize|
            #[trigger] after.registered(addr) == (conds.registered(addr) || (scope && cond != 0
                && addr == cond)),
    ensures
        signal_decision(scope, after, cond) == HookDecision::Proceed,
        forall|other: usize|
            other != cond ==> #[trigger] signal_decision(scope, after, other) == signal_decision(
                scope,
                conds,
                other,
            ),
{
    assert(scope ==> after.registered(cond));
    assert forall|other: usize| other != cond implies #[trigger] signal_decision(
        scope,
        after,
        other,
    ) == signal_decision(scope, conds, other) by {
        assert(after.registered(other) == conds.registered(other));
    }
}

pub fn pthread_cond_signal(scope: bool, conds: &AddressRegistry, cond: usize) -> (r: HookDecision)
    ensures
        r == signal_decision(scope, *conds, cond),
{
    if scope && !conds.contains_addr(cond) {
        HookDecision::Real
    } else if cond == 0 {
        HookDecision::Fail { errno: EINVAL }
    } else {
        HookDecision::Proceed
    }
}

pub fn pthread_cond_broadcast(scope: bool, conds: &AddressRegistry, cond: usize) -> (r: HookDecision)
    ensures
        r == signal_decision(scope, *conds, cond),
{
    pthread_cond_signal(scope, conds, cond)
}

/// `hooked`: what deciding whether to hook the mutex gave.
pub fn pthread_cond_wait(cond: usize, mutex: usize, hooked: bool) -> (r: HookDecision)
    ensures
        r == if !hooked {
            HookDecision::Real
        } else if mutex == 0 || cond == 0 {
            HookDecision::Fail { errno: EINVAL }
        } else {
            HookDecision::Proceed
        },
{
    if !hooked {
        HookDecision::Real
    } else if mutex == 0 || cond == 0 {
        HookDecision::Fail { errno: EINVAL }
    } else {
        HookDecision::Proceed
    }
}

pub fn pthread_cond_timedwait(cond: usize, mutex: usize, abstime: usize, hooked: bool) -> (r:
    HookDecision)
    ensures
        r == if abstime == 0 {
            HookDecision::Fail { errno: EINVAL }
        } else if !hooked {
            HookDecision::Real
        } else if mutex == 0 || cond == 0 {
            HookDecision::Fail { errno: EINVAL }
        } else {
            HookDecision::Proceed
        },
{
    if abstime == 0 {
        HookDecision::Fail { errno: EINVAL }
    } else {
        pthread_cond_wait(cond, mutex, hooked)
    }
}

/// A writer event re-acquires the lock itself, so a mutex that is not hooked is
/// refused rather than locked under two lock words.
pub fn writer_event_bind(mutex: usize, out_binding: usize, hooked: bool) -> (r: HookDecision)
    ensures
        r == if out_binding == 0 {
            HookDecision::Fail { errno: EINVAL }
        } else if !hooked {
            HookDecision::Fail { errno: ENOTSUP }
        } else if mutex == 0 {
            HookDecision::Fail { errno: EINVAL }
        } else {
            HookDecision::Proceed
        },
{
    if out_binding == 0 {
        HookDecision::Fail { errno: EINVAL }
    } else if !hooked {
        HookDecision::Fail { errno: ENOTSUP }
    } else if mutex == 0 {
        HookDecision::Fail { errno: EINVAL }
    } else {
        HookDecision::Proceed
    }
}

// What is counted, and in which order an acquisition goes.
/// Everything that is counted adds one to the counter of its own name, and to no other.
pub proof fn law_each_event_is_counted_under_its_name(counters: HookCounters)
    requires
        counters.enabled,
        counters.gate.gate_wait_loops < u64::MAX,
        counters.gate.gate_timeouts < u64::MAX,
        counters.gate.gate_bypass_ungrantable < u64::MAX,
        counters.mark.pending_same_class < u64::MAX,
        counters.mark.pending_cross_class < u64::MAX,
        counters.mark.pending_cross_class_token_kept < u64::MAX,
        counters.admission.hints_published < u64::MAX,
        counters.admission.specialized_relocks < u64::MAX,
        counters.admission.fallback_relocks < u64::MAX,
        counters.admission.route_relocks < u64::MAX,
        counters.requeue.fallbacks < u64::MAX,
        counters.requeue.drain_wakes < u64::MAX,
        counters.requeue.stranding_wakes < u64::MAX,
        counters.requeue.binding_conflicts < u64::MAX,
        counters.writer_event.arms < u64::MAX,
        counters.writer_event.spurious_wakes < u64::MAX,
        counters.writer_event.leader_posts < u64::MAX,
        counters.writer_event.route_takebacks < u64::MAX,
        counters.writer_event.route_takeback_unpublished < u64::MAX,
        counters.writer_event.route_takeback_lost < u64::MAX,
        counters.writer_event.completed_misroutes < u64::MAX,
        counters.writer_event.relocks_admitted < u64::MAX,
        counters.writer_event.relocks_normal < u64::MAX,
    ensures
        with_admission_gate_wait_loop(counters) == (HookCounters {
            gate: AdmissionGateCounters {
                gate_wait_loops: (counters.gate.gate_wait_loops + 1) as u64,
                ..counters.gate
            },
            ..counters
        }),
        with_admission_gate_timeout(counters) == (HookCounters {
            gate: AdmissionGateCounters {
                gate_timeouts: (counters.gate.gate_timeouts + 1) as u64,
                ..counters.gate
            },
            ..counters
        }),
        with_admission_gate_bypass(counters) == (HookCounters {
            gate: AdmissionGateCounters {
                gate_bypass_ungrantable: (counters.gate.gate_bypass_ungrantable + 1) as u64,
                ..counters.gate
            },
            ..counters
        }),
        with_admission_mark_same_class(counters) == (HookCounters {
            mark: AdmissionMarkCounters {
                pending_same_class: (counters.mark.pending_same_class + 1) as u64,
                ..counters.mark
            },
            ..counters
        }),
        with_admission_mark_cross_class(counters) == (HookCounters {
            mark: AdmissionMarkCounters {
                pending_cross_class: (counters.mark.pending_cross_class + 1) as u64,
                ..counters.mark
            },
            ..counters
        }),
        with_admission_mark_cross_class_token_kept(counters) == (HookCounters {
            mark: AdmissionMarkCounters {
                pending_cross_class_token_kept: (counters.mark.pending_cross_class_token_kept + 1) as u64,
                ..counters.mark
            },
            ..counters
        }),
        with_cv_hint_published(counters) == (HookCounters {
            admission: CvAdmissionCounters {
                hints_published: (counters.admission.hints_published + 1) as u64,
                ..counters.admission
            },
            ..counters
        }),
        with_cv_specialized_relock(counters) == (HookCounters {
            admission: CvAdmissionCounters {
                specialized_relocks: (counters.admission.specialized_relocks + 1) as u64,
                ..counters.admission
            },
            ..counters
        }),
        with_cv_fallback_relock(counters) == (HookCounters {
            admission: CvAdmissionCounters {
                fallback_relocks: (counters.admission.fallback_relocks + 1) as u64,
                ..counters.admission
            },
            ..counters
        }),
        with_cv_route_relock(counters) == (HookCounters {
            admission: CvAdmissionCounters {
                route_relocks: (counters.admission.route_relocks + 1) as u64,
                ..counters.admission
            },
            ..counters
        }),
        with_cv_requeue_fallback(counters) == (HookCounters {
            requeue: CvRequeueCounters {
                fallbacks: (counters.requeue.fallbacks + 1) as u64,
                ..counters.requeue
            },
            ..counters
        }),
        with_cv_drain_wake(counters) == (HookCounters {
            requeue: CvRequeueCounters {
                drain_wakes: (counters.requeue.drain_wakes + 1) as u64,
                ..counters.requeue
            },
            ..counters
        }),
        with_cv_stranding_wake(counters) == (HookCounters {
            requeue: CvRequeueCounters {
                stranding_wakes: (counters.requeue.stranding_wakes + 1) as u64,
                ..counters.requeue
            },
            ..counters
        }),
        with_cv_binding_conflict(counters) == (HookCounters {
            requeue: CvRequeueCounters {
                binding_conflicts: (counters.requeue.binding_conflicts + 1) as u64,
                ..counters.requeue
            },
            ..counters
        }),
        with_writer_event_arm(counters) == (HookCounters {
            writer_event: WriterEventCounters {
                arms: (counters.writer_event.arms + 1) as u64,
                ..counters.writer_event
            },
            ..counters
        }),
        with_writer_event_spurious_wake(counters) == (HookCounters {
            writer_event: WriterEventCounters {
                spurious_wakes: (counters.writer_event.spurious_wakes + 1) as u64,
                ..counters.writer_event
            },
            ..counters
        }),
        with_writer_event_leader_post(counters) == (HookCounters {
            writer_event: WriterEventCounters {
                leader_posts: (counters.writer_event.leader_posts + 1) as u64,
                ..counters.writer_event
            },
            ..counters
        }),
        with_writer_event_route_takeback(counters) == (HookCounters {
            writer_event: WriterEventCounters {
                route_takebacks: (counters.writer_event.route_takebacks + 1) as u64,
                ..counters.writer_event
            },
            ..counters
        }),
        with_writer_event_route_takeback_unpublished(counters) == (HookCounters {
            writer_event: WriterEventCounters {
                route_takeback_unpublished: (counters.writer_event.route_takeback_unpublished + 1) as u64,
                ..counters.writer_event
            },
            ..counters
        }),
        with_writer_event_route_takeback_lost(counters) == (HookCounters {
            writer_event: WriterEventCounters {
                route_takeback_lost: (counters.writer_event.route_takeback_lost + 1) as u64,
                ..counters.writer_event
            },
            ..counters
        }),
        with_writer_event_completed_misroute(counters) == (HookCounters {
            writer_event: WriterEventCounters {
                completed_misroutes: (counters.writer_event.completed_misroutes + 1) as u64,
                ..counters.writer_event
            },
            ..counters
        }),
        with_writer_event_relock_admitted(counters) == (HookCounters {
            writer_event: WriterEventCounters {
                relocks_admitted: (counters.writer_event.relocks_admitted + 1) as u64,
                ..counters.writer_event
            },
            ..counters
        }),
        with_writer_event_relock_normal(counters) == (HookCounters {
            writer_event: WriterEventCounters {
                relocks_normal: (counters.writer_event.relocks_normal + 1) as u64,
                ..counters.writer_event
            },
            ..counters
        }),
{
}

/// Waiters that are moved count each, and the high-water mark is the most that it was told
/// of.
pub proof fn law_moved_and_staged_waiters_are_counted(
    counters: HookCounters,
    moved: u64,
    staged: u64,
)
    requires
        counters.enabled,
        counters.requeue.requeued + moved <= u64::MAX,
    ensures
        with_cv_requeued(counters, moved) == (HookCounters {
            requeue: CvRequeueCounters {
                requeued: (counters.requeue.requeued + moved) as u64,
                ..counters.requeue
            },
            ..counters
        }),
        ({
            let after = with_cv_staged_high_water(counters, staged);
            let mark = after.requeue.staged_high_water;
            &&& mark >= staged
            &&& mark >= counters.requeue.staged_high_water
            &&& mark == staged || mark == counters.requeue.staged_high_water
            &&& after == (HookCounters {
                requeue: CvRequeueCounters { staged_high_water: mark, ..counters.requeue },
                ..counters
            })
        }),
{
}

/// Counters that are switched off do not move.
pub proof fn law_nothing_is_counted_while_switched_off(
    counters: HookCounters,
    moved: u64,
    staged: u64,
)
    requires
        !counters.enabled,
    ensures
        with_admission_gate_wait_loop(counters) == counters,
        with_admission_gate_timeout(counters) == counters,
        with_admission_gate_bypass(counters) == counters,
        with_admission_mark_same_class(counters) == counters,
        with_admission_mark_cross_class(counters) == counters,
        with_admission_mark_cross_class_token_kept(counters) == counters,
        with_cv_hint_published(counters) == counters,
        with_cv_specialized_relock(counters) == counters,
        with_cv_fallback_relock(counters) == counters,
        with_cv_route_relock(counters) == counters,
        with_cv_requeue_fallback(counters) == counters,
        with_cv_drain_wake(counters) == counters,
        with_cv_stranding_wake(counters) == counters,
        with_cv_binding_conflict(counters) == counters,
        with_writer_event_arm(counters) == counters,
        with_writer_event_spurious_wake(counters) == counters,
        with_writer_event_leader_post(counters) == counters,
        with_writer_event_route_takeback(counters) == counters,
        with_writer_event_route_takeback_unpublished(counters) == counters,
        with_writer_event_route_takeback_lost(counters) == counters,
        with_writer_event_completed_misroute(counters) == counters,
        with_writer_event_relock_admitted(counters) == counters,
        with_writer_event_relock_normal(counters) == counters,
        with_cv_requeued(counters, moved) == counters,
        with_cv_staged_high_water(counters, staged) == counters,
{
}

/// A lock that is free at the first try is taken by that try alone. Any other acquisition
/// first shows that it is about to wait, waits for its slot where it has to, and only then
/// takes the lock; the time of all of that is accounted before the hold is shown. Who
/// comes with a token skips the try.
pub proof fn law_a_slot_is_asked_for_before_the_lock(
    token_consumed: bool,
    tried: bool,
    marked: bool,
)
    ensures
        ({
            let actions = acquire_actions(
                AcquireMode::Normal,
                first_acquire_action(AcquireMode::Normal, token_consumed),
                tried,
                marked,
            );
            let attempt = if token_consumed {
                Seq::empty()
            } else {
                seq![AcquireAction::TryLock]
            };
            let gate = if marked {
                seq![AcquireAction::AwaitAdmission]
            } else {
                Seq::empty()
            };
            let wait = if tried && !token_consumed {
                Seq::empty()
            } else {
                seq![AcquireAction::BeginWait, AcquireAction::MarkPending] + gate + seq![
                    AcquireAction::Lock,
                    AcquireAction::EndWait,
                ]
            };
            actions == attempt + wait + seq![
                AcquireAction::RecordAcquired,
                AcquireAction::PublishHold,
                AcquireAction::Done,
            ]
        }),
{
    let mode = AcquireMode::Normal;
    lemma_taken_step(mode, AcquireAction::TryLock, tried, marked);
    lemma_taken_step(mode, AcquireAction::BeginWait, tried, marked);
    lemma_taken_step(mode, AcquireAction::MarkPending, tried, marked);
    lemma_taken_step(mode, AcquireAction::AwaitAdmission, tried, marked);
    lemma_taken_step(mode, AcquireAction::Lock, tried, marked);
    lemma_taken_step(mode, AcquireAction::EndWait, tried, marked);
    lemma_taken_step(mode, AcquireAction::RecordAcquired, tried, marked);
    lemma_taken_step(mode, AcquireAction::PublishHold, tried, marked);
    let tail = acquire_actions(mode, AcquireAction::RecordAcquired, tried, marked);
    assert(tail =~= seq![
        AcquireAction::RecordAcquired,
        AcquireAction::PublishHold,
        AcquireAction::Done,
    ]);
    let taken = acquire_actions(mode, AcquireAction::Lock, tried, marked);
    assert(taken =~= seq![AcquireAction::Lock, AcquireAction::EndWait] + tail);
    let attempt = if token_consumed {
        Seq::empty()
    } else {
        seq![AcquireAction::TryLock]
    };
    let gate = if marked {
        seq![AcquireAction::AwaitAdmission]
    } else {
        Seq::empty()
    };
    let waited = acquire_actions(mode, AcquireAction::BeginWait, tried, marked);
    let wait = seq![AcquireAction::BeginWait, AcquireAction::MarkPending] + gate + seq![
        AcquireAction::Lock,
        AcquireAction::EndWait,
    ];
    assert(waited =~= wait + tail);
    let actions = acquire_actions(
        mode,
        first_acquire_action(mode, token_consumed),
        tried,
        marked,
    );
    if token_consumed {
        assert(actions =~= attempt + wait + tail);
    } else if tried {
        assert(actions =~= attempt + Seq::empty() + tail);
    } else {
        assert(actions =~= attempt + wait + tail);
    }
}

/// The scheduler is told how many threads there are, as far as its number can hold that.
pub proof fn law_the_scheduler_is_told_the_number_of_threads(count: usize)
    ensures
        published_count(false, count) is None,
        count <= u32::MAX ==> published_count(true, count) == Some(count as u32),
        count > u32::MAX ==> published_count(true, count) == Some(u32::MAX),
{
}

/// A signal is handled here where the condition variable is hooked, is passed on where it
/// is not, and fails where there is none.
pub proof fn law_signals_go_where_the_waiters_are(
    scope: bool,
    conds: AddressRegistry,
    cond: usize,
)
    ensures
        cond != 0 ==> (signal_decision(scope, conds, cond) == HookDecision::Proceed <==> (!scope
            || conds.entries@.contains(cond))),
        cond != 0 ==> (signal_decision(scope, conds, cond) == HookDecision::Real <==> (scope
            && !conds.entries@.contains(cond))),
        !scope ==> signal_decision(scope, conds, 0) == (HookDecision::Fail { errno: 22 }),
        scope ==> signal_decision(scope, conds, 0) == HookDecision::Real,
{
}

/// Completed posts are as many as their three outcomes together.
pub proof fn law_completed_posts_are_their_outcomes(counters: WriterEventCounters)
    requires
        counters.route_takebacks + counters.route_takeback_unpublished
            + counters.route_takeback_lost <= u64::MAX,
    ensures
        completed_posts(counters) == counters.route_takebacks + counters.route_takeback_unpublished
            + counters.route_takeback_lost,
{
}

/// What the scheduler was told is right where it is the number of threads, or where it was
/// told nothing.
pub proof fn law_a_registry_in_sync_tells_its_count(registry: ThreadRegistry)
    ensures
        registry.published is None ==> registry.in_sync(),
        registry.published is Some && registry.count <= u32::MAX ==> (registry.in_sync()
            <==> registry.published->0 == registry.count),
{
}

} // verus!
