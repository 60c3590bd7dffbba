use accordin::accordin_shared::admission as slots;
use accordin::accordin_shared::admission::{AdmissionState, SchedulerAdmission, MAX_CPUS};
use accordin::accordin_shared::condvar::{
    announce_cv_requeue_override, cv_switches, wait_check, wait_end, wait_expired, wait_woken,
    CondAction, RequeueStep, StageWake, StagingArena, WaitStep, WaitWake, NO_BLOCK,
};
use accordin::accordin_shared::direct_runtime::{
    ensure_registered, lock, lock_next, registration_to_remove, try_lock, unlock, LockAction,
    LockStage,
};
use accordin::accordin_shared::mutex_hook::{AcquireAction, HookCounters};
use accordin::direct_lock::{
    mcs_accordin_direct_mutex_create, mcs_accordin_direct_mutex_destroy,
    mcs_accordin_direct_mutex_lock, mcs_accordin_direct_mutex_trylock,
    mcs_accordin_direct_mutex_unlock, mcs_tas_accordin_direct_cond_broadcast,
    mcs_tas_accordin_direct_cond_create, mcs_tas_accordin_direct_cond_destroy,
    mcs_tas_accordin_direct_cond_signal, mcs_tas_accordin_direct_cond_timedwait,
    mcs_tas_accordin_direct_cond_wait, mcs_tas_accordin_direct_mutex_create,
    mcs_tas_accordin_direct_mutex_destroy, mcs_tas_accordin_direct_mutex_lock,
    mcs_tas_accordin_direct_mutex_trylock, mcs_tas_accordin_direct_mutex_unlock,
};
use accordin::errno::{EBUSY, EINVAL, ETIMEDOUT};
use accordin::lb_shared::admission;
use accordin::lock_backend::LockBackend;
use accordin::mcs;
use accordin::mcs::{McsLockRaw, NodeMemory, ThreadNodes, MAX_THREAD_NODES, NO_NODE};
use accordin::mcs_tas::{
    decode_front_runner, encode_front_runner, encode_qnode_next, FlexguardQnode, LockPhase,
    McsTasLockRaw, Runtime, UnlockPhase, FLEXGUARD_CRITICAL_STATE_FRONT,
    FLEXGUARD_CRITICAL_STATE_HELD, FLEXGUARD_CRITICAL_STATE_NONE, FRONT_RUNNER_EMPTY,
    LOCK_VALUE_UNLOCKED, NO_QNODE, QNODE_NEXT_PARKED,
};
use accordin::mcs_tas_accordin as tas;

// Admission.
#[test]
fn new_acquisition_cannot_reuse_an_unobserved_old_grant() {
    let mut state = AdmissionState::new();
    slots::reset_for_test(&mut state);
    let outer = slots::begin(&mut state, true);
    slots::enter(&mut state, outer);
    let old_request = state.word & !slots::FLAGS;
    slots::finish(&mut state, true);
    let outer = slots::begin(&mut state, true);
    slots::enter(&mut state, outer);
    let new_request = state.word & !slots::FLAGS;
    assert_ne!(old_request, new_request);
    assert_eq!(slots::state_for_test(&state), slots::HELD);
    slots::finish(&mut state, true);
}

#[test]
fn a_wait_ends_with_its_own_ticket_only() {
    let mut state = AdmissionState::new();
    assert!(slots::begin(&mut state, true));
    let ticket = slots::wait_begin(&mut state, 77);
    assert_eq!(ticket, (4 << 32) | 77);
    assert_eq!(slots::state_for_test(&state), slots::WAITING);

    let mut scheduler = SchedulerAdmission {
        enabled: 1,
        owners: [0; MAX_CPUS],
    };
    scheduler.owners[3] = ticket;
    let scheduler = Some(scheduler);
    assert!(slots::wait_over(&scheduler, 3, ticket));
    assert!(!slots::wait_over(&scheduler, 2, ticket));
    assert!(!slots::wait_over(&scheduler, MAX_CPUS, ticket));
    assert!(!slots::wait_over(&scheduler, 3, ticket + 1));
    assert!(slots::wait_over(&None, 3, ticket));

    slots::wait(&mut state);
    assert_eq!(slots::state_for_test(&state), slots::SPINNING);
}

#[derive(Default)]
struct TestLock(std::cell::Cell<bool>);

impl LockBackend for TestLock {
    fn lock(&self) {
        assert!(!self.0.replace(true));
    }
    fn try_lock(&self) -> bool {
        !self.0.replace(true)
    }
    fn unlock(&self) {
        assert!(self.0.replace(false));
    }
}

/// Runs an acquisition to its end.
fn acquire(state: &mut AdmissionState, raw: &TestLock) -> Vec<LockAction> {
    let (mut stage, mut action) = lock(state, true);
    let mut actions = vec![action];
    while action != LockAction::Done {
        let acquired = match action {
            LockAction::TryLock => raw.try_lock(),
            LockAction::Lock => {
                raw.lock();
                true
            }
            _ => false,
        };
        let next = lock_next(state, stage, acquired, 9);
        stage = next.0;
        action = next.1;
        actions.push(action);
    }
    actions
}

#[test]
fn failed_trylock_preserves_the_outer_episode() {
    let mut state = AdmissionState::new();
    slots::reset_for_test(&mut state);
    let raw = TestLock::default();
    assert!(try_lock(&mut state, true, &raw));
    assert_eq!(slots::state_for_test(&state), slots::HELD);
    assert!(!try_lock(&mut state, true, &raw));
    assert_eq!(slots::state_for_test(&state), slots::HELD);
    unlock(&mut state, true, &raw);
    assert_eq!(slots::state_for_test(&state), 0);
    acquire(&mut state, &raw);
    assert_eq!(slots::state_for_test(&state), slots::HELD);
    unlock(&mut state, true, &raw);
}

#[test]
fn a_contended_outer_acquisition_waits_for_its_slot() {
    let mut state = AdmissionState::new();
    let (stage, action) = lock(&mut state, true);
    assert_eq!(action, LockAction::TryLock);
    let (stage, action) = lock_next(&mut state, stage, false, 9);
    assert_eq!(
        action,
        LockAction::AwaitSlot {
            ticket: (4 << 32) | 9
        }
    );
    let (stage, action) = lock_next(&mut state, stage, false, 9);
    assert_eq!(action, LockAction::Lock);
    assert_eq!(slots::state_for_test(&state), slots::SPINNING);
    let (stage, action) = lock_next(&mut state, stage, false, 9);
    assert_eq!((stage, action), (LockStage::Entered, LockAction::Done));
    assert_eq!(slots::state_for_test(&state), slots::HELD);

    // A nested one does not.
    let (stage, _) = lock(&mut state, true);
    let (_, action) = lock_next(&mut state, stage, false, 9);
    assert_eq!(action, LockAction::Lock);
}

#[test]
fn a_thread_is_entered_once_and_removed_as_it_was_entered() {
    let mut registration = None;
    assert_eq!(
        ensure_registered(&mut registration, true, 11, 0x40),
        Some((11, 0x40))
    );
    assert_eq!(ensure_registered(&mut registration, true, 11, 0x40), None);
    let registered = registration.unwrap();
    assert_eq!(registration_to_remove(&registered, true), Some(11));
    assert_eq!(registration_to_remove(&registered, false), None);
}

// The queue lock.
fn queue_lock(address: usize) -> McsLockRaw {
    McsLockRaw::new(address)
}

#[test]
fn try_lock_requires_unlock_before_reacquire() {
    let mut memory = NodeMemory::with_nodes(MAX_THREAD_NODES);
    let mut thread = ThreadNodes::new(1);
    let mut lock = queue_lock(0x100);

    assert!(lock.try_lock(&mut memory, &mut thread));
    assert!(!lock.try_lock(&mut memory, &mut thread));
    lock.unlock(&mut memory, &mut thread);
    assert!(lock.try_lock(&mut memory, &mut thread));
    lock.unlock(&mut memory, &mut thread);
}

#[test]
fn supports_four_nested_locks_per_thread() {
    let mut memory = NodeMemory::with_nodes(MAX_THREAD_NODES);
    let mut thread = ThreadNodes::new(1);
    let mut locks = vec![
        queue_lock(0x100),
        queue_lock(0x200),
        queue_lock(0x300),
        queue_lock(0x400),
    ];

    for lock in locks.iter_mut() {
        assert_eq!(
            lock.lock(&mut memory, &mut thread).1,
            mcs::LockPhase::Held
        );
    }
    for lock in locks.iter_mut().rev() {
        assert_eq!(
            lock.unlock(&mut memory, &mut thread).1,
            mcs::UnlockPhase::Done
        );
    }
    assert_eq!(thread.depth, 0);
}

#[test]
fn try_lock_at_max_nesting_depth_reports_busy() {
    let mut memory = NodeMemory::with_nodes(MAX_THREAD_NODES);
    let mut thread = ThreadNodes::new(1);
    let mut locks = vec![
        queue_lock(0x100),
        queue_lock(0x200),
        queue_lock(0x300),
        queue_lock(0x400),
    ];
    let mut extra = queue_lock(0x500);

    for lock in locks.iter_mut() {
        lock.lock(&mut memory, &mut thread);
    }

    assert!(!extra.try_lock(&mut memory, &mut thread));

    locks[3].unlock(&mut memory, &mut thread);
    assert!(extra.try_lock(&mut memory, &mut thread));
    extra.unlock(&mut memory, &mut thread);

    for lock in locks[..3].iter_mut().rev() {
        lock.unlock(&mut memory, &mut thread);
    }
}

#[test]
fn a_queue_lock_serves_its_threads_in_order() {
    let mut memory = NodeMemory::with_nodes(3 * MAX_THREAD_NODES);
    let mut first = ThreadNodes::new(1);
    let mut second = ThreadNodes::new(1 + MAX_THREAD_NODES);
    let mut third = ThreadNodes::new(1 + 2 * MAX_THREAD_NODES);
    let mut lock = queue_lock(0x100);

    assert_eq!(lock.lock(&mut memory, &mut first).1, mcs::LockPhase::Held);
    let (second_node, phase) = lock.lock(&mut memory, &mut second);
    assert_eq!(phase, mcs::LockPhase::Spin);
    let (third_node, phase) = lock.lock(&mut memory, &mut third);
    assert_eq!(phase, mcs::LockPhase::Spin);

    lock.unlock(&mut memory, &mut first);
    assert_eq!(
        lock.lock_step(&mut memory, second_node, mcs::LockPhase::Spin),
        mcs::LockPhase::Held
    );
    assert_eq!(
        lock.lock_step(&mut memory, third_node, mcs::LockPhase::Spin),
        mcs::LockPhase::Spin
    );
    lock.unlock(&mut memory, &mut second);
    assert_eq!(
        lock.lock_step(&mut memory, third_node, mcs::LockPhase::Spin),
        mcs::LockPhase::Held
    );
    lock.unlock(&mut memory, &mut third);
    assert_eq!(lock.tail, NO_NODE);
}

#[test]
fn a_release_waits_for_a_successor_that_is_not_linked_yet() {
    let mut memory = NodeMemory::with_nodes(2 * MAX_THREAD_NODES);
    let mut holder = ThreadNodes::new(1);
    let mut lock = queue_lock(0x100);
    lock.lock(&mut memory, &mut holder);

    // The successor is in the queue, and its link is still to come.
    let successor = 1 + MAX_THREAD_NODES;
    memory.put(
        successor,
        mcs::Node {
            next: NO_NODE,
            locked: true,
        },
    );
    let phase = lock.lock_step(&mut memory, successor, mcs::LockPhase::Enqueue);
    assert_eq!(phase, mcs::LockPhase::Link { pred: 1 });

    assert_eq!(
        lock.unlock(&mut memory, &mut holder).1,
        mcs::UnlockPhase::AwaitSuccessor
    );
    assert_eq!(
        lock.unlock_await(&mut memory, &mut holder).1,
        mcs::UnlockPhase::AwaitSuccessor
    );
    let phase = lock.lock_step(&mut memory, successor, phase);
    assert_eq!(phase, mcs::LockPhase::Spin);
    assert_eq!(
        lock.unlock_await(&mut memory, &mut holder).1,
        mcs::UnlockPhase::Done
    );
    assert_eq!(
        lock.lock_step(&mut memory, successor, phase),
        mcs::LockPhase::Held
    );
}

// The preemption-aware lock.
fn runtime() -> Runtime {
    Runtime::allocate_local_runtime(4)
}

#[test]
fn critical_state_markers_update_qnode_state() {
    let mut runtime = runtime();

    runtime.mark_front_runner(1);
    assert_eq!(runtime.qnode_state(1), FLEXGUARD_CRITICAL_STATE_FRONT);

    runtime.mark_lock_holder(1);
    assert_eq!(runtime.qnode_state(1), FLEXGUARD_CRITICAL_STATE_HELD);

    runtime.clear_critical_state(1);
    assert_eq!(runtime.qnode_state(1), FLEXGUARD_CRITICAL_STATE_NONE);
}

#[test]
fn new_lock_starts_unlocked_and_without_queue() {
    let lock = McsTasLockRaw::new();

    assert_eq!(lock.lock_value, LOCK_VALUE_UNLOCKED);
    assert_eq!(lock.queue, NO_QNODE);
    assert_eq!(lock.front_runner, FRONT_RUNNER_EMPTY);
}

#[test]
fn stale_front_runner_token_does_not_follow_reused_qnode_generation() {
    let mut runtime = runtime();
    let mut lock = McsTasLockRaw::new();
    runtime.initialize_qnode_slot(1);

    runtime.advance_qnode_generation(1);
    runtime.mark_front_runner(1);
    runtime.preempted_flags[1] = 1;
    lock.publish_front_runner(&runtime, 1);

    runtime.clear_critical_state(1);
    runtime.preempted_flags[1] = 0;

    runtime.advance_qnode_generation(1);
    runtime.mark_front_runner(1);
    runtime.preempted_flags[1] = 1;

    assert!(
        !lock.front_runner_blocked(&runtime),
        "stale front-runner token should not reactivate when the same qnode slot is reused",
    );
    assert_eq!(lock.front_runner, FRONT_RUNNER_EMPTY);
}

#[test]
fn front_runner_blocked_detects_preempted_front_waiter() {
    let mut runtime = runtime();
    let mut lock = McsTasLockRaw::new();
    runtime.initialize_qnode_slot(1);

    runtime.advance_qnode_generation(1);
    runtime.mark_front_runner(1);
    lock.publish_front_runner(&runtime, 1);
    runtime.preempted_flags[1] = 1;

    assert!(
        lock.front_runner_blocked(&runtime),
        "published front-runner token should report a preempted front waiter directly",
    );
}

#[test]
fn advance_qnode_generation_wraps_at_u32_max() {
    let mut runtime = runtime();
    runtime.qnode_generations[1] = u32::MAX;

    assert_eq!(runtime.advance_qnode_generation(1), 0);
    assert_eq!(runtime.qnode_generation(1), 0);
}

#[test]
fn link_successor_detects_parked_predecessor() {
    let mut runtime = runtime();
    runtime.qnodes[1] = FlexguardQnode {
        next: QNODE_NEXT_PARKED,
        ..FlexguardQnode::new()
    };

    assert!(runtime.link_successor(1, 2));
    assert_eq!(runtime.qnodes[1].next, encode_qnode_next(2));
}

#[test]
fn blocking_exit_waits_for_late_successor_and_hands_off() {
    let mut runtime = runtime();
    let mut lock = McsTasLockRaw::new();
    runtime.initialize_qnode_slot(1);
    runtime.initialize_qnode_slot(2);

    lock.queue = 2;
    runtime.qnodes[2].waiting = 1;

    // The exit parks until the successor links itself.
    assert!(!lock.mcs_exit_blocking(&mut runtime, 1));
    assert_eq!(runtime.qnodes[1].next, QNODE_NEXT_PARKED);
    assert!(runtime.link_successor(1, 2));
    assert!(lock.mcs_exit_blocking(&mut runtime, 1));

    assert_eq!(
        runtime.qnodes[2].waiting, 0,
        "blocking exit should eventually hand off to the late successor",
    );
    assert_eq!(
        runtime.qnodes[1].next,
        encode_qnode_next(2),
        "late successor should become visible in the exiting qnode next slot",
    );
}

#[test]
fn handoff_publishes_successor_as_front_runner_before_it_runs() {
    let mut runtime = runtime();
    let mut lock = McsTasLockRaw::new();
    runtime.initialize_qnode_slot(1);
    runtime.initialize_qnode_slot(2);
    runtime.qnodes[1].next = encode_qnode_next(2);
    runtime.qnodes[2].waiting = 1;
    runtime.advance_qnode_generation(2);

    assert!(lock.mcs_exit(&mut runtime, 1));

    assert_eq!(
        runtime.qnode_state(2),
        FLEXGUARD_CRITICAL_STATE_FRONT,
        "handoff should publish the successor as the current front-runner before it gets CPU time",
    );

    runtime.preempted_flags[2] = 1;
    assert!(
        lock.front_runner_blocked(&runtime),
        "published successor should immediately become observable as a blocked front-runner",
    );
}

#[test]
fn holder_preempted_skips_mcs_enqueue_even_without_front_runner_signal() {
    let mut runtime = runtime();
    let mut lock = McsTasLockRaw::new();

    runtime.num_preempted_holders = 1;

    assert!(
        !lock.should_enqueue_mcs(&runtime),
        "holder-preempted fallback should skip queue churn before any front-runner signal becomes visible",
    );
    assert!(lock.phase2_blocking(&runtime));
}

#[test]
fn front_runner_blocked_skips_enqueue_without_direct_successor_relay() {
    let mut runtime = runtime();
    let mut lock = McsTasLockRaw::new();
    runtime.initialize_qnode_slot(1);

    runtime.advance_qnode_generation(1);
    runtime.mark_front_runner(1);
    lock.publish_front_runner(&runtime, 1);
    runtime.preempted_flags[1] = 1;

    assert!(
        !lock.should_enqueue_mcs(&runtime),
        "new arrivals should skip MCS when the published front waiter is already preempted",
    );
}

#[test]
fn a_token_names_its_front_runner() {
    let mut runtime = runtime();
    runtime.qnode_generations[3] = 9;
    let token = encode_front_runner(&runtime, 3);
    assert_eq!(decode_front_runner(token, 4), Some((3, 9)));
    assert_eq!(decode_front_runner(token, 3), None);
    assert_eq!(decode_front_runner(FRONT_RUNNER_EMPTY, 4), None);
}

#[test]
fn threads_get_slots_of_their_own_until_none_is_left() {
    let mut runtime = runtime();
    let mut ids = vec![-1, -1, -1];
    for id in ids.iter_mut() {
        assert!(runtime.has_free_slot());
        runtime.current_thread_index(id);
    }
    assert_eq!(ids, vec![1, 2, 3]);
    assert!(!runtime.has_free_slot());
    assert_eq!(runtime.current_thread_index(&mut ids[1]), 2);
}

#[test]
fn the_runtime_of_the_scheduler_is_installed_once() {
    let mut current = None;
    Runtime::install_bpf_runtime(
        &mut current,
        vec![FlexguardQnode::new(), FlexguardQnode::new()],
        3,
        vec![0, 1],
    );
    Runtime::install_bpf_runtime(&mut current, vec![FlexguardQnode::new()], 7, vec![0]);
    let runtime = current.unwrap();
    assert_eq!(runtime.num_preempted_holders, 3);
    assert!(runtime.holder_preempted());
    assert!(runtime.qnode_preempted(1));
    assert_eq!(runtime.qnode_generation(1), 0);
}

/// Advances until the lock is held, the thread sleeps, or `limit` steps passed.
fn advance(
    lock: &mut McsTasLockRaw,
    runtime: &mut Runtime,
    me: usize,
    mut phase: LockPhase,
    limit: usize,
) -> LockPhase {
    for _ in 0..limit {
        if phase == LockPhase::Held || phase == LockPhase::Sleep {
            return phase;
        }
        phase = lock.lock_step(runtime, me, phase);
    }
    phase
}

#[test]
fn a_queued_thread_takes_the_lock_from_the_front() {
    let mut runtime = runtime();
    let mut lock = McsTasLockRaw::new();
    assert!(lock.try_lock(&mut runtime, 1));
    assert!(!lock.try_lock(&mut runtime, 2));

    let phase = lock.lock(&mut runtime, 2);
    let phase = advance(&mut lock, &mut runtime, 2, phase, 200);
    assert_ne!(phase, LockPhase::Held);
    assert_eq!(lock.queue, 2);
    assert!(!lock.unlock(&mut runtime, 1));
    assert_eq!(
        advance(&mut lock, &mut runtime, 2, phase, 200),
        LockPhase::Held
    );
    assert_eq!(runtime.qnode_state(2), FLEXGUARD_CRITICAL_STATE_HELD);
    assert_eq!(lock.queue, NO_QNODE);
    lock.unlock(&mut runtime, 2);
    assert_eq!(lock.lock_value, LOCK_VALUE_UNLOCKED);
}

#[test]
fn a_preempted_holder_puts_waiters_to_sleep_and_the_release_wakes_one() {
    let mut runtime = runtime();
    let mut lock = McsTasLockRaw::new();
    assert!(lock.try_lock(&mut runtime, 1));
    runtime.num_preempted_holders = 1;

    let phase = lock.lock(&mut runtime, 2);
    assert_eq!(
        advance(&mut lock, &mut runtime, 2, phase, 200),
        LockPhase::Sleep
    );
    assert_eq!(lock.queue, NO_QNODE);

    let mut release = UnlockPhase::Release;
    let mut woken = false;
    while release != UnlockPhase::Done {
        woken = woken || release == UnlockPhase::Wake;
        release = lock.unlock_step(&mut runtime, 1, release);
    }
    assert!(woken);
    runtime.num_preempted_holders = 0;
    let phase = lock.lock_step(&mut runtime, 2, LockPhase::Sleep);
    assert_eq!(
        advance(&mut lock, &mut runtime, 2, phase, 200),
        LockPhase::Held
    );
}

// The test-and-set lock with a queue.
#[test]
fn the_front_of_the_queue_takes_the_lock_word() {
    let mut memory = tas::NodeMemory::with_nodes(2);
    let mut lock = tas::McsTasLockRaw::new();
    let mut word = admission::new_word();
    assert!(lock.try_lock());
    assert!(!lock.try_lock());

    let mut phase = tas::LockPhase::Prepare;
    for _ in 0..20 {
        phase = lock.lock_step(&mut memory, 1, phase);
    }
    assert_eq!(phase, tas::LockPhase::Front);
    let mut behind = tas::LockPhase::Prepare;
    for _ in 0..20 {
        behind = lock.lock_step(&mut memory, 2, behind);
    }
    assert_eq!(behind, tas::LockPhase::SpinQueue);

    admission::mark_critical_section_entered(&mut word);
    lock.unlock(&mut word);
    assert_eq!(admission::word_for_test(&word), 0);
    while phase != tas::LockPhase::Held {
        phase = lock.lock_step(&mut memory, 1, phase);
    }
    assert!(lock.locked);
    for _ in 0..20 {
        behind = lock.lock_step(&mut memory, 2, behind);
    }
    assert_eq!(behind, tas::LockPhase::Front);
    lock.unlock(&mut word);
    while behind != tas::LockPhase::Held {
        behind = lock.lock_step(&mut memory, 2, behind);
    }
    assert_eq!(lock.tail, tas::NO_NODE);
}

#[test]
fn taking_the_lock_marks_the_critical_section() {
    let mut memory = tas::NodeMemory::with_nodes(1);
    let mut lock = tas::McsTasLockRaw::new();
    let mut word = admission::new_word();
    let mut phase = tas::LockPhase::Prepare;
    for _ in 0..20 {
        phase = lock.lock(&mut memory, 1, phase, &mut word);
    }
    assert_eq!(phase, tas::LockPhase::Held);
    assert_eq!(
        admission::word_for_test(&word),
        admission::IN_CRITICAL_SECTION
    );
    lock.unlock(&mut word);
    assert_eq!(admission::word_for_test(&word), 0);
}

// The interfaces by name.
#[test]
fn direct_mutex_trylock_requires_unlock_before_reacquire() {
    let switches = cv_switches(None, None, None);
    let mut arena = StagingArena::new();
    let mut held = NO_BLOCK;
    let mut word = admission::new_word();
    let mut mutex = mcs_tas_accordin_direct_mutex_create(1);
    assert!(mutex.is_some());

    assert_eq!(
        mcs_tas_accordin_direct_mutex_trylock(&mut mutex, &mut held, &switches),
        0
    );
    assert_eq!(
        mcs_tas_accordin_direct_mutex_trylock(&mut mutex, &mut held, &switches),
        EBUSY
    );
    assert!(
        mcs_tas_accordin_direct_mutex_unlock(&mut mutex, &mut held, &switches, &mut word).is_ok()
    );
    assert_eq!(
        mcs_tas_accordin_direct_mutex_lock(&mutex, false),
        Ok(AcquireAction::TryLock)
    );
    assert!(mutex.as_mut().unwrap().lock.try_lock());
    assert!(
        mcs_tas_accordin_direct_mutex_unlock(&mut mutex, &mut held, &switches, &mut word).is_ok()
    );
    assert_eq!(
        mcs_tas_accordin_direct_mutex_destroy(&mut mutex, &mut arena),
        (0, false)
    );
    assert_eq!(
        mcs_tas_accordin_direct_mutex_destroy(&mut mutex, &mut arena),
        (EINVAL, false)
    );
    assert_eq!(
        mcs_tas_accordin_direct_mutex_lock(&mutex, false),
        Err(EINVAL)
    );
}

#[test]
fn direct_cond_create_and_destroy_round_trip() {
    let switches = cv_switches(None, None, None);
    let mut arena = StagingArena::new();
    let mut cond = mcs_tas_accordin_direct_cond_create();
    assert!(cond.is_some());
    assert_eq!(
        mcs_tas_accordin_direct_cond_signal(&mut cond),
        Ok(CondAction::Nothing)
    );
    assert_eq!(
        mcs_tas_accordin_direct_cond_broadcast(&mut cond, &arena, &switches),
        Ok(CondAction::Nothing)
    );
    assert_eq!(
        mcs_tas_accordin_direct_cond_destroy(&mut cond, &mut arena),
        0
    );
    assert!(cond.is_none());
}

#[test]
fn direct_cond_rejects_null_arguments() {
    let switches = cv_switches(None, None, None);
    let mut arena = StagingArena::new();
    let mut counters = HookCounters::new();
    let mut cond = mcs_tas_accordin_direct_cond_create();
    let mut mutex = mcs_tas_accordin_direct_mutex_create(1);
    let mut null_cond = None;
    let mut null_mutex = None;

    assert_eq!(
        mcs_tas_accordin_direct_cond_destroy(&mut null_cond, &mut arena),
        EINVAL
    );
    assert_eq!(
        mcs_tas_accordin_direct_cond_signal(&mut null_cond),
        Err(EINVAL)
    );
    assert_eq!(
        mcs_tas_accordin_direct_cond_broadcast(&mut null_cond, &arena, &switches),
        Err(EINVAL)
    );
    assert_eq!(
        mcs_tas_accordin_direct_cond_wait(
            &mut null_cond,
            &mut mutex,
            &mut arena,
            &mut counters,
            &switches
        ),
        Err(EINVAL)
    );
    assert_eq!(
        mcs_tas_accordin_direct_cond_wait(
            &mut cond,
            &mut null_mutex,
            &mut arena,
            &mut counters,
            &switches
        ),
        Err(EINVAL)
    );
    assert_eq!(
        mcs_tas_accordin_direct_cond_timedwait(
            &mut cond,
            &mut mutex,
            false,
            &mut arena,
            &mut counters,
            &switches
        ),
        Err(EINVAL)
    );
    assert_eq!(
        mcs_tas_accordin_direct_cond_timedwait(
            &mut null_cond,
            &mut mutex,
            true,
            &mut arena,
            &mut counters,
            &switches
        ),
        Err(EINVAL)
    );
}

#[test]
fn direct_cond_timedwait_reports_the_timeout_and_holds_the_mutex_again() {
    let switches = cv_switches(None, None, None);
    let mut arena = StagingArena::new();
    let mut counters = HookCounters::new();
    let mut held = NO_BLOCK;
    let mut word = admission::new_word();
    let mut cond = mcs_tas_accordin_direct_cond_create();
    let mut mutex = mcs_tas_accordin_direct_mutex_create(1);

    assert_eq!(
        mcs_tas_accordin_direct_mutex_trylock(&mut mutex, &mut held, &switches),
        0
    );
    let mut wait = mcs_tas_accordin_direct_cond_timedwait(
        &mut cond,
        &mut mutex,
        true,
        &mut arena,
        &mut counters,
        &switches,
    )
    .unwrap();
    assert!(
        mcs_tas_accordin_direct_mutex_unlock(&mut mutex, &mut held, &switches, &mut word).is_ok()
    );
    let state = &mut cond.as_mut().unwrap().state;
    assert_eq!(wait_check(state, &wait), WaitStep::Block { expected: 0 });
    assert_eq!(
        wait_woken(state, &mut arena, &mut counters, &mut wait, ETIMEDOUT),
        (WaitStep::Withdraw, WaitWake::Nobody)
    );
    assert_eq!(wait_expired(state, &mut wait), WaitWake::Nobody);
    let (_, ret) = wait_end(&wait, false, &mut counters);
    assert_eq!(ret, ETIMEDOUT);
    assert_eq!(
        mcs_tas_accordin_direct_mutex_trylock(&mut mutex, &mut held, &switches),
        0
    );
    assert_eq!(
        mcs_tas_accordin_direct_mutex_trylock(&mut mutex, &mut held, &switches),
        EBUSY
    );
    assert!(
        mcs_tas_accordin_direct_mutex_unlock(&mut mutex, &mut held, &switches, &mut word).is_ok()
    );
}

#[test]
fn a_direct_signal_reaches_a_registered_waiter() {
    let switches = cv_switches(None, None, None);
    let mut arena = StagingArena::new();
    let mut counters = HookCounters::new();
    let mut cond = mcs_tas_accordin_direct_cond_create();
    let mut mutex = mcs_tas_accordin_direct_mutex_create(1);
    assert!(mcs_tas_accordin_direct_cond_wait(
        &mut cond,
        &mut mutex,
        &mut arena,
        &mut counters,
        &switches
    )
    .is_ok());
    assert_eq!(mutex.as_ref().unwrap().staging.block, NO_BLOCK);
    assert_eq!(
        mcs_tas_accordin_direct_cond_signal(&mut cond),
        Ok(CondAction::WakeOne)
    );
    assert_eq!(
        mcs_tas_accordin_direct_cond_signal(&mut cond),
        Ok(CondAction::Nothing)
    );
}

/// A broadcast parks its waiters on the mutex they wait with, one unlock releases
/// one of them, and the cond keeps the staging once the mutex is gone.
#[test]
fn a_direct_broadcast_parks_its_waiters_on_their_mutex() {
    let mut switches = cv_switches(None, None, Some("1"));
    announce_cv_requeue_override(&mut switches);
    let mut arena = StagingArena::new();
    let mut counters = HookCounters::new();
    let mut held = NO_BLOCK;
    let mut word = admission::new_word();
    let mut cond = mcs_tas_accordin_direct_cond_create();
    let mut mutex = mcs_tas_accordin_direct_mutex_create(1);
    for _ in 0..3 {
        mcs_tas_accordin_direct_cond_wait(
            &mut cond,
            &mut mutex,
            &mut arena,
            &mut counters,
            &switches,
        )
        .unwrap();
    }
    let block = mutex.as_ref().unwrap().staging.block;
    assert_ne!(block, NO_BLOCK);
    assert_eq!(
        mcs_tas_accordin_direct_mutex_trylock(&mut mutex, &mut held, &switches),
        0
    );
    assert_eq!(
        mcs_tas_accordin_direct_cond_broadcast(&mut cond, &arena, &switches),
        Ok(CondAction::Requeue {
            block,
            expected: 1,
            attempt: 0
        })
    );
    // The kernel moves all three, and the unlock releases the first one.
    let step = cond.as_mut().unwrap().state.requeue_waiters(
        &mut arena,
        &mut counters,
        held,
        block,
        0,
        Ok(3),
    );
    assert_eq!(
        step,
        RequeueStep::Done {
            wake: StageWake::Nobody
        }
    );
    let staging =
        mcs_tas_accordin_direct_mutex_unlock(&mut mutex, &mut held, &switches, &mut word).unwrap();
    assert!(staging.drain_one(&mut arena, &mut counters, &switches));
    assert_eq!(arena.get(block).staged, 2);

    // Destroying the mutex releases the rest.
    assert_eq!(
        mcs_tas_accordin_direct_mutex_destroy(&mut mutex, &mut arena),
        (0, true)
    );
    assert_eq!(
        mcs_tas_accordin_direct_cond_signal(&mut cond),
        Ok(CondAction::Nothing)
    );
    assert_eq!(
        mcs_tas_accordin_direct_cond_destroy(&mut cond, &mut arena),
        0
    );
    assert_eq!(arena.get(block).references, 0);
}

#[test]
fn a_direct_queue_mutex_opens_and_ends_an_episode() {
    let mut memory = NodeMemory::with_nodes(MAX_THREAD_NODES);
    let mut thread = ThreadNodes::new(1);
    let mut state = AdmissionState::new();
    let mut mutex = mcs_accordin_direct_mutex_create(0x100);

    assert_eq!(
        mcs_accordin_direct_mutex_trylock(&mut mutex, &mut memory, &mut thread, &mut state, true),
        0
    );
    assert_eq!(slots::state_for_test(&state), slots::HELD);
    assert_eq!(
        mcs_accordin_direct_mutex_trylock(&mut mutex, &mut memory, &mut thread, &mut state, true),
        EBUSY
    );
    assert_eq!(slots::state_for_test(&state), slots::HELD);
    // The node of the attempt that failed is fresh, and no lock's again.
    assert_eq!(thread.first_node, 1);
    assert_eq!(thread.lock_owners, [0x100, 0, 0, 0]);
    assert_eq!(memory.nodes.len(), MAX_THREAD_NODES);
    assert_eq!(mutex.as_ref().unwrap().lock.tail, 1);
    assert_eq!(
        mcs_accordin_direct_mutex_unlock(
            &mut mutex,
            &mut memory,
            &mut thread,
            &mut state,
            true,
            false
        ),
        Ok(mcs::UnlockPhase::Done)
    );
    assert_eq!(slots::state_for_test(&state), 0);
    assert_eq!(thread.lock_owners, [0; MAX_THREAD_NODES]);
    assert_eq!(
        mcs_accordin_direct_mutex_lock(&mutex, &mut state, true),
        Ok((LockStage::Trying { outer: true }, LockAction::TryLock))
    );
    assert_eq!(mcs_accordin_direct_mutex_destroy(&mut mutex), 0);
    assert_eq!(mcs_accordin_direct_mutex_destroy(&mut mutex), EINVAL);
    assert_eq!(
        mcs_accordin_direct_mutex_lock(&mutex, &mut state, true),
        Err(EINVAL)
    );
}
