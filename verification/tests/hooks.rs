use accordin::accordin_shared::bpf_counters::{
    routing_counter_name, RoutingCounters, ROUTING_COUNTER_COUNT,
};
use accordin::accordin_shared::condvar::{wait_next, CondRelock, WaitAction, WaitStep};
use accordin::accordin_shared::mutex_hook::{
    acquire_mode_for_cond_relock, cond_installed, cv_admission_counters, cv_admission_counters_enabled,
    cv_admission_field_values, cv_requeue_counters, ensure_cond_state_step, hook_scope_value_is_registered,
    hooked_cond_registered, hooked_mutex_registered, lock_scope_next, lock_scope_with_stats,
    pthread_cond_broadcast, pthread_cond_destroy, pthread_cond_init, pthread_cond_signal,
    pthread_cond_timedwait, pthread_cond_wait, pthread_mutex_destroy, pthread_mutex_init,
    pthread_mutex_lock, pthread_mutex_unlock, record_cv_drain_wake, record_cv_fallback_relock,
    record_cv_hint_published, record_cv_requeue_fallback, record_cv_requeued,
    record_cv_route_relock, record_cv_specialized_relock, record_cv_staged_high_water,
    record_cv_stranding_wake, register_current_thread, register_hooked_cond_addr,
    register_hooked_mutex, register_hooked_mutex_addr, register_thread_ctx_with_map,
    registered_thread_count, relock_looks_for_hint, set_registered_thread_count_ptr,
    should_hook_mutex, trylock_result, unlock_with_stats, unregister_current_thread,
    unregister_hooked_cond_addr, unregister_hooked_mutex, unregister_hooked_mutex_addr,
    unregister_thread_ctx_with_map, writer_event_bind, AcquireAction, AcquireMode,
    AddressRegistry, HookCounters, HookDecision, LockBackendAdapter, MapCall, MutexHookBackend,
    RegisterDecision, ReleaseAction, ThreadRegistry,
};
use accordin::accordin_shared::test_support::measure_debug_counters;
use accordin::errno::{EBUSY, EINTR, EINVAL, ENOTSUP, ETIMEDOUT};
use accordin::install::{
    ensure_state, install_step, offer_state, take_state, InstallPhase, Lookup, INSTALLING,
    NO_STATE,
};
use accordin::lb_shared::mutex_hook as lb;
use accordin::lb_shared::mutex_hook::{
    register_thread_with_maps, ticket_next, unregister_thread_with_maps, wait_should_continue,
    CondState, LockAction, MapStep, SlotMapCall, TicketAction,
};
use accordin::lock_backend::LockBackend;
use accordin::mcs::{McsLockRaw, NodeMemory, ThreadNodes, UnlockPhase, MAX_THREAD_NODES};

#[test]
fn register_thread_ctx_uses_map_helper_update() {
    assert_eq!(
        register_thread_ctx_with_map(7, 0x1122_3344_5566_7788),
        MapCall::Update {
            key: 7,
            value: 0x1122_3344_5566_7788
        }
    );
}

#[test]
fn mutex_hook_register_thread_ctx_uses_map_helper_update() {
    assert_eq!(
        lb::register_current_thread(true, 7, 0x1122_3344_5566_7788),
        Some(MapCall::Update {
            key: 7,
            value: 0x1122_3344_5566_7788
        })
    );
    assert_eq!(lb::register_current_thread(false, 7, 0x40), None);
}

#[test]
fn unregister_thread_ctx_uses_map_helper_delete() {
    assert_eq!(
        unregister_thread_ctx_with_map(11),
        MapCall::Delete { key: 11 }
    );
}

#[test]
fn mutex_hook_unregister_thread_ctx_uses_map_helper_delete() {
    assert_eq!(
        lb::unregister_current_thread(true, 11),
        Some(MapCall::Delete { key: 11 })
    );
    assert_eq!(lb::unregister_current_thread(false, 11), None);
}

/// Runs a change to both maps, which answer as given. Returns the calls that were
/// made, and the result.
fn run_map_steps(
    step: impl Fn(Option<bool>, Option<bool>) -> MapStep,
    answers: [bool; 2],
) -> (Vec<SlotMapCall>, bool) {
    let mut calls = Vec::new();
    let (mut thread, mut slot) = (None, None);
    loop {
        match step(thread, slot) {
            MapStep::Done { worked } => return (calls, worked),
            MapStep::Call(call) => {
                calls.push(call);
                match call {
                    SlotMapCall::Thread(_) => thread = Some(answers[0]),
                    SlotMapCall::Slot(_) => slot = Some(answers[1]),
                }
            }
        }
    }
}

#[test]
fn register_thread_updates_scheduler_and_flexguard_maps() {
    let register = |thread: Option<bool>, slot: Option<bool>| {
        register_thread_with_maps(thread, slot, 7, 0x1122_3344_5566_7788, 13)
    };
    assert_eq!(
        run_map_steps(register, [true, true]),
        (
            vec![
                SlotMapCall::Thread(MapCall::Update {
                    key: 7,
                    value: 0x1122_3344_5566_7788
                }),
                SlotMapCall::Slot(MapCall::Update { key: 7, value: 13 })
            ],
            true
        )
    );
}

#[test]
fn unregister_thread_removes_scheduler_and_flexguard_maps() {
    let unregister =
        |thread: Option<bool>, slot: Option<bool>| unregister_thread_with_maps(thread, slot, 11);
    assert_eq!(
        run_map_steps(unregister, [true, true]),
        (
            vec![
                SlotMapCall::Thread(MapCall::Delete { key: 11 }),
                SlotMapCall::Slot(MapCall::Delete { key: 11 })
            ],
            true
        )
    );
}

#[test]
fn the_second_map_is_asked_only_after_the_first_one_worked() {
    let register = |thread: Option<bool>, slot: Option<bool>| {
        register_thread_with_maps(thread, slot, 7, 0x40, 13)
    };
    let (calls, worked) = run_map_steps(register, [false, true]);
    assert_eq!(calls.len(), 1);
    assert!(!worked);
    let (calls, worked) = run_map_steps(register, [true, false]);
    assert_eq!(calls.len(), 2);
    assert!(!worked);
}

#[test]
fn hook_scope_registered_value_is_explicit() {
    assert!(hook_scope_value_is_registered(Some("registered")));
    assert!(hook_scope_value_is_registered(Some("REGISTERED")));
    assert!(!hook_scope_value_is_registered(None));
    assert!(!hook_scope_value_is_registered(Some("all")));
    assert!(!hook_scope_value_is_registered(Some("")));
}

#[test]
fn hooked_mutex_registry_tracks_registered_addresses() {
    let mut mutexes = AddressRegistry::new();
    let mutex = 0x7f00;

    unregister_hooked_mutex_addr(&mut mutexes, mutex);
    assert!(!hooked_mutex_registered(&mutexes, mutex));

    assert!(register_hooked_mutex_addr(&mut mutexes, mutex));
    assert!(hooked_mutex_registered(&mutexes, mutex));

    assert!(unregister_hooked_mutex_addr(&mut mutexes, mutex));
    assert!(!hooked_mutex_registered(&mutexes, mutex));
}

#[test]
fn hooked_cond_registry_tracks_registered_addresses() {
    let mut conds = AddressRegistry::new();
    let cond = 0x7f40;

    unregister_hooked_cond_addr(&mut conds, cond);
    assert!(!hooked_cond_registered(&conds, cond));

    assert!(register_hooked_cond_addr(&mut conds, cond));
    assert!(hooked_cond_registered(&conds, cond));

    assert!(unregister_hooked_cond_addr(&mut conds, cond));
    assert!(!hooked_cond_registered(&conds, cond));
}

#[test]
fn null_is_never_registered() {
    let mut mutexes = AddressRegistry::new();
    assert!(!register_hooked_mutex_addr(&mut mutexes, 0));
    assert!(!hooked_mutex_registered(&mutexes, 0));
}

#[test]
fn cv_admission_counters_only_count_while_enabled() {
    let mut counters = HookCounters::new();
    let measurement = measure_debug_counters(&mut counters);
    assert!(!cv_admission_counters_enabled(&counters));

    let baseline = cv_admission_counters(&counters);
    let requeue_baseline = cv_requeue_counters(&counters);
    record_cv_hint_published(&mut counters);
    record_cv_specialized_relock(&mut counters);
    record_cv_fallback_relock(&mut counters);
    record_cv_requeued(&mut counters, 4);
    record_cv_drain_wake(&mut counters);
    assert_eq!(cv_admission_counters(&counters), baseline);
    assert_eq!(cv_requeue_counters(&counters), requeue_baseline);

    measurement.enable(&mut counters);
    record_cv_hint_published(&mut counters);
    record_cv_specialized_relock(&mut counters);
    record_cv_fallback_relock(&mut counters);
    record_cv_route_relock(&mut counters);
    record_cv_requeued(&mut counters, 2);
    record_cv_requeue_fallback(&mut counters);
    record_cv_drain_wake(&mut counters);
    record_cv_stranding_wake(&mut counters);
    record_cv_staged_high_water(&mut counters, requeue_baseline.staged_high_water + 3);
    measurement.finish(&mut counters);

    let admission = cv_admission_counters(&counters);
    assert_eq!(admission.hints_published, baseline.hints_published + 1);
    assert_eq!(
        admission.specialized_relocks,
        baseline.specialized_relocks + 1
    );
    assert_eq!(admission.fallback_relocks, baseline.fallback_relocks + 1);
    assert_eq!(admission.route_relocks, baseline.route_relocks + 1);

    let requeue = cv_requeue_counters(&counters);
    assert_eq!(requeue.requeued, requeue_baseline.requeued + 2);
    assert_eq!(requeue.fallbacks, requeue_baseline.fallbacks + 1);
    assert_eq!(requeue.drain_wakes, requeue_baseline.drain_wakes + 1);
    assert_eq!(
        requeue.stranding_wakes,
        requeue_baseline.stranding_wakes + 1
    );
    assert_eq!(
        requeue.staged_high_water,
        requeue_baseline.staged_high_water + 3,
        "the high-water mark keeps the largest stage it ever saw"
    );
    assert_eq!(
        cv_admission_field_values(&counters),
        [
            admission.hints_published,
            admission.specialized_relocks,
            admission.fallback_relocks,
            admission.route_relocks
        ]
    );
}

/// The hooks decide whether a wait is theirs, and leave the whole of it to the
/// shared condition variable: no action of theirs sleeps or wakes, and every sleep is
/// one that the shared protocol asked for.
#[test]
fn the_wait_protocol_stays_in_the_shared_condvar_module() {
    assert_eq!(pthread_cond_wait(0x80, 0x40, true), HookDecision::Proceed);
    assert_eq!(
        pthread_cond_timedwait(0x80, 0x40, 0xc0, true),
        HookDecision::Proceed
    );
    let mut action = WaitAction::Unlock;
    let mut steps = [WaitStep::Block { expected: 3 }, WaitStep::End].iter();
    let mut blocked = Vec::new();
    while action != WaitAction::Done {
        if let WaitAction::Block { expected } = action {
            blocked.push(expected);
        }
        let step = match action {
            WaitAction::BeginSleep | WaitAction::Block { .. } => *steps.next().unwrap(),
            _ => WaitStep::End,
        };
        action = wait_next(action, step, false, true);
    }
    assert_eq!(
        blocked,
        vec![3],
        "the futex protocol belongs to the shared condvar module"
    );
}

/// A routed wakeup was admitted as it was enqueued, so its re-acquisition
/// enters on that decision without looking for a hint: one that is there belongs
/// to some other re-acquisition and has to survive.
#[test]
fn a_routed_cond_relock_enters_without_re_requesting_admission() {
    let mut counters = HookCounters::new();
    counters.enabled = true;
    let before = counters;

    assert!(!relock_looks_for_hint(CondRelock::AlreadyAdmitted));
    assert_eq!(
        acquire_mode_for_cond_relock(CondRelock::AlreadyAdmitted, false, &mut counters),
        AcquireMode::AlreadyAdmitted
    );
    assert_eq!(counters, before);
    assert_eq!(
        lock_scope_with_stats(AcquireMode::AlreadyAdmitted, false),
        AcquireAction::BeginWait
    );
}

#[test]
fn a_cond_relock_without_a_decision_is_counted() {
    let mut counters = HookCounters::new();
    counters.enabled = true;
    assert!(relock_looks_for_hint(CondRelock::TakeHint));
    assert_eq!(
        acquire_mode_for_cond_relock(CondRelock::TakeHint, true, &mut counters),
        AcquireMode::AlreadyAdmitted
    );
    assert_eq!(
        acquire_mode_for_cond_relock(CondRelock::TakeHint, false, &mut counters),
        AcquireMode::Normal
    );
    assert_eq!(
        acquire_mode_for_cond_relock(CondRelock::Normal, true, &mut counters),
        AcquireMode::Normal
    );
    assert_eq!(counters.admission.specialized_relocks, 1);
    assert_eq!(counters.admission.fallback_relocks, 2);
}

fn acquire_actions(
    mode: AcquireMode,
    token_consumed: bool,
    tried: bool,
    marked: bool,
) -> Vec<AcquireAction> {
    let mut action = lock_scope_with_stats(mode, token_consumed);
    let mut actions = Vec::new();
    while action != AcquireAction::Done {
        actions.push(action);
        let answer = if action == AcquireAction::TryLock {
            tried
        } else {
            marked
        };
        action = lock_scope_next(mode, action, answer);
    }
    actions
}

#[test]
fn an_acquisition_takes_the_lock_once() {
    assert_eq!(
        acquire_actions(AcquireMode::Normal, false, true, false),
        vec![
            AcquireAction::TryLock,
            AcquireAction::RecordAcquired,
            AcquireAction::PublishHold
        ]
    );
    assert_eq!(
        acquire_actions(AcquireMode::Normal, false, false, true),
        vec![
            AcquireAction::TryLock,
            AcquireAction::BeginWait,
            AcquireAction::MarkPending,
            AcquireAction::AwaitAdmission,
            AcquireAction::Lock,
            AcquireAction::EndWait,
            AcquireAction::RecordAcquired,
            AcquireAction::PublishHold
        ]
    );
    assert_eq!(
        acquire_actions(AcquireMode::AlreadyAdmitted, true, false, true),
        vec![
            AcquireAction::BeginWait,
            AcquireAction::Lock,
            AcquireAction::EndWait,
            AcquireAction::RecordAcquired,
            AcquireAction::PublishHold
        ]
    );
}

#[test]
fn a_release_drains_after_the_lock_is_free() {
    let run = |scoped: bool| {
        let mut action = ReleaseAction::HoldEnd;
        let mut actions = Vec::new();
        while action != ReleaseAction::Done {
            actions.push(action);
            action = unlock_with_stats(scoped, action);
        }
        actions
    };
    assert_eq!(
        run(true),
        vec![
            ReleaseAction::HoldEnd,
            ReleaseAction::ReadStaging,
            ReleaseAction::ClearHold,
            ReleaseAction::Unlock,
            ReleaseAction::FinishScope,
            ReleaseAction::RecordPostUnlock,
            ReleaseAction::Drain
        ]
    );
    assert_eq!(
        run(false),
        vec![
            ReleaseAction::HoldEnd,
            ReleaseAction::ReadStaging,
            ReleaseAction::Unlock,
            ReleaseAction::RecordPostUnlock,
            ReleaseAction::Drain
        ]
    );
}

#[derive(Default)]
struct RecordingLock {
    calls: std::cell::RefCell<Vec<&'static str>>,
}

impl LockBackend for RecordingLock {
    fn lock(&self) {
        self.calls.borrow_mut().push("lock");
    }
    fn try_lock(&self) -> bool {
        self.calls.borrow_mut().push("try_lock");
        true
    }
    fn unlock(&self) {
        self.calls.borrow_mut().push("unlock");
    }
}

type McsBackend = LockBackendAdapter<RecordingLock>;

#[test]
fn mcs_backend_uses_per_lock_admission_scope() {
    assert!(<McsBackend as MutexHookBackend>::uses_admission_scope());
}

#[test]
fn mcs_backend_unlock_does_not_yield() {
    let state = <McsBackend as MutexHookBackend>::create_state();
    assert!(<McsBackend as MutexHookBackend>::try_lock(&state));
    <McsBackend as MutexHookBackend>::unlock(&state);
    <McsBackend as MutexHookBackend>::lock(&state);
    <McsBackend as MutexHookBackend>::unlock(&state);
    assert_eq!(
        *state.calls.borrow(),
        vec!["try_lock", "unlock", "lock", "unlock"],
        "McsBackend::unlock should only release the lock"
    );

    // The queue lock itself is released within one call.
    let mut memory = NodeMemory::with_nodes(MAX_THREAD_NODES);
    let mut thread = ThreadNodes::new(1);
    let mut lock = McsLockRaw::new(0x100);
    assert!(lock.try_lock(&mut memory, &mut thread));
    assert_eq!(
        lock.unlock(&mut memory, &mut thread),
        (1, UnlockPhase::Done)
    );
    assert!(lock.try_lock(&mut memory, &mut thread));
}

// State words.
#[test]
fn a_mutex_gets_its_hook_state_from_its_first_acquisition() {
    let mut word = NO_STATE;
    assert_eq!(ensure_state(0x40, word), Ok(Lookup::Absent));
    let installed = offer_state(&mut word, 0x1000);
    assert_eq!(installed, 0x1000);
    assert_eq!(word, installed);
    assert_eq!(
        ensure_state(0x40, word),
        Ok(Lookup::Found { state: installed })
    );
    assert_eq!(
        offer_state(&mut word, 0x2000),
        installed,
        "later acquisitions keep the state the first one installed"
    );
    assert_eq!(ensure_state(0, word), Err(EINVAL));
}

#[test]
fn a_first_touch_through_trylock_installs_the_state_and_returns() {
    let mut memory = NodeMemory::with_nodes(MAX_THREAD_NODES);
    let mut thread = ThreadNodes::new(1);
    let mut word = 0x1000;
    assert_eq!(
        pthread_mutex_init(false, 0x40, &mut word),
        HookDecision::Proceed
    );
    assert_eq!(pthread_mutex_lock(0x40, true), HookDecision::Proceed);
    assert_eq!(ensure_state(0x40, word), Ok(Lookup::Absent));
    let mut lock = McsLockRaw::new(0x2000);
    assert_eq!(offer_state(&mut word, 0x2000), 0x2000);
    assert_eq!(trylock_result(lock.try_lock(&mut memory, &mut thread)), 0);
    assert!(word > 1);
    assert_eq!(
        trylock_result(lock.try_lock(&mut memory, &mut thread)),
        EBUSY
    );
    assert_eq!(
        pthread_mutex_unlock(0x40, true, word),
        HookDecision::Proceed
    );
    lock.unlock(&mut memory, &mut thread);
    assert_eq!(trylock_result(lock.try_lock(&mut memory, &mut thread)), 0);
}

#[test]
fn destroying_a_mutex_that_was_never_locked_releases_nothing() {
    let mut word = NO_STATE;
    assert_eq!(take_state(&mut word, true), None);
    let mut word = 0x1000;
    assert_eq!(take_state(&mut word, true), Some(0x1000));
    assert_eq!(word, NO_STATE);
}

#[test]
fn racing_installers_use_one_state() {
    let mut word = NO_STATE;
    let first = install_step(&mut word, InstallPhase::Look, 0x1000);
    let second = install_step(&mut word, InstallPhase::Look, 0x2000);
    let first = install_step(&mut word, first, 0x1000);
    let second = install_step(&mut word, second, 0x2000);
    assert_eq!(word, INSTALLING);
    let first = install_step(&mut word, first, 0x1000);
    let mut second = install_step(&mut word, second, 0x2000);
    for _ in 0..4 {
        second = install_step(&mut word, second, 0x2000);
    }
    assert_eq!(first, InstallPhase::Done { state: 0x1000 });
    assert_eq!(second, InstallPhase::Done { state: 0x1000 });
}

// Decisions of the hooks.
#[test]
fn the_scope_decides_which_mutexes_are_hooked() {
    let mut mutexes = AddressRegistry::new();
    register_hooked_mutex_addr(&mut mutexes, 0x40);
    assert!(should_hook_mutex(false, &mutexes, 0x80));
    assert!(!should_hook_mutex(true, &mutexes, 0x80));
    assert!(should_hook_mutex(true, &mutexes, 0x40));
}

#[test]
fn hooks_refuse_null_and_leave_the_rest_to_the_real_calls() {
    assert_eq!(pthread_mutex_lock(0x40, false), HookDecision::Real);
    assert_eq!(pthread_mutex_lock(0x40, true), HookDecision::Proceed);
    assert_eq!(
        pthread_mutex_lock(0, true),
        HookDecision::Fail { errno: EINVAL }
    );
    assert_eq!(
        pthread_mutex_unlock(0x40, true, NO_STATE),
        HookDecision::Fail { errno: EINVAL }
    );
    assert_eq!(
        pthread_mutex_unlock(0x40, true, 0x1000),
        HookDecision::Proceed
    );
    assert_eq!(pthread_cond_wait(0x80, 0x40, false), HookDecision::Real);
    assert_eq!(
        pthread_cond_wait(0, 0x40, true),
        HookDecision::Fail { errno: EINVAL }
    );
    assert_eq!(
        pthread_cond_timedwait(0x80, 0x40, 0, false),
        HookDecision::Fail { errno: EINVAL }
    );
    assert_eq!(
        writer_event_bind(0x40, 0, true),
        HookDecision::Fail { errno: EINVAL }
    );
    assert_eq!(
        writer_event_bind(0x40, 0x10, false),
        HookDecision::Fail { errno: ENOTSUP }
    );
    assert_eq!(
        writer_event_bind(0, 0x10, true),
        HookDecision::Fail { errno: EINVAL }
    );
    assert_eq!(writer_event_bind(0x40, 0x10, true), HookDecision::Proceed);
    assert_eq!(trylock_result(true), 0);
    assert_eq!(trylock_result(false), EBUSY);

    let conds = AddressRegistry::new();
    assert_eq!(pthread_cond_signal(true, &conds, 0x80), HookDecision::Real);
    assert_eq!(
        pthread_cond_broadcast(false, &conds, 0),
        HookDecision::Fail { errno: EINVAL }
    );
    assert_eq!(
        pthread_cond_broadcast(false, &conds, 0x80),
        HookDecision::Proceed
    );
}

#[test]
fn creating_empties_a_mutex_and_fills_a_condition_variable() {
    let mut word = 0x1000;
    assert_eq!(
        pthread_mutex_init(true, 0x40, &mut word),
        HookDecision::Real
    );
    assert_eq!(word, 0x1000);
    assert_eq!(
        pthread_mutex_init(false, 0, &mut word),
        HookDecision::Fail { errno: EINVAL }
    );
    assert_eq!(
        pthread_mutex_init(false, 0x40, &mut word),
        HookDecision::Proceed
    );
    assert_eq!(word, NO_STATE);
    assert_eq!(
        pthread_cond_init(false, 0x80, &mut word, 0x2000),
        HookDecision::Proceed
    );
    assert_eq!(word, 0x2000);
    assert_eq!(
        pthread_cond_init(true, 0x80, &mut word, 0x3000),
        HookDecision::Real
    );
    assert_eq!(word, 0x2000);
}

#[test]
fn registering_a_mutex_destroys_the_real_one_first() {
    let mut mutexes = AddressRegistry::new();
    let mut word = NO_STATE;
    assert_eq!(
        register_hooked_mutex(true, &mut mutexes, 0, &mut word, None),
        RegisterDecision::Fail { errno: EINVAL }
    );
    assert_eq!(
        register_hooked_mutex(true, &mut mutexes, 0x40, &mut word, None),
        RegisterDecision::Destroy
    );
    assert_eq!(
        register_hooked_mutex(true, &mut mutexes, 0x40, &mut word, Some(EBUSY)),
        RegisterDecision::Fail { errno: EBUSY }
    );
    assert!(!hooked_mutex_registered(&mutexes, 0x40));
    assert_eq!(
        register_hooked_mutex(true, &mut mutexes, 0x40, &mut word, Some(0)),
        RegisterDecision::Registered
    );
    assert!(hooked_mutex_registered(&mutexes, 0x40));

    // One that has its state keeps it.
    let mut word = 0x1000;
    assert_eq!(
        register_hooked_mutex(true, &mut mutexes, 0x80, &mut word, None),
        RegisterDecision::Registered
    );
    assert_eq!(word, 0x1000);
    assert!(hooked_mutex_registered(&mutexes, 0x80));
    assert_eq!(
        unregister_hooked_mutex(true, &mut mutexes, 0x80, &mut word),
        (HookDecision::Proceed, Some(0x1000))
    );
    assert_eq!(word, NO_STATE);
    assert!(!hooked_mutex_registered(&mutexes, 0x80));
    assert_eq!(
        unregister_hooked_mutex(true, &mut mutexes, 0, &mut word),
        (HookDecision::Fail { errno: EINVAL }, None)
    );
}

#[test]
fn destroying_drops_the_state_of_what_is_hooked() {
    let mut mutexes = AddressRegistry::new();
    let mut word = 0x1000;
    assert_eq!(
        pthread_mutex_destroy(true, &mut mutexes, 0x40, &mut word),
        (HookDecision::Real, None)
    );
    register_hooked_mutex_addr(&mut mutexes, 0x40);
    assert_eq!(
        pthread_mutex_destroy(true, &mut mutexes, 0x40, &mut word),
        (HookDecision::Proceed, Some(0x1000))
    );
    assert_eq!(word, NO_STATE);
    assert!(!hooked_mutex_registered(&mutexes, 0x40));
    assert_eq!(
        pthread_mutex_destroy(false, &mut mutexes, 0x40, &mut word),
        (HookDecision::Proceed, None)
    );

    let mut conds = AddressRegistry::new();
    let mut word = INSTALLING;
    assert_eq!(
        pthread_cond_destroy(false, &mut conds, 0x80, &mut word),
        (HookDecision::Proceed, None)
    );
    assert_eq!(word, INSTALLING);
    let mut word = 0x2000;
    register_hooked_cond_addr(&mut conds, 0x80);
    assert_eq!(
        pthread_cond_destroy(true, &mut conds, 0x80, &mut word),
        (HookDecision::Proceed, Some(0x2000))
    );
    assert_eq!(word, NO_STATE);
    assert!(!hooked_cond_registered(&conds, 0x80));
    assert_eq!(
        pthread_cond_destroy(true, &mut conds, 0, &mut word),
        (HookDecision::Fail { errno: EINVAL }, None)
    );
}

#[test]
fn registered_threads_are_published() {
    let mut registry = ThreadRegistry::new();
    let mut first = false;
    let mut second = false;
    set_registered_thread_count_ptr(&mut registry, true);
    assert_eq!(registry.published, Some(0));
    assert!(register_current_thread(&mut registry, &mut first, true, true));
    assert!(register_current_thread(&mut registry, &mut second, true, true));
    assert!(first && second);
    assert_eq!(registered_thread_count(&registry), 2);
    assert_eq!(registry.published, Some(2));
    unregister_current_thread(&mut registry, &mut first, true, true);
    assert!(!first);
    assert_eq!(registry.published, Some(1));

    // A thread that the map has no room for is not registered.
    assert!(!register_current_thread(&mut registry, &mut first, true, false));
    assert!(!first);
    assert_eq!(registered_thread_count(&registry), 1);
    set_registered_thread_count_ptr(&mut registry, false);
    assert_eq!(registry.published, None);
}

// Routing counters.
#[test]
fn routing_counters_track_published_pointers() {
    let mut counters = RoutingCounters::new();
    assert_eq!(counters.routing_counters(), None);

    let mut storage = [0u64; ROUTING_COUNTER_COUNT];
    for (index, slot) in storage.iter_mut().enumerate() {
        *slot = index as u64;
    }

    let mut slots = [None; ROUTING_COUNTER_COUNT];
    for (slot, value) in slots.iter_mut().zip(storage.iter()) {
        *slot = Some(*value);
    }
    counters.set_routing_counter_ptrs(slots);

    assert_eq!(counters.routing_counters(), Some(storage));

    counters.clear_routing_counter_ptrs();
    assert_eq!(counters.routing_counters(), None);
}

#[test]
fn routing_counters_have_names_of_their_own() {
    let names: Vec<&str> = (0..ROUTING_COUNTER_COUNT).map(routing_counter_name).collect();
    for (i, name) in names.iter().enumerate() {
        assert!(!name.is_empty());
        assert!(!names[..i].contains(name));
    }
}

// The plain hooks.
#[test]
fn signals_release_waiters_in_order() {
    let mut cond = CondState::new();
    let mut first = cond.wait_begin();
    let mut second = cond.wait_begin();
    assert_eq!((first.ticket, second.ticket), (1, 2));
    assert_eq!(first.check(), Some(0));
    cond.signal();
    first.woken(&cond, false, false, 0);
    second.woken(&cond, false, false, 0);
    assert_eq!(first.check(), None);
    assert_eq!(second.check(), Some(1));
    cond.broadcast();
    second.woken(&cond, false, true, EINTR);
    assert_eq!(second.check(), None);
    assert_eq!(second.ret, 0);
    assert!(wait_should_continue(2, 1));
    assert!(!wait_should_continue(2, 2));
}

#[test]
fn tickets_go_on_past_the_largest_number() {
    let mut cond = CondState {
        seq: u32::MAX,
        target: u32::MAX,
    };
    let mut wait = cond.wait_begin();
    assert_eq!(wait.ticket, 0);
    assert_eq!(wait.check(), Some(u32::MAX));
    cond.signal();
    wait.woken(&cond, false, false, 0);
    assert_eq!(wait.check(), None);
}

#[test]
fn a_sleep_times_out_on_its_deadline_alone() {
    let mut cond = CondState::new();
    let mut wait = cond.wait_begin();
    wait.woken(&cond, true, true, EINTR);
    assert_eq!(wait.check(), Some(0));
    wait.woken(&cond, true, false, ETIMEDOUT);
    assert_eq!(wait.check(), Some(0));
    wait.woken(&cond, false, true, ETIMEDOUT);
    assert_eq!(wait.check(), Some(0));
    wait.woken(&cond, true, true, ETIMEDOUT);
    assert_eq!(wait.check(), None);
    assert_eq!(wait.ret, ETIMEDOUT);
}

#[test]
fn a_plain_lock_waits_only_where_trying_failed() {
    let run = |tried: bool| {
        let mut action = LockAction::TryLock;
        let mut actions = Vec::new();
        while action != LockAction::Done {
            actions.push(action);
            action = lb::lock_with_stats(action, tried);
        }
        actions
    };
    assert_eq!(
        run(true),
        vec![LockAction::TryLock, LockAction::RecordAcquired]
    );
    assert_eq!(
        run(false),
        vec![
            LockAction::TryLock,
            LockAction::BeginWait,
            LockAction::Lock,
            LockAction::EndWait,
            LockAction::RecordAcquired
        ]
    );
}

#[test]
fn plain_hooks_refuse_null() {
    let mut word = NO_STATE;
    assert_eq!(lb::ensure_state(0, word), Err(EINVAL));
    assert_eq!(lb::pthread_mutex_init(0, &mut word, 0x1000), EINVAL);
    assert_eq!(lb::pthread_cond_init(0, &mut word, 0x1000), EINVAL);
    assert_eq!(word, NO_STATE);
    assert_eq!(lb::pthread_mutex_destroy(0, &mut word), (EINVAL, None));
    assert_eq!(lb::pthread_cond_destroy(0, &mut word), (EINVAL, None));
    let refused = HookDecision::Fail { errno: EINVAL };
    assert_eq!(lb::pthread_cond_wait(0, 0x40), refused);
    assert_eq!(lb::pthread_cond_wait(0x80, 0), refused);
    assert_eq!(lb::pthread_cond_wait(0x80, 0x40), HookDecision::Proceed);
    assert_eq!(lb::pthread_cond_timedwait(0x80, 0x40, 0), refused);
    assert_eq!(
        lb::pthread_cond_timedwait(0x80, 0x40, 0xc0),
        HookDecision::Proceed
    );
    assert_eq!(
        lb::pthread_mutex_unlock(0x40, NO_STATE),
        HookDecision::Fail { errno: EINVAL }
    );
    assert_eq!(lb::pthread_mutex_trylock(0, true), EINVAL);
    assert_eq!(lb::pthread_mutex_trylock(0x40, true), 0);
    assert_eq!(lb::pthread_mutex_trylock(0x40, false), EBUSY);
}

#[test]
fn a_plain_mutex_holds_its_state_until_it_is_destroyed() {
    let mut word = NO_STATE;
    assert_eq!(lb::ensure_state(0x40, word), Ok(InstallPhase::Look));
    assert_eq!(lb::ensure_state(0x40, INSTALLING), Ok(InstallPhase::Look));
    assert_eq!(lb::pthread_mutex_init(0x40, &mut word, 0x1000), 0);
    assert_eq!(
        lb::ensure_state(0x40, word),
        Ok(InstallPhase::Done { state: 0x1000 })
    );
    assert_eq!(
        lb::pthread_mutex_unlock(0x40, word),
        HookDecision::Proceed
    );
    assert_eq!(
        lb::pthread_mutex_destroy(0x40, &mut word),
        (0, Some(0x1000))
    );
    assert_eq!(word, NO_STATE);
    assert_eq!(lb::pthread_mutex_destroy(0x40, &mut word), (0, None));
    assert_eq!(lb::pthread_cond_init(0x80, &mut word, 0x2000), 0);
    assert_eq!(
        lb::pthread_cond_destroy(0x80, &mut word),
        (0, Some(0x2000))
    );
}

#[test]
fn a_ticket_wait_unlocks_first_and_relocks_last() {
    let mut cond = CondState::new();
    let mut wait = cond.wait_begin();
    let sleep = ticket_next(TicketAction::Unlock, &wait);
    assert_eq!(sleep, TicketAction::Sleep { expected: 0 });
    wait.woken(&cond, false, true, EINTR);
    assert_eq!(ticket_next(sleep, &wait), TicketAction::Sleep { expected: 0 });
    cond.signal();
    wait.woken(&cond, false, false, 0);
    let relock = ticket_next(sleep, &wait);
    assert_eq!(relock, TicketAction::Relock);
    assert_eq!(ticket_next(relock, &wait), TicketAction::Done);

    // A ticket that is released already needs no sleep.
    cond.signal();
    let wait = cond.wait_begin();
    assert_eq!(ticket_next(TicketAction::Unlock, &wait), TicketAction::Relock);
}

#[test]
fn a_cond_is_registered_as_its_state_is_installed() {
    for scope in [false, true] {
        let mut conds = AddressRegistry::new();
        let mut word = NO_STATE;
        let before = if scope {
            HookDecision::Real
        } else {
            HookDecision::Proceed
        };
        assert_eq!(pthread_cond_signal(scope, &conds, 0x80), before);
        let mut phase = InstallPhase::Look;
        let mut steps = 0;
        while phase != (InstallPhase::Done { state: 0x1000 }) {
            assert_eq!(hooked_cond_registered(&conds, 0x80), false);
            phase = ensure_cond_state_step(scope, &mut conds, 0x80, &mut word, phase, 0x1000);
            steps += 1;
        }
        assert_eq!((word, steps), (0x1000, 3));
        assert_eq!(hooked_cond_registered(&conds, 0x80), scope);
        assert_eq!(
            pthread_cond_signal(scope, &conds, 0x80),
            HookDecision::Proceed
        );
        // Who finds the state registers nothing.
        let mut other = AddressRegistry::new();
        ensure_cond_state_step(scope, &mut other, 0x80, &mut word, InstallPhase::Look, 0x2000);
        assert!(!hooked_cond_registered(&other, 0x80));
        cond_installed(scope, &mut other, 0);
        assert!(!hooked_cond_registered(&other, 0));
    }
}
