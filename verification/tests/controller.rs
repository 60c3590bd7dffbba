use accordin::accordin_shared::cpu_affinity::{
    configured_cpu_count_env_present, current_available_cpu_count, current_dynamic_cpu_count,
    current_first_numa_available_cpu_count, update_dynamic_cpu_count,
};
use accordin::accordin_shared::test_support::{deadline_in, deadline_in_millis, Timespec};
use accordin::accordin_shared::timeslice_extension::{
    abort_message, current_thread_timeslice_extension_status, init_timeslice_thread_state,
    is_unsupported_errno, Abort, CriticalSectionTimesliceExtension, InitStage, Reason, RseqFacts,
    RseqSliceCtrl, RseqWithSliceCtrl, TimesliceExtensionMode, TimesliceThreadState, ENOSYS,
    EOPNOTSUPP, KERNEL_ENOTSUPP, RSEQ_CS_FLAG_SLICE_EXT_AVAILABLE,
};
use accordin::classify::{
    classify_task, ClassifyConfig, TaskState, TASK_CANDIDATE, TASK_LOCK_INTENSIVE, TASK_NORMAL,
};
use accordin::controller::{
    checked_totals, child_status, collect, control_step, has_exited, log_level, tick, times_fit,
    wait_for_child_stop, write_initial_config, ChildStatus, EpochReader, LogLevel, LoopStep,
    StopWait, Tuning,
};
use accordin::epoch::{
    checked_epoch_ns, epoch_ns_from_env, has_state, init_slot, mmap_size, pthread_cond_wait,
    pthread_mutex_lock, pthread_mutex_trylock, read_step, slot_fd_from_env, slot_id, write_step,
    EpochSlot, EpochSnapshot, EpochState, EpochSums, LockAction, ReadPhase, WaitAction,
    WritePhase, DEFAULT_EPOCH_NS, MAX_SLOTS,
};
use accordin::errno::{EAGAIN, EBUSY, EINTR, EINVAL, ENOTSUP, ETIMEDOUT};
use accordin::lb_shared::cpu_affinity::CPU_SETSIZE;
use accordin::loader::{
    budget_text, inactive_pool_distributed, init_direct_ebpf, init_ebpf,
    initial_lock_budget_from_env, LoaderEnv,
};

// Classes of tasks.
fn config() -> ClassifyConfig {
    ClassifyConfig {
        enter_threshold_pct: 10,
        exit_threshold_pct: 5,
        min_contended_acq: 64,
        hot_epochs_needed: 3,
        cool_epochs_needed: 2,
    }
}

#[test]
fn skipped_epochs_neither_count_nor_break_a_row() {
    let cfg = config();
    let mut task = TaskState::new(42, 40);
    let hot = |task: &mut TaskState, epoch: u32| classify_task(task, 50, 100, 99, epoch, &cfg);
    assert_eq!(hot(&mut task, 1), TASK_CANDIDATE);
    assert_eq!(hot(&mut task, 2), TASK_CANDIDATE);
    // A cold epoch starts the row over.
    assert_eq!(classify_task(&mut task, 0, 100, 99, 3, &cfg), TASK_NORMAL);
    assert_eq!(hot(&mut task, 4), TASK_CANDIDATE);
    // Epochs without a run, and the same epoch again, are skipped.
    assert_eq!(classify_task(&mut task, 0, 0, 0, 5, &cfg), TASK_CANDIDATE);
    assert_eq!(classify_task(&mut task, 0, 100, 0, 4, &cfg), TASK_CANDIDATE);
    assert_eq!(hot(&mut task, 6), TASK_CANDIDATE);
    assert_eq!(classify_task(&mut task, 0, 0, 0, 7, &cfg), TASK_CANDIDATE);
    assert_eq!(hot(&mut task, 8), TASK_LOCK_INTENSIVE);
}

#[test]
fn enough_hot_epochs_promote_a_task() {
    let mut task = TaskState::new(7, 5);
    let cfg = config();
    assert_eq!(classify_task(&mut task, 10, 100, 64, 1, &cfg), TASK_CANDIDATE);
    // The same epoch counts once.
    assert_eq!(classify_task(&mut task, 10, 100, 64, 1, &cfg), TASK_CANDIDATE);
    assert_eq!(task.hot_epochs, 1);
    assert_eq!(classify_task(&mut task, 50, 100, 99, 2, &cfg), TASK_CANDIDATE);
    assert_eq!(
        classify_task(&mut task, 50, 100, 99, 3, &cfg),
        TASK_LOCK_INTENSIVE
    );
}

#[test]
fn a_cold_epoch_starts_over() {
    let mut task = TaskState::new(7, 5);
    let cfg = config();
    classify_task(&mut task, 10, 100, 64, 1, &cfg);
    // Long waits without contention are not hot.
    assert_eq!(classify_task(&mut task, 90, 100, 63, 2, &cfg), TASK_NORMAL);
    assert_eq!(task.hot_epochs, 0);
    assert_eq!(classify_task(&mut task, 9, 100, 64, 3, &cfg), TASK_NORMAL);
    // An epoch in which the task did not run does not count.
    assert_eq!(classify_task(&mut task, 90, 0, 64, 4, &cfg), TASK_NORMAL);
    assert_eq!(task.last_epoch, 3);
}

#[test]
fn a_lock_intensive_task_cools_down_slowly() {
    let mut task = TaskState {
        cls: TASK_LOCK_INTENSIVE,
        ..TaskState::new(7, 5)
    };
    let cfg = config();
    assert_eq!(
        classify_task(&mut task, 5, 100, 0, 1, &cfg),
        TASK_LOCK_INTENSIVE
    );
    assert_eq!(
        classify_task(&mut task, 6, 100, 0, 2, &cfg),
        TASK_LOCK_INTENSIVE
    );
    assert_eq!(task.cool_epochs, 0);
    classify_task(&mut task, 0, 100, 0, 3, &cfg);
    assert_eq!(classify_task(&mut task, 0, 100, 0, 4, &cfg), TASK_NORMAL);
}

// Epochs.
fn empty_slot() -> EpochSlot {
    EpochSlot {
        tid: 0,
        tgid: 0,
        slot_id: 0,
        epoch_id: 0,
        lock_domain_id: 9,
        wait_ns: 0,
        hold_ns: 0,
        park_ns: 0,
        contended_acq: 0,
        park_count: 0,
        seq: 5,
        flags: 3,
    }
}

fn sums(n: u64) -> EpochSums {
    EpochSums {
        epoch_id: n as u32,
        wait_ns: n + 1,
        hold_ns: n + 2,
        park_ns: n + 3,
        contended_acq: n + 4,
        park_count: n + 5,
    }
}

#[test]
fn threads_share_out_the_slots_behind_the_first() {
    assert_eq!(slot_id(0), 1);
    assert_eq!(slot_id(MAX_SLOTS - 2), MAX_SLOTS - 1);
    assert_eq!(slot_id(MAX_SLOTS - 1), 1);
    let mut slot = empty_slot();
    init_slot(&mut slot, 42, 40);
    assert_eq!((slot.tid, slot.tgid, slot.slot_id, slot.seq), (42, 40, 43, 0));
}

#[test]
fn an_epoch_sums_up_waits_holds_and_sleeps() {
    let mut state = EpochState::new(42, 40, 1_000, 10_000, true);
    state.on_contention_start(10_100);
    assert!(state.has_room(10_150));
    assert_eq!(state.on_lock_acquired(true, 10_150), None);
    state.on_lock_released(10_180);
    state.on_park_start(10_200);
    state.on_park_end(10_300);
    assert_eq!(
        state.on_lock_acquired(false, 11_000),
        Some(EpochSums {
            epoch_id: 0,
            wait_ns: 50,
            hold_ns: 30,
            park_ns: 100,
            contended_acq: 1,
            park_count: 1,
        })
    );
    assert_eq!(state.epoch_id, 1);
    assert_eq!(state.epoch_start_ns, 11_000);
    assert_eq!(state.wait_ns, 0);

    // A thread without a slot has nowhere to publish.
    let mut state = EpochState::new(42, 40, 1_000, 10_000, false);
    assert_eq!(state.flush_and_reset(12_000), None);
    assert_eq!(state.epoch_id, 1);
}

fn read(slot: &EpochSlot, steps: usize) -> ReadPhase {
    let mut phase = ReadPhase::Begin;
    for _ in 0..steps {
        phase = read_step(slot, phase);
    }
    phase
}

#[test]
fn a_read_sees_one_write() {
    let mut slot = empty_slot();
    init_slot(&mut slot, 42, 40);

    // A read that a write overtakes begins again.
    let mut reading = ReadPhase::Begin;
    for _ in 0..3 {
        reading = read_step(&slot, reading);
    }
    let mut writing = WritePhase::Begin;
    writing = write_step(&mut slot, writing, &sums(100));
    assert_eq!(read(&slot, 11), ReadPhase::Begin);
    for _ in 0..8 {
        reading = read_step(&slot, reading);
    }
    assert_eq!(reading, ReadPhase::Begin);
    while writing != WritePhase::Done {
        writing = write_step(&mut slot, writing, &sums(100));
    }
    assert_eq!(slot.seq, 2);
    assert_eq!(slot.lock_domain_id, 0);
    assert_eq!(slot.flags, 3);
    assert_eq!(
        read(&slot, 11),
        ReadPhase::Done {
            snapshot: EpochSnapshot {
                tid: 42,
                tgid: 40,
                slot_id: 43,
                epoch_id: 100,
                wait_ns: 101,
                hold_ns: 102,
                park_ns: 103,
                contended_acq: 104,
                park_count: 105,
            }
        }
    );
}

#[test]
fn epoch_settings_are_read_from_the_environment() {
    assert_eq!(epoch_ns_from_env(None), DEFAULT_EPOCH_NS);
    assert_eq!(epoch_ns_from_env(Some("x")), DEFAULT_EPOCH_NS);
    assert_eq!(epoch_ns_from_env(Some("5")), 5_000_000);
    assert_eq!(checked_epoch_ns(Some("18446744073709551615")), None);
    assert_eq!(slot_fd_from_env(Some("7")), Some(7));
    assert_eq!(slot_fd_from_env(Some("-1")), None);
    assert_eq!(slot_fd_from_env(Some("x")), None);
    assert_eq!(slot_fd_from_env(None), None);
    assert_eq!(mmap_size(4_097, 4_096), 8_192);
    assert_eq!(mmap_size(4_096, 4_096), 4_096);
}

#[test]
fn the_summing_hooks_time_their_waits() {
    let mut action = LockAction::TryLock;
    let mut actions = Vec::new();
    while action != LockAction::Done {
        actions.push(action);
        action = pthread_mutex_lock(action, false);
    }
    assert_eq!(
        actions,
        vec![
            LockAction::TryLock,
            LockAction::ContentionStart,
            LockAction::Lock,
            LockAction::Acquired { was_contended: true }
        ]
    );
    assert_eq!(
        pthread_mutex_lock(LockAction::TryLock, true),
        LockAction::Acquired {
            was_contended: false
        }
    );

    let mut action = WaitAction::LockReal;
    let mut actions = Vec::new();
    while action != WaitAction::Done {
        actions.push(action);
        action = pthread_cond_wait(action);
    }
    assert_eq!(actions.len(), 10);
    assert_eq!(actions[3], WaitAction::ParkStart);
    assert_eq!(actions[9], WaitAction::Acquired);
    assert_eq!(pthread_mutex_trylock(true), 0);
    assert_eq!(pthread_mutex_trylock(false), EBUSY);
    assert!(!has_state(0));
    assert!(!has_state(1));
    assert!(has_state(0x1000));
}

// The controller.
#[test]
fn the_scheduler_starts_with_what_was_chosen() {
    let tuning = Tuning::default();
    assert!(times_fit(&tuning));
    let config = write_initial_config(&tuning);
    assert_eq!(config.epoch_ns, 20_000_000);
    assert_eq!(config.control_period_ns, 100_000_000);
    assert_eq!(config.min_contended_acq, 64);
    assert_eq!(config.max_ssc_width, 32);
    assert_eq!(config.partial_mode, 0);
    assert!(!times_fit(&Tuning {
        epoch_ms: u64::MAX,
        ..Tuning::default()
    }));
    assert_eq!(log_level(true, false), LogLevel::Debug);
    assert_eq!(log_level(false, true), LogLevel::Info);
    assert_eq!(log_level(false, false), LogLevel::Warn);
}

#[test]
fn an_iteration_reports_the_sums_over_all_threads() {
    let mut first = empty_slot();
    init_slot(&mut first, 1, 1);
    first.wait_ns = 10;
    first.hold_ns = 3;
    let mut second = empty_slot();
    init_slot(&mut second, 2, 1);
    second.wait_ns = 20;
    second.contended_acq = 4;
    let snapshots = collect(&vec![empty_slot(), first, second]);
    assert_eq!(snapshots.len(), 2);
    assert_eq!(snapshots[1].tid, 2);
    assert_eq!(
        tick(&snapshots, true),
        Some("epoch: threads=2 wait_ns=30 hold_ns=3 park_ns=0 contended_acq=4".to_string())
    );
    assert_eq!(tick(&snapshots, false), None);
    assert_eq!(tick(&vec![], true), None);

    let huge = EpochSnapshot {
        wait_ns: u64::MAX,
        ..EpochSnapshot::default()
    };
    assert_eq!(checked_totals(&vec![huge, snapshots[0]]), None);
    assert_eq!(checked_totals(&snapshots).unwrap().wait_ns, 30);
}

#[test]
fn a_reader_waits_for_a_write_to_end() {
    let mut slots = vec![empty_slot(), empty_slot(), empty_slot()];
    init_slot(&mut slots[1], 42, 40);
    let mut reader = EpochReader::new();
    let mut writing = write_step(&mut slots[1], WritePhase::Begin, &sums(7));
    for _ in 0..20 {
        reader.collect_step(&slots[reader.index]);
    }
    assert_eq!(reader.index, 1);
    while writing != WritePhase::Done {
        writing = write_step(&mut slots[1], writing, &sums(7));
    }
    while reader.index < slots.len() {
        reader.collect_step(&slots[reader.index]);
    }
    assert_eq!(reader.snapshots.len(), 1);
    assert_eq!(reader.snapshots[0].epoch_id, 7);
    assert_eq!(reader.snapshots[0].park_count, 12);
}

#[test]
fn a_status_says_what_became_of_a_child() {
    assert_eq!(child_status(0x137f), ChildStatus::Stopped);
    assert_eq!(child_status(0x0200), ChildStatus::Exited { status: 2 });
    assert_eq!(child_status(0), ChildStatus::Exited { status: 0 });
    assert_eq!(child_status(9), ChildStatus::Signaled { signal: 9 });
    // The core was dumped.
    assert_eq!(child_status(0x8b), ChildStatus::Signaled { signal: 11 });
    // The child was continued.
    assert_eq!(child_status(0xffff), ChildStatus::Other);
}

#[test]
fn a_child_stops_before_it_runs() {
    assert_eq!(wait_for_child_stop(-1, true, 0), StopWait::Again);
    assert_eq!(wait_for_child_stop(-1, false, 0x137f), StopWait::WaitFailed);
    assert_eq!(wait_for_child_stop(9, false, 0x137f), StopWait::Stopped);
    assert_eq!(
        wait_for_child_stop(9, false, 0x0200),
        StopWait::Exited { status: 2 }
    );
    assert_eq!(
        wait_for_child_stop(9, false, 9),
        StopWait::Signaled { signal: 9 }
    );
    assert_eq!(wait_for_child_stop(9, false, 0xffff), StopWait::Again);
    assert!(!has_exited(0));
    assert!(has_exited(-1));
    assert!(has_exited(9));
}

#[test]
fn a_late_iteration_does_not_move_the_next_one() {
    assert_eq!(control_step(true, None, 0, 100, 50), LoopStep::ShutDown);
    assert_eq!(
        control_step(false, Some(true), 0, 100, 50),
        LoopStep::ChildFinished
    );
    assert_eq!(
        control_step(false, Some(false), 30, 100, 50),
        LoopStep::Tick {
            sleep_ns: 70,
            next_tick_ns: 150
        }
    );
    assert_eq!(
        control_step(false, None, 400, 100, 50),
        LoopStep::Tick {
            sleep_ns: 0,
            next_tick_ns: 150
        }
    );
}

// Loading.
#[test]
fn a_hook_library_loads_the_scheduler_unless_it_is_disabled() {
    let quiet = LoaderEnv {
        disable_bpf: None,
        stats_only: None,
        debug_counters: None,
        bpf_debug: None,
        inactive_pool: None,
        requested_cpus: Some(8),
    };
    let plan = init_ebpf(&quiet);
    assert!(plan.load_scheduler && plan.set_affinity && !plan.debug);
    assert_eq!(plan.initial_lock_budget, 0);

    let plan = init_ebpf(&LoaderEnv {
        disable_bpf: Some("1"),
        bpf_debug: Some("1"),
        inactive_pool: Some(" Distributed "),
        ..quiet
    });
    assert!(!plan.load_scheduler && !plan.set_affinity && !plan.debug);
    assert_eq!(plan.initial_lock_budget, 8);

    assert!(inactive_pool_distributed(Some("1")));
    assert!(!inactive_pool_distributed(Some("global")));
    assert_eq!(initial_lock_budget_from_env(None), 0);
    assert_eq!(budget_text(0), "all");
    assert_eq!(budget_text(12), "12");
    assert_eq!(init_direct_ebpf(Some("1"), Some("1")), None);
    assert_eq!(init_direct_ebpf(None, Some("1")), Some(true));
    assert_eq!(init_direct_ebpf(Some("0"), None), Some(false));
}

#[test]
fn affinity_is_the_business_of_the_scheduler() {
    assert!(!configured_cpu_count_env_present());
    assert_eq!(update_dynamic_cpu_count(4), Ok(None));
    assert_eq!(current_dynamic_cpu_count(), None);
    assert_eq!(current_first_numa_available_cpu_count(), None);
    assert_eq!(current_available_cpu_count(), None);
}

#[test]
fn a_deadline_carries_over_into_seconds() {
    let now = Timespec {
        tv_sec: 5,
        tv_nsec: 999_000_000,
    };
    let deadline = deadline_in(now, 1_500_000);
    assert_eq!((deadline.tv_sec, deadline.tv_nsec), (6, 500_000));
    let deadline = deadline_in_millis(now, 2);
    assert_eq!((deadline.tv_sec, deadline.tv_nsec), (6, 1_000_000));
}

// Time-slice extension.
fn facts(can_yield: bool, size: u32, flags: u32) -> RseqFacts {
    RseqFacts {
        can_yield,
        size,
        area: Some(RseqWithSliceCtrl {
            flags,
            slice_ctrl: RseqSliceCtrl { all: 0 },
        }),
    }
}

fn refused(stage: InitStage) -> (Option<Reason>, i32) {
    match stage {
        InitStage::Known { state } => {
            assert!(state.initialized && !state.enabled);
            (state.reason, state.error_number)
        }
        _ => panic!("the answer is not known yet"),
    }
}

#[test]
fn a_thread_finds_out_why_it_has_no_extension() {
    let available = RSEQ_CS_FLAG_SLICE_EXT_AVAILABLE;
    let step = |stage: InitStage, facts: &RseqFacts, answer: i32, err: i32| {
        let mut ctrl = RseqSliceCtrl { all: 0x101 };
        let next = init_timeslice_thread_state(stage, facts, answer, err, &mut ctrl);
        let granted = matches!(next, InitStage::Known { state } if state.enabled);
        assert_eq!(ctrl.all, if granted { 0 } else { 0x101 });
        next
    };
    let look = |facts: &RseqFacts| step(InitStage::Look, facts, 0, 0);
    assert_eq!(
        refused(look(&facts(false, 32, available))).0,
        Some(Reason::NoYield)
    );
    assert_eq!(
        refused(look(&facts(true, 0, available))).0,
        Some(Reason::NotRegistered)
    );
    assert_eq!(
        refused(look(&facts(true, 31, available))).0,
        Some(Reason::AreaTooSmall)
    );
    assert_eq!(
        refused(look(&facts(true, 32, 0))).0,
        Some(Reason::NotAdvertised)
    );

    let good = facts(true, 32, available);
    assert_eq!(look(&good), InitStage::Query);
    let query = |answer, err| step(InitStage::Query, &good, answer, err);
    assert_eq!(
        refused(query(-1, EINVAL)),
        (Some(Reason::GetFailed), EINVAL)
    );
    assert_eq!(query(0, 0), InitStage::Enable);
    let enable = |answer, err| step(InitStage::Enable, &good, answer, err);
    assert_eq!(
        refused(enable(-1, ENOSYS)),
        (Some(Reason::SetFailed), ENOSYS)
    );
    assert_eq!(enable(0, 0), query(1, 0));
    assert!(matches!(
        enable(0, 0),
        InitStage::Known { state } if state.enabled
    ));
}

fn enabled_state() -> TimesliceThreadState {
    TimesliceThreadState {
        initialized: true,
        enabled: true,
        ..TimesliceThreadState::new()
    }
}

#[test]
fn a_critical_section_asks_for_time_and_takes_the_request_back() {
    let extension = CriticalSectionTimesliceExtension::new(TimesliceExtensionMode::Auto);
    let state = enabled_state();
    let mut ctrl = RseqSliceCtrl { all: 0 };
    extension.on_critical_section_enter(&state, &mut ctrl);
    assert_eq!(ctrl.all, 1);
    assert!(!extension.on_critical_section_exit(&state, &mut ctrl));
    assert_eq!(ctrl.all, 0);

    // Granted time is paid for with a yield.
    extension.on_critical_section_enter(&state, &mut ctrl);
    ctrl.all |= 0x100;
    assert!(extension.on_critical_section_exit(&state, &mut ctrl));
    assert_eq!(ctrl.all, 0x100);
    assert_eq!(ctrl.granted(), 1);

    let off = CriticalSectionTimesliceExtension::new(TimesliceExtensionMode::Off);
    let mut ctrl = RseqSliceCtrl { all: 0 };
    off.on_critical_section_enter(&state, &mut ctrl);
    assert_eq!(ctrl.all, 0);
}

#[test]
fn a_yield_that_is_not_supported_turns_the_extension_off() {
    let auto = CriticalSectionTimesliceExtension::new(TimesliceExtensionMode::Auto);
    let require = CriticalSectionTimesliceExtension::new(TimesliceExtensionMode::Require);
    let mut state = enabled_state();
    assert_eq!(auto.after_yield(&mut state, 0, ENOSYS), None);
    assert_eq!(auto.after_yield(&mut state, -1, EINTR), None);
    assert!(state.enabled);
    assert_eq!(auto.after_yield(&mut state, -1, ENOSYS), None);
    assert!(!state.enabled);
    assert_eq!(state.reason, Some(Reason::YieldUnavailable));

    let mut state = enabled_state();
    let abort = require.after_yield(&mut state, -1, KERNEL_ENOTSUPP);
    assert_eq!(
        abort,
        Some(Abort {
            reason: Some(Reason::YieldUnavailable),
            error_number: KERNEL_ENOTSUPP
        })
    );
    assert_eq!(require.prepare_thread(&state), abort);
    assert_eq!(auto.prepare_thread(&state), None);
    assert!(is_unsupported_errno(EOPNOTSUPP));
    assert!(!is_unsupported_errno(EBUSY));
}

#[test]
fn the_status_of_a_thread_depends_on_the_mode() {
    let state = enabled_state();
    assert!(
        current_thread_timeslice_extension_status(TimesliceExtensionMode::Auto, &state).enabled
    );
    assert!(
        !current_thread_timeslice_extension_status(TimesliceExtensionMode::Off, &state).enabled
    );
    assert_eq!(TimesliceExtensionMode::Require.as_str(), "require");
    assert_eq!(
        abort_message(
            "initialization",
            &Abort {
                reason: Some(Reason::NotRegistered),
                error_number: 0
            },
            ""
        ),
        "timeslice extension initialization failed: glibc did not register rseq for this thread"
    );
    assert_eq!(
        abort_message(
            "yield",
            &Abort {
                reason: None,
                error_number: ENOSYS
            },
            "Function not implemented"
        ),
        "timeslice extension yield failed: unknown failure (errno=38, Function not implemented)"
    );
}

#[test]
fn error_numbers_are_those_of_the_system() {
    assert_eq!(EINTR, libc::EINTR);
    assert_eq!(EAGAIN, libc::EAGAIN);
    assert_eq!(EBUSY, libc::EBUSY);
    assert_eq!(EINVAL, libc::EINVAL);
    assert_eq!(ENOTSUP, libc::ENOTSUP);
    assert_eq!(ETIMEDOUT, libc::ETIMEDOUT);
    assert_eq!(ENOSYS, libc::ENOSYS);
    assert_eq!(EOPNOTSUPP, libc::EOPNOTSUPP);
    assert_eq!(CPU_SETSIZE, libc::CPU_SETSIZE as usize);
}

#[test]
fn a_status_is_enabled_or_has_a_reason() {
    let auto = CriticalSectionTimesliceExtension::new(TimesliceExtensionMode::Auto);
    let mut state = enabled_state();
    let status = current_thread_timeslice_extension_status(TimesliceExtensionMode::Auto, &state);
    assert!(status.enabled);
    assert_eq!((status.reason, status.error_number), (None, 0));

    auto.after_yield(&mut state, -1, EINTR);
    auto.after_yield(&mut state, -1, ENOSYS);
    auto.after_yield(&mut state, 0, 0);
    let status = current_thread_timeslice_extension_status(TimesliceExtensionMode::Auto, &state);
    assert!(!status.enabled);
    assert_eq!(status.reason, Some(Reason::YieldUnavailable));
    assert_eq!(status.error_number, ENOSYS);
    let off = current_thread_timeslice_extension_status(TimesliceExtensionMode::Off, &state);
    assert!(!off.enabled);
    assert_eq!((off.reason, off.error_number), (None, 0));
}
