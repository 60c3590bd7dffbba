use accordin::accordin_shared::condvar::{
    announce_cv_requeue_override, claim_one, cv_switches, force_cv_requeue_for_thread,
    publish_sleep_next, publish_sleep_state, relock_mode, start_drain_chain, wait_begin,
    wait_check, wait_end, wait_expired, wait_next, wait_woken, CondAction, CondMutex, CondRelock,
    CondStaging, CondStagingBlock, CondStagingRef, CondState, CondWait, CvSwitches, RequeueStep,
    SleepPublication, StageWake, StagingArena, WaitAction, WaitStep, WaitWake, NO_BLOCK,
    REQUEUE_ATTEMPTS,
    RETIRED_BLOCK,
};
use accordin::accordin_shared::mutex_hook::HookCounters;
use accordin::accordin_shared::test_support::{measure_debug_counters, waking_thread};
use accordin::errno::{EAGAIN, EINTR, EINVAL, ETIMEDOUT};

const HINT_LOCK_ID: u32 = 4;
const ROUTE_LOCK_ID: u32 = 5;
const SMOKE_LOCK_ID: u32 = 6;

/// Everything that one thread of a process reaches.
struct World {
    arena: StagingArena,
    counters: HookCounters,
    switches: CvSwitches,
    held: usize,
}

impl World {
    fn new() -> Self {
        let mut switches = cv_switches(None, None, None);
        announce_cv_requeue_override(&mut switches);
        Self {
            arena: StagingArena::new(),
            counters: HookCounters::new(),
            switches,
            held: NO_BLOCK,
        }
    }

    fn lock(&mut self, mutex: &SpinMutex) {
        mutex.staging.handle().publish_hold(&mut self.held, &self.switches);
    }

    fn unlock(&mut self, mutex: &SpinMutex) {
        let staging = mutex.staging.handle();
        staging.clear_hold(&mut self.held, &self.switches);
        staging.drain_one(&mut self.arena, &mut self.counters, &self.switches);
    }

    fn bind(&mut self, cond: &mut CondState, mutex: &mut SpinMutex) {
        let staging = mutex.cond_mutex(self, SMOKE_LOCK_ID).staging;
        cond.bind_staging(&mut self.arena, staging, &mut self.counters);
    }

    /// A broadcast while `sleeping` waiters sleep on the cond.
    fn broadcast(&mut self, cond: &mut CondState, sleeping: u32) -> Option<StageWake> {
        match cond.broadcast(&self.arena, &self.switches) {
            CondAction::Requeue { block, expected, attempt } => {
                assert_eq!(expected, cond.seq);
                match cond.requeue_waiters(
                    &mut self.arena,
                    &mut self.counters,
                    self.held,
                    block,
                    attempt,
                    Ok(sleeping),
                ) {
                    RequeueStep::Done { wake } => Some(wake),
                    RequeueStep::Again { .. } => None,
                }
            }
            _ => None,
        }
    }

    fn stage(&mut self, mutex: &mut SpinMutex, moved: u32) {
        let name = mutex.block(self);
        let mut block = self.arena.get(name);
        block.stage_waiters(moved, &mut self.counters);
        self.arena.blocks[name / 2 - 1] = block;
    }

    /// Releases one waiter that is parked on a mutex.
    fn drain(&mut self, mutex: &SpinMutex) -> bool {
        mutex
            .staging
            .handle()
            .drain_one(&mut self.arena, &mut self.counters, &self.switches)
    }

    fn staged(&self, mutex: &SpinMutex) -> u32 {
        mutex.staging.staged_count(&self.arena)
    }
}

struct SpinMutex {
    staging: CondStaging,
}

impl SpinMutex {
    fn new() -> Self {
        Self { staging: CondStaging::new() }
    }

    fn cond_mutex(&mut self, world: &mut World, lock_id: u32) -> CondMutex {
        let switches = world.switches;
        CondMutex::new(lock_id, true, self.staging.binding_handle(&mut world.arena, &switches))
    }

    fn block(&mut self, world: &mut World) -> usize {
        self.staging.ensure_block(&mut world.arena, true)
    }
}

fn scoped(lock_id: u32) -> CondMutex {
    CondMutex::new(lock_id, true, CondStagingRef::none())
}

fn routed_switches(route: bool) -> CvSwitches {
    cv_switches(None, if route { Some("1") } else { Some("0") }, None)
}

#[test]
fn routing_off_publishes_the_cond_reacquire_hint() {
    let switches = routed_switches(false);
    let mut counters = HookCounters::new();
    counters.enabled = true;

    let first = publish_sleep_state(scoped(HINT_LOCK_ID), &switches);
    assert_eq!(first, SleepPublication::Hint);
    let last = publish_sleep_next(&switches, first, true, &mut counters);
    assert_eq!(last, SleepPublication::Done { routed: false });
    assert_eq!(counters.admission.hints_published, 1);
}

#[test]
fn routing_on_publishes_cv_sleep_and_retires_it_after_the_wait() {
    let switches = routed_switches(true);
    let mut counters = HookCounters::new();
    counters.enabled = true;

    let first = publish_sleep_state(scoped(ROUTE_LOCK_ID), &switches);
    assert_eq!(first, SleepPublication::Arm);
    let last = publish_sleep_next(&switches, first, true, &mut counters);
    assert_eq!(last, SleepPublication::Done { routed: true });
    assert_eq!(
        counters.admission.hints_published, 0,
        "the routed state must not read as a cond-reacquire hint"
    );
    // The last sleep is followed by taking the routed state back: the re-acquisition
    // contends as a pending waiter.
    let retire = wait_next(
        WaitAction::Block { expected: 0 },
        WaitStep::End,
        true,
        true,
    );
    assert_eq!(retire, WaitAction::Retire { slept: true });
    let end = wait_next(retire, WaitStep::End, true, true);
    assert_eq!(end, WaitAction::EndSleep);
    assert_eq!(
        wait_next(end, WaitStep::End, true, true),
        WaitAction::Relock { relock: CondRelock::AlreadyAdmitted }
    );
    assert_eq!(
        relock_mode(true, true, &mut counters),
        CondRelock::AlreadyAdmitted
    );
    assert_eq!(counters.admission.route_relocks, 1);
}

/// Runs a wait on a cond of its own, whose sleeps end as given, each with whether the
/// cond's word has moved by then. Returns what the thread did, and the result.
fn course(routed: bool, moved_first: bool, sleeps: &[(i32, bool)]) -> (Vec<WaitAction>, i32) {
    let mut world = World::new();
    let mut cond = CondState::new();
    let mut wait = wait_begin(
        &mut cond,
        &mut world.arena,
        &mut world.counters,
        scoped(HINT_LOCK_ID),
    );
    let mut sleeps = sleeps.iter();
    let mut action = WaitAction::Unlock;
    let mut actions = Vec::new();
    while action != WaitAction::Done {
        actions.push(action);
        let step = match action {
            WaitAction::BeginSleep => {
                if moved_first {
                    cond.signal();
                }
                wait_check(&cond, &wait)
            }
            WaitAction::Block { .. } => {
                let (rc, moved) = *sleeps.next().unwrap();
                if moved {
                    cond.signal();
                }
                wait_woken(&cond, &mut world.arena, &mut world.counters, &mut wait, rc).0
            }
            WaitAction::Withdraw => {
                wait_expired(&mut cond, &mut wait);
                WaitStep::End
            }
            _ => WaitStep::End,
        };
        action = wait_next(action, step, routed, wait.slept);
    }
    (actions, wait.ret)
}

#[test]
fn a_wait_unlocks_first_and_relocks_last() {
    let block = WaitAction::Block { expected: 0 };
    let relock = |relock: CondRelock| WaitAction::Relock { relock };
    // Released before it slept at all.
    assert_eq!(
        course(false, true, &[]),
        (
            vec![
                WaitAction::Unlock,
                WaitAction::Publish,
                WaitAction::BeginSleep,
                WaitAction::EndSleep,
                relock(CondRelock::Normal),
            ],
            0
        )
    );
    // Interrupted, then woken, and routed.
    assert_eq!(
        course(true, false, &[(EINTR, false), (0, true)]),
        (
            vec![
                WaitAction::Unlock,
                WaitAction::Publish,
                WaitAction::BeginSleep,
                block,
                block,
                WaitAction::Retire { slept: true },
                WaitAction::EndSleep,
                relock(CondRelock::AlreadyAdmitted),
            ],
            0
        )
    );
    // The deadline passed.
    assert_eq!(
        course(false, false, &[(EAGAIN, false), (ETIMEDOUT, false)]),
        (
            vec![
                WaitAction::Unlock,
                WaitAction::Publish,
                WaitAction::BeginSleep,
                block,
                block,
                WaitAction::Withdraw,
                WaitAction::EndSleep,
                relock(CondRelock::TakeHint),
            ],
            ETIMEDOUT
        )
    );
    // A sleep that did not begin is none, and one past its deadline is a wakeup where
    // the cond's word has moved.
    assert_eq!(course(false, false, &[(EAGAIN, true)]).0.last(), Some(&relock(CondRelock::Normal)));
    assert_eq!(course(false, false, &[(ETIMEDOUT, true)]).1, 0);
}

#[test]
fn a_thread_decides_about_requeueing_for_itself() {
    let run = cv_switches(None, None, Some("1"));
    let mut threads = [run; 3];
    // Thread 0 decides, and announces it to all.
    force_cv_requeue_for_thread(&mut threads[0], Some(false));
    for thread in &mut threads[1..] {
        announce_cv_requeue_override(thread);
    }
    assert!(!threads[0].cv_requeue_enabled());
    assert!(threads[1].cv_requeue_enabled() && threads[2].cv_requeue_enabled());
    force_cv_requeue_for_thread(&mut threads[0], None);
    assert!(threads[0].cv_requeue_enabled());

    let mut off = cv_switches(None, None, None);
    assert!(!off.cv_requeue_possible());
    force_cv_requeue_for_thread(&mut off, None);
    assert!(!off.cv_requeue_enabled());
    assert!(off.cv_requeue_possible(), "also after a decision was taken back");
}

#[test]
fn a_held_lock_keeps_the_routing_off_publication() {
    let switches = routed_switches(true);
    let mut counters = HookCounters::new();

    // The word of the held lock cannot be armed.
    let first = publish_sleep_state(scoped(HINT_LOCK_ID), &switches);
    let second = publish_sleep_next(&switches, first, false, &mut counters);
    assert_eq!(second, SleepPublication::Hint);
    let last = publish_sleep_next(&switches, second, false, &mut counters);
    assert_eq!(last, SleepPublication::Done { routed: false });
    assert_eq!(counters, HookCounters::new());
}

#[test]
fn an_unscoped_backend_publishes_nothing() {
    let switches = routed_switches(true);

    assert_eq!(
        publish_sleep_state(
            CondMutex::new(ROUTE_LOCK_ID, false, CondStagingRef::none()),
            &switches
        ),
        SleepPublication::Done { routed: false }
    );
}

#[test]
fn a_disabled_hint_leaves_nothing_to_publish() {
    let switches = cv_switches(Some("yes"), None, None);
    assert!(!switches.hint);
    assert_eq!(
        publish_sleep_state(scoped(HINT_LOCK_ID), &switches),
        SleepPublication::Done { routed: false }
    );

    let mut counters = HookCounters::new();
    let routed = cv_switches(Some("on"), Some("true"), None);
    assert_eq!(
        publish_sleep_next(&routed, SleepPublication::Arm, false, &mut counters),
        SleepPublication::Done { routed: false }
    );
}

#[test]
fn only_a_routed_sleep_relocks_as_already_admitted() {
    let mut counters = HookCounters::new();
    assert_eq!(relock_mode(true, true, &mut counters), CondRelock::AlreadyAdmitted);
    assert_eq!(relock_mode(false, true, &mut counters), CondRelock::TakeHint);

    for routed in [true, false] {
        assert_eq!(relock_mode(routed, false, &mut counters), CondRelock::Normal);
    }
}

#[test]
fn a_wait_that_never_sleeps_relocks_normally_without_a_token() {
    for (route, lock_id) in [(false, HINT_LOCK_ID), (true, ROUTE_LOCK_ID)] {
        let mut world = World::new();
        let mut cond = CondState::new();
        let wait = wait_begin(&mut cond, &mut world.arena, &mut world.counters, scoped(lock_id));

        // A signal that lands while the mutex is being released.
        assert_eq!(cond.signal(), CondAction::WakeOne);
        assert_eq!(wait_check(&cond, &wait), WaitStep::End);

        let (relock, ret) = wait_end(&wait, route, &mut world.counters);
        assert_eq!(relock, CondRelock::Normal);
        assert_eq!(ret, 0);
    }
}

#[test]
fn a_stolen_registration_forwards_the_wakeup_instead_of_timing_out() {
    let mut cond = CondState::new();
    let expired_seq = cond.seq;

    cond.waiters += 1;
    assert_eq!(cond.signal(), CondAction::WakeOne, "the signal takes the expiring waiter");
    cond.waiters += 1;
    let new_waiter_seq = cond.seq;

    assert_eq!(cond.retire_expired_waiter(expired_seq), (0, true));
    assert_ne!(
        cond.seq, new_waiter_seq,
        "the waiter behind it has to see its sleep condition broken"
    );
}

#[test]
fn an_expired_waiter_with_no_signal_reports_the_deadline() {
    let mut cond = CondState::new();
    let expired_seq = cond.seq;
    cond.waiters += 1;

    assert_eq!(cond.retire_expired_waiter(expired_seq), (ETIMEDOUT, false));
    assert_eq!(cond.waiters, 0);
    assert_eq!(cond.seq, expired_seq);
}

#[test]
fn a_registration_a_broadcast_already_took_ends_the_wait_as_a_wakeup() {
    let world = World::new();
    let mut cond = CondState::new();
    let expired_seq = cond.seq;
    cond.waiters += 1;
    assert_eq!(cond.broadcast(&world.arena, &world.switches), CondAction::WakeAll);

    assert_eq!(cond.retire_expired_waiter(expired_seq), (0, false));
}

#[test]
fn a_timed_wait_that_expires_reports_the_timeout() {
    let mut world = World::new();
    let mut cond = CondState::new();
    let mut wait = wait_begin(
        &mut cond,
        &mut world.arena,
        &mut world.counters,
        scoped(ROUTE_LOCK_ID),
    );
    assert_eq!(cond.waiters, 1);
    assert_eq!(wait_check(&cond, &wait), WaitStep::Block { expected: 0 });

    let step = wait_woken(
        &cond,
        &mut world.arena,
        &mut world.counters,
        &mut wait,
        ETIMEDOUT,
    );
    assert_eq!(step, (WaitStep::Withdraw, WaitWake::Nobody));
    assert_eq!(wait_expired(&mut cond, &mut wait), WaitWake::Nobody);
    assert_eq!(cond.waiters, 0);
    assert_eq!(
        wait_end(&wait, true, &mut world.counters),
        (CondRelock::AlreadyAdmitted, ETIMEDOUT)
    );
}

#[test]
fn a_signal_between_the_deadline_and_the_withdrawal_is_handed_on() {
    let mut world = World::new();
    let mut cond = CondState::new();
    let mut wait = wait_begin(
        &mut cond,
        &mut world.arena,
        &mut world.counters,
        scoped(ROUTE_LOCK_ID),
    );
    let step = wait_woken(
        &cond,
        &mut world.arena,
        &mut world.counters,
        &mut wait,
        ETIMEDOUT,
    );
    assert_eq!(step.0, WaitStep::Withdraw);

    // The signal takes this waiter's registration, and another waiter comes.
    assert_eq!(cond.signal(), CondAction::WakeOne);
    wait_begin(
        &mut cond,
        &mut world.arena,
        &mut world.counters,
        scoped(ROUTE_LOCK_ID),
    );
    assert_eq!(wait_expired(&mut cond, &mut wait), WaitWake::Cond);
    assert_eq!(wait.ret, 0);
    assert_eq!(cond.waiters, 0);
    assert_eq!(cond.seq, 2);
}

#[test]
fn an_interrupted_wait_goes_back_to_sleep() {
    let mut world = World::new();
    let mut cond = CondState::new();
    let mut wait = wait_begin(
        &mut cond,
        &mut world.arena,
        &mut world.counters,
        scoped(HINT_LOCK_ID),
    );

    // A wait that the kernel refused did not sleep.
    let step = wait_woken(&cond, &mut world.arena, &mut world.counters, &mut wait, EAGAIN);
    assert_eq!(step.0, WaitStep::Block { expected: 0 });
    assert!(!wait.slept);

    let step = wait_woken(&cond, &mut world.arena, &mut world.counters, &mut wait, EINTR);
    assert_eq!(step.0, WaitStep::Block { expected: 0 });
    assert!(wait.slept);

    assert_eq!(cond.signal(), CondAction::WakeOne);
    let step = wait_woken(&cond, &mut world.arena, &mut world.counters, &mut wait, 0);
    assert_eq!(step, (WaitStep::End, WaitWake::Nobody));
    assert_eq!(wait, CondWait { seq: 0, slept: true, ret: 0 });
    assert_eq!(
        wait_end(&wait, false, &mut world.counters),
        (CondRelock::TakeHint, 0)
    );
}

#[test]
fn a_deadline_that_passes_after_the_release_is_a_wakeup() {
    let mut world = World::new();
    let mut cond = CondState::new();
    let mut wait = wait_begin(
        &mut cond,
        &mut world.arena,
        &mut world.counters,
        scoped(HINT_LOCK_ID),
    );
    assert_eq!(cond.signal(), CondAction::WakeOne);
    let step = wait_woken(
        &cond,
        &mut world.arena,
        &mut world.counters,
        &mut wait,
        ETIMEDOUT,
    );
    assert_eq!(step, (WaitStep::End, WaitWake::Nobody));
    assert_eq!(wait.ret, 0);
    assert_eq!(cond.waiters, 0);
}

#[test]
fn a_deadline_that_expires_on_the_stage_leaves_the_count_high() {
    let mut world = World::new();
    let mut mutex = SpinMutex::new();
    let mut cond = CondState::new();
    waking_thread(&mut world.switches, true);
    let cond_mutex = mutex.cond_mutex(&mut world, SMOKE_LOCK_ID);
    let mut wait = wait_begin(
        &mut cond,
        &mut world.arena,
        &mut world.counters,
        cond_mutex,
    );

    world.lock(&mutex);
    assert_eq!(world.broadcast(&mut cond, 1), Some(StageWake::Nobody));
    let step = wait_woken(
        &cond,
        &mut world.arena,
        &mut world.counters,
        &mut wait,
        ETIMEDOUT,
    );
    assert_eq!(step, (WaitStep::End, WaitWake::Nobody));
    assert_eq!(
        world.staged(&mutex),
        1,
        "the expired waiter should have left its count behind"
    );
    world.unlock(&mutex);

    assert_eq!(wait.ret, 0, "a woken wait reports the wakeup it was given");
    assert_eq!(
        world.staged(&mutex),
        0,
        "the next drain spends the count on an empty wake"
    );
}

#[test]
fn a_broadcast_releases_every_waiter() {
    let mut world = World::new();
    let mut mutex = SpinMutex::new();
    let mut cond = CondState::new();
    let mut waits = Vec::new();
    for _ in 0..4 {
        let cond_mutex = mutex.cond_mutex(&mut world, SMOKE_LOCK_ID);
        waits.push(wait_begin(
            &mut cond,
            &mut world.arena,
            &mut world.counters,
            cond_mutex,
        ));
    }
    for wait in &waits {
        assert_eq!(wait_check(&cond, wait), WaitStep::Block { expected: 0 });
    }

    assert_eq!(
        cond.broadcast(&world.arena, &cv_switches(None, None, Some("0"))),
        CondAction::WakeAll
    );
    assert_eq!(cond.waiters, 0);
    for wait in &mut waits {
        assert_eq!(
            wait_woken(&cond, &mut world.arena, &mut world.counters, wait, 0),
            (WaitStep::End, WaitWake::Nobody)
        );
        assert_eq!(wait.ret, 0);
    }
}

#[test]
fn a_staged_count_left_too_high_costs_empty_wakes_and_nothing_else() {
    let mut world = World::new();
    let mut mutex = SpinMutex::new();
    assert!(mutex.block(&mut world) != NO_BLOCK, "the binding creates the block");
    world.stage(&mut mutex, 2);
    assert_eq!(world.staged(&mutex), 2);

    assert!(world.drain(&mutex));
    assert!(world.drain(&mutex));
    assert_eq!(world.staged(&mutex), 0);

    assert!(!world.drain(&mutex));
    assert_eq!(world.staged(&mutex), 0);
}

#[test]
fn a_lock_creates_its_staging_on_the_first_cond_binding() {
    let mut world = World::new();
    let mut mutex = SpinMutex::new();
    let mut cond = CondState::new();
    waking_thread(&mut world.switches, true);

    world.lock(&mutex);
    world.unlock(&mutex);
    assert!(
        !mutex.staging.block_created(),
        "a lock no cond waits on never carries a stage"
    );

    world.bind(&mut cond, &mut mutex);
    assert!(mutex.staging.block_created(), "the first binding creates the block");
    let block = mutex.staging.block;

    let mut other = CondState::new();
    world.bind(&mut other, &mut mutex);
    assert_eq!(
        mutex.staging.block, block,
        "every cond of a lock binds to the one block the lock owns"
    );
    assert_ne!(cond.bound.parking_target(), NO_BLOCK);
    assert_eq!(cond.bound.parking_target(), other.bound.parking_target());
    assert_eq!(world.arena.get(block).references, 3);
}

#[test]
fn a_run_that_can_never_requeue_creates_no_staging() {
    let mut arena = StagingArena::new();
    let mut staging = CondStaging::new();

    assert_eq!(staging.ensure_block(&mut arena, false), NO_BLOCK);
    assert!(
        !staging.block_created(),
        "a wait that can never be parked leaves the lock without a stage"
    );

    assert_ne!(staging.ensure_block(&mut arena, true), NO_BLOCK);
    assert!(staging.block_created());
}

#[test]
fn a_binding_that_arrives_after_the_destroy_finds_no_staging() {
    let mut world = World::new();
    let mut staging = CondStaging::new();
    assert!(!staging.destroy(&mut world.arena));
    assert_eq!(staging.block, RETIRED_BLOCK);

    assert_eq!(
        staging.ensure_block(&mut world.arena, true),
        NO_BLOCK,
        "a destroyed lock never gains a stage"
    );
    assert!(!staging.block_created());

    let mut cond = CondState::new();
    let switches = world.switches;
    let handle = staging.binding_handle(&mut world.arena, &switches);
    cond.bind_staging(&mut world.arena, handle, &mut world.counters);
    assert_eq!(
        cond.bound.parking_target(),
        NO_BLOCK,
        "a cond that binds after the destroy wakes its waiters instead"
    );
}

#[test]
fn a_stage_created_inside_the_critical_section_costs_one_early_release() {
    let mut world = World::new();
    let mut mutex = SpinMutex::new();
    let mut cond = CondState::new();
    waking_thread(&mut world.switches, true);

    world.lock(&mutex);
    assert!(
        !mutex.staging.block_created(),
        "the acquisition reads a lock with no stage"
    );

    world.bind(&mut cond, &mut mutex);
    world.stage(&mut mutex, 1);

    cond.waiters += 1;
    assert_eq!(world.broadcast(&mut cond, 0), Some(StageWake::One));
    assert_eq!(
        world.staged(&mutex),
        0,
        "the broadcaster does not recognise the stage it gave the lock and releases the waiter itself"
    );

    world.unlock(&mutex);
    assert_eq!(world.staged(&mutex), 0);
}

#[test]
fn later_installs_keep_the_first_block() {
    let mut arena = StagingArena::new();
    let mut staging = CondStaging::new();
    let first = staging.install_block(&mut arena);
    for _ in 0..7 {
        assert_eq!(staging.install_block(&mut arena), first);
    }
    assert_eq!(arena.get(first).references, 1);
    assert_eq!(arena.blocks.len(), 2);
}

#[test]
fn a_cond_keeps_the_staging_of_its_first_wait() {
    let mut world = World::new();
    let mut mutex = SpinMutex::new();
    let mut cond = CondState::new();

    assert_eq!(cond.bound.parking_target(), NO_BLOCK);
    world.bind(&mut cond, &mut mutex);
    world.bind(&mut cond, &mut mutex);

    let bound = cond.bound.parking_target();
    assert_ne!(bound, NO_BLOCK, "the wait should have bound");
    assert_eq!(bound, mutex.block(&mut world));
}

#[test]
fn an_unbound_cond_wakes_without_reaching_a_staging() {
    let mut world = World::new();
    let mut cond = CondState::new();
    cond.bind_staging(&mut world.arena, CondStagingRef::none(), &mut world.counters);
    assert_eq!(cond.bound.parking_target(), NO_BLOCK);

    waking_thread(&mut world.switches, true);
    cond.waiters += 1;
    assert_eq!(cond.signal(), CondAction::WakeOne);
    cond.waiters += 1;
    assert_eq!(cond.broadcast(&world.arena, &world.switches), CondAction::WakeAll);
}

#[test]
fn a_cond_waited_on_with_two_mutexes_gives_up_its_staging() {
    let mut world = World::new();
    let mut first = SpinMutex::new();
    let mut second = SpinMutex::new();
    let mut cond = CondState::new();

    world.bind(&mut cond, &mut first);
    world.bind(&mut cond, &mut second);
    assert_eq!(cond.bound.parking_target(), NO_BLOCK);

    world.bind(&mut cond, &mut first);
    assert_eq!(
        cond.bound.parking_target(),
        NO_BLOCK,
        "the conflict is not undone by a later wait"
    );

    waking_thread(&mut world.switches, true);
    cond.waiters += 1;
    assert_eq!(cond.broadcast(&world.arena, &world.switches), CondAction::WakeAll);
    assert_eq!(world.staged(&first), 0);
    assert_eq!(world.staged(&second), 0);
}

#[test]
fn a_second_mutex_costs_the_pacing_and_is_counted() {
    let mut world = World::new();
    let mut first = SpinMutex::new();
    let mut second = SpinMutex::new();
    let mut cond = CondState::new();

    let measurement = measure_debug_counters(&mut world.counters);
    measurement.enable(&mut world.counters);
    let before = world.counters.requeue.binding_conflicts;
    world.bind(&mut cond, &mut first);
    world.bind(&mut cond, &mut second);
    let after = world.counters.requeue.binding_conflicts;
    measurement.finish(&mut world.counters);

    assert_eq!(after, before + 1);
    assert_eq!(cond.bound.parking_target(), NO_BLOCK);
}

#[test]
fn a_racing_publication_of_another_lock_is_a_conflict() {
    let mut world = World::new();
    world.counters.enabled = true;
    let mut first = SpinMutex::new();
    let mut second = SpinMutex::new();
    let mut cond = CondState::new();
    world.bind(&mut cond, &mut first);

    let block = second.block(&mut world);
    cond.bound.publish(&mut world.arena, block, &mut world.counters);
    assert_eq!(cond.bound.parking_target(), NO_BLOCK);
    assert_eq!(world.counters.requeue.binding_conflicts, 1);
    assert_eq!(world.arena.get(block).references, 1);

    // The lock that is published already is no conflict.
    let mut other = CondState::new();
    world.bind(&mut other, &mut first);
    let block = first.block(&mut world);
    other.bound.publish(&mut world.arena, block, &mut world.counters);
    assert_eq!(other.bound.parking_target(), block);
    assert_eq!(world.counters.requeue.binding_conflicts, 1);
}

#[test]
fn a_conflicting_binding_still_releases_its_reference() {
    let mut world = World::new();
    let mut first = SpinMutex::new();
    let mut second = SpinMutex::new();
    let block = first.block(&mut world);
    // A reference of the test's own.
    world.arena.blocks[block / 2 - 1].references += 1;

    let mut cond = CondState::new();
    world.bind(&mut cond, &mut first);
    world.bind(&mut cond, &mut second);
    assert_eq!(world.arena.get(block).references, 3);

    cond.bound.destroy(&mut world.arena);
    assert_eq!(
        world.arena.get(block).references,
        2,
        "destroying the cond gives the block back to the lock that owns it"
    );
}

#[test]
fn a_conflicting_binding_still_hands_its_releases_on() {
    let mut world = World::new();
    let mut first = SpinMutex::new();
    let mut second = SpinMutex::new();
    let mut cond = CondState::new();

    world.bind(&mut cond, &mut first);
    world.stage(&mut first, 1);
    world.bind(&mut cond, &mut second);
    assert_eq!(
        cond.bound.parking_target(),
        NO_BLOCK,
        "the binding no longer parks new waiters"
    );

    assert!(cond.hand_on_stale_release(&mut world.arena, &mut world.counters));
    assert_eq!(
        world.staged(&first),
        0,
        "what was staged before the conflict still has its release handed on"
    );
}

#[test]
fn a_stale_wake_hands_its_release_to_the_waiter_behind_it() {
    let mut world = World::new();
    let mut mutex = SpinMutex::new();
    let mut cond = CondState::new();
    let cond_mutex = mutex.cond_mutex(&mut world, SMOKE_LOCK_ID);
    let mut wait = wait_begin(&mut cond, &mut world.arena, &mut world.counters, cond_mutex);
    world.stage(&mut mutex, 1);

    let step = wait_woken(&cond, &mut world.arena, &mut world.counters, &mut wait, 0);
    assert_eq!(
        step,
        (
            WaitStep::Block { expected: 0 },
            WaitWake::Stage { block: mutex.staging.block }
        )
    );
    assert_eq!(world.staged(&mutex), 0);
}

#[test]
fn a_broadcast_that_moves_nobody_still_kicks_the_drain_chain() {
    let mut world = World::new();
    let mut mutex = SpinMutex::new();
    let mut cond = CondState::new();
    waking_thread(&mut world.switches, true);

    world.bind(&mut cond, &mut mutex);
    world.stage(&mut mutex, 1);

    // A registration with no sleeper behind it: the requeue finds nothing
    // to move, so the staged waiter is all this broadcast can release.
    cond.waiters += 1;
    assert_eq!(world.broadcast(&mut cond, 0), Some(StageWake::One));

    assert_eq!(
        world.staged(&mutex),
        0,
        "a broadcast that staged nothing still releases what is already staged"
    );
}

#[test]
fn a_broadcast_from_inside_the_lock_leaves_the_release_to_the_unlock() {
    let mut world = World::new();
    let mut mutex = SpinMutex::new();
    let mut cond = CondState::new();
    waking_thread(&mut world.switches, true);

    world.bind(&mut cond, &mut mutex);
    world.stage(&mut mutex, 1);

    world.lock(&mutex);
    cond.waiters += 1;
    assert_eq!(world.broadcast(&mut cond, 0), Some(StageWake::Nobody));
    assert_eq!(
        world.staged(&mutex),
        1,
        "the release belongs to the unlock this broadcaster still owes"
    );

    world.unlock(&mutex);
    assert_eq!(world.staged(&mutex), 0);
}

#[test]
fn a_broadcaster_holding_a_class_mate_of_the_bound_lock_still_drains() {
    let mut world = World::new();
    let mut bound = SpinMutex::new();
    let class_mate = SpinMutex::new();
    let mut cond = CondState::new();
    waking_thread(&mut world.switches, true);

    world.bind(&mut cond, &mut bound);
    world.stage(&mut bound, 1);

    // Both locks carry SMOKE_LOCK_ID, which is what folding does to them.
    world.lock(&class_mate);
    cond.waiters += 1;
    world.broadcast(&mut cond, 0);
    assert_eq!(
        world.staged(&bound),
        0,
        "no unlock of the bound lock is coming, so the broadcast owes the release"
    );
    world.unlock(&class_mate);
}

#[test]
fn a_requeued_broadcast_releases_every_waiter_through_the_staging() {
    const WAITERS: u32 = 8;

    let mut world = World::new();
    world.counters.enabled = true;
    let mut mutex = SpinMutex::new();
    let mut cond = CondState::new();
    waking_thread(&mut world.switches, true);
    world.bind(&mut cond, &mut mutex);
    cond.waiters = WAITERS;

    world.lock(&mutex);
    assert_eq!(world.broadcast(&mut cond, WAITERS), Some(StageWake::Nobody));
    assert_eq!(cond.waiters, 0);
    assert_eq!(
        world.staged(&mutex),
        WAITERS,
        "the broadcast should have parked its waiters"
    );
    for left in (0..WAITERS).rev() {
        world.unlock(&mutex);
        assert_eq!(world.staged(&mutex), left);
        world.lock(&mutex);
    }
    assert_eq!(world.counters.requeue.requeued, 8);
    assert_eq!(world.counters.requeue.staged_high_water, 8);
    assert_eq!(world.counters.requeue.drain_wakes, 8);
    assert_eq!(world.counters.requeue.stranding_wakes, 0);
}

#[test]
fn a_requeue_that_keeps_failing_falls_back_to_a_wake() {
    let mut world = World::new();
    world.counters.enabled = true;
    let mut mutex = SpinMutex::new();
    let mut cond = CondState::new();
    waking_thread(&mut world.switches, true);
    world.bind(&mut cond, &mut mutex);
    let block = mutex.staging.block;
    cond.waiters = 1;
    let mut action = cond.broadcast(&world.arena, &world.switches);

    for expected_attempt in 0..REQUEUE_ATTEMPTS {
        assert_eq!(
            action,
            CondAction::Requeue { block, expected: 1, attempt: expected_attempt }
        );
        action = match cond.requeue_waiters(
            &mut world.arena,
            &mut world.counters,
            world.held,
            block,
            expected_attempt,
            Err(EAGAIN),
        ) {
            RequeueStep::Again { action } => action,
            RequeueStep::Done { .. } => panic!("nothing was moved"),
        };
    }
    assert_eq!(action, CondAction::WakeAll);
    assert_eq!(world.counters.requeue.fallbacks, 1);

    // Any other error gives up at once.
    assert_eq!(
        cond.requeue_waiters(
            &mut world.arena,
            &mut world.counters,
            world.held,
            block,
            0,
            Err(EINVAL)
        ),
        RequeueStep::Again { action: CondAction::WakeAll }
    );
    assert_eq!(world.counters.requeue.fallbacks, 2);
}

#[test]
fn a_broadcaster_holding_nothing_releases_the_waiter_it_staged() {
    let mut world = World::new();
    world.counters.enabled = true;
    let mut mutex = SpinMutex::new();
    let mut cond = CondState::new();
    waking_thread(&mut world.switches, true);
    world.bind(&mut cond, &mut mutex);
    cond.waiters = 1;
    assert_eq!(world.broadcast(&mut cond, 1), Some(StageWake::One));
    assert_eq!(world.staged(&mutex), 0);
    assert_eq!(world.counters.requeue.stranding_wakes, 1);
}

#[test]
fn a_signal_wakes_without_staging_with_the_switch_on() {
    let mut world = World::new();
    let mut mutex = SpinMutex::new();
    let mut cond = CondState::new();
    waking_thread(&mut world.switches, true);
    world.bind(&mut cond, &mut mutex);
    cond.waiters = 1;
    assert_eq!(cond.signal(), CondAction::WakeOne);
    assert_eq!(world.staged(&mutex), 0);
    assert_eq!(cond.signal(), CondAction::Nothing);
}

#[test]
fn a_wakeup_after_the_mutex_is_destroyed_reaches_a_retired_block() {
    let mut world = World::new();
    let mut cond = CondState::new();
    let mut mutex = SpinMutex::new();
    world.bind(&mut cond, &mut mutex);
    let block = mutex.block(&mut world);
    assert!(world.arena.get(block).alive());

    mutex.staging.destroy(&mut world.arena);
    assert!(
        !world.arena.get(block).alive(),
        "destroying the mutex retires its staging"
    );
    assert_eq!(world.arena.get(block).references, 1);

    waking_thread(&mut world.switches, true);
    cond.waiters += 1;
    assert_eq!(cond.signal(), CondAction::WakeOne);
    cond.waiters += 1;
    assert_eq!(cond.broadcast(&world.arena, &world.switches), CondAction::WakeAll);

    assert_eq!(
        world.arena.get(block).staged_count(),
        0,
        "a retired block never has a waiter parked on it"
    );
}

#[test]
fn destroying_a_mutex_releases_what_is_staged_on_it() {
    let mut world = World::new();
    let mut mutex = SpinMutex::new();
    let block = mutex.block(&mut world);
    world.stage(&mut mutex, 2);

    assert!(mutex.staging.destroy(&mut world.arena), "all that are parked are woken");

    assert_eq!(world.arena.get(block).staged_count(), 0);
}

#[test]
fn a_broadcast_that_parks_on_a_dead_block_releases_it_again() {
    let mut counters = HookCounters::new();
    let mut block = CondStagingBlock::new();
    assert!(!block.retire());
    block.stage_waiters(3, &mut counters);
    assert_eq!(start_drain_chain(&mut block, false, &mut counters), StageWake::All);
    assert_eq!(block.staged_count(), 0);
    assert_eq!(start_drain_chain(&mut block, false, &mut counters), StageWake::Nobody);
}

#[test]
fn the_outer_lock_keeps_the_note() {
    let mut world = World::new();
    let mut outer = SpinMutex::new();
    let mut inner = SpinMutex::new();
    let outer_block = outer.block(&mut world);
    inner.block(&mut world);

    world.lock(&outer);
    world.lock(&inner);
    assert_eq!(world.held, outer_block);
    world.unlock(&inner);
    assert_eq!(world.held, outer_block);
    world.unlock(&outer);
    assert_eq!(world.held, NO_BLOCK);
}

#[test]
fn a_run_that_can_never_requeue_keeps_no_note() {
    let mut world = World::new();
    let mut mutex = SpinMutex::new();
    mutex.block(&mut world);
    world.stage(&mut mutex, 1);
    world.switches = cv_switches(None, None, Some("0"));
    world.lock(&mutex);
    assert_eq!(world.held, NO_BLOCK);
    world.unlock(&mutex);
    assert_eq!(world.staged(&mutex), 1);
}

#[test]
fn a_thread_overrides_the_requeue_switch_for_itself() {
    let mut switches = cv_switches(None, None, None);
    assert!(!switches.cv_requeue_enabled());
    assert!(!switches.cv_requeue_possible());

    announce_cv_requeue_override(&mut switches);
    assert!(switches.cv_requeue_possible());
    assert!(!switches.cv_requeue_enabled());

    force_cv_requeue_for_thread(&mut switches, Some(true));
    assert!(switches.cv_requeue_enabled());
    force_cv_requeue_for_thread(&mut switches, None);
    assert!(!switches.cv_requeue_enabled());

    let mut from_env = cv_switches(None, None, Some(" yes "));
    assert!(from_env.cv_requeue_enabled());
    let guard = waking_thread(&mut from_env, false);
    assert!(!from_env.cv_requeue_enabled());
    guard.restore(&mut from_env);
    assert!(from_env.cv_requeue_enabled());
}

#[test]
fn a_release_that_is_not_there_is_never_handed_out() {
    let mut counter = 2;
    assert!(claim_one(&mut counter));
    assert!(claim_one(&mut counter));
    assert!(!claim_one(&mut counter));
    assert_eq!(counter, 0);
}
