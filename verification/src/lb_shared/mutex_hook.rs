//! The hooks around a lock that does not go through admission, with condition
//! variables that hand out tickets.
use vstd::prelude::*;

use crate::accordin_shared::mutex_hook::{HookDecision, MapCall};
use crate::errno::{EBUSY, EINVAL, ETIMEDOUT};
use crate::install;
use crate::install::{InstallPhase, INSTALLING, NO_STATE};

verus! {

// Threads.
/// The change to the scheduler's map that makes a thread known, where there is a
/// map.
pub fn register_current_thread(map_present: bool, tid: u32, admission_word_ptr: u64) -> (r: Option<
    MapCall,
>)
    ensures
        r == if map_present {
            Some(MapCall::Update { key: tid, value: admission_word_ptr })
        } else {
            None
        },
{
    if map_present {
        Some(MapCall::Update { key: tid, value: admission_word_ptr })
    } else {
        None
    }
}

pub fn unregister_current_thread(map_present: bool, tid: u32) -> (r: Option<MapCall>)
    ensures
        r == if map_present {
            Some(MapCall::Delete { key: tid })
        } else {
            None
        },
{
    if map_present {
        Some(MapCall::Delete { key: tid })
    } else {
        None
    }
}

/// A change to one of the two maps of a scheduler that also knows the slots of
/// threads.
#[derive(Clone, Copy, Debug, PartialEq, Eq, Structural)]
pub enum SlotMapCall {
    Thread(MapCall),
    Slot(MapCall),
}

/// What a change to both maps does next.
#[derive(Clone, Copy, Debug, PartialEq, Eq, Structural)]
pub enum MapStep {
    /// This change is made, and its answer handed on.
    Call(SlotMapCall),
    /// No change is left. `worked`: both did.
    Done { worked: bool },
}

/// A change to both maps, by what each of them answered so far. The second map is
/// changed only where changing the first one worked.
pub open spec fn map_step(
    thread: Option<bool>,
    slot: Option<bool>,
    thread_call: MapCall,
    slot_call: MapCall,
) -> MapStep {
    match (thread, slot) {
        (None, _) => MapStep::Call(SlotMapCall::Thread(thread_call)),
        (Some(false), _) => MapStep::Done { worked: false },
        (Some(true), None) => MapStep::Call(SlotMapCall::Slot(slot_call)),
        (Some(true), Some(worked)) => MapStep::Done { worked },
    }
}

fn next_map_step(
    thread: Option<bool>,
    slot: Option<bool>,
    thread_call: MapCall,
    slot_call: MapCall,
) -> (r: MapStep)
    ensures
        r == map_step(thread, slot, thread_call, slot_call),
{
    match thread {
        None => MapStep::Call(SlotMapCall::Thread(thread_call)),
        Some(worked) => if !worked {
            MapStep::Done { worked: false }
        } else {
            match slot {
                None => MapStep::Call(SlotMapCall::Slot(slot_call)),
                Some(worked) => MapStep::Done { worked },
            }
        },
    }
}

/// Registers a thread with both maps. `thread` and `slot` are what the maps
/// answered to the calls that were made.
pub fn register_thread_with_maps(
    thread: Option<bool>,
    slot: Option<bool>,
    tid: u32,
    ctx_ptr: u64,
    thread_index: u32,
) -> (r: MapStep)
    ensures
        r == map_step(
            thread,
            slot,
            MapCall::Update { key: tid, value: ctx_ptr },
            MapCall::Update { key: tid, value: thread_index as u64 },
        ),
{
    next_map_step(
        thread,
        slot,
        MapCall::Update { key: tid, value: ctx_ptr },
        MapCall::Update { key: tid, value: thread_index as u64 },
    )
}

/// Removes a thread from both maps, in the same way.
pub fn unregister_thread_with_maps(thread: Option<bool>, slot: Option<bool>, tid: u32) -> (r:
    MapStep)
    ensures
        r == map_step(thread, slot, MapCall::Delete { key: tid }, MapCall::Delete { key: tid }),
{
    next_map_step(thread, slot, MapCall::Delete { key: tid }, MapCall::Delete { key: tid })
}

// Mutexes.
/// Looks a mutex or a condition variable up, by its address and its word. One
/// without a state goes on with `install_step`.
pub fn ensure_state(address: usize, word: usize) -> (r: Result<InstallPhase, i32>)
    ensures
        r == if address == 0 {
            Err::<InstallPhase, i32>(EINVAL)
        } else if word > INSTALLING {
            Ok(InstallPhase::Done { state: word })
        } else {
            Ok(InstallPhase::Look)
        },
{
    if address == 0 {
        Err(EINVAL)
    } else if word > INSTALLING {
        Ok(InstallPhase::Done { state: word })
    } else {
        Ok(InstallPhase::Look)
    }
}

/// Sets a mutex or a condition variable up: its word holds the state `built`.
fn init_word(address: usize, word: &mut usize, built: usize) -> (r: i32)
    ensures
        r == if address == 0 {
            EINVAL
        } else {
            0
        },
        *final(word) == if address == 0 {
            *old(word)
        } else {
            built
        },
{
    if address == 0 {
        return EINVAL;
    }
    *word = built;
    0
}

/// Empties a word, and hands out the state that it held.
fn destroy_word(address: usize, word: &mut usize) -> (r: (i32, Option<usize>))
    ensures
        r.0 == if address == 0 {
            EINVAL
        } else {
            0
        },
        r.1 == if address != 0 && *old(word) > INSTALLING {
            Some(*old(word))
        } else {
            None
        },
        *final(word) == if r.1 is Some {
            NO_STATE
        } else {
            *old(word)
        },
{
    if address == 0 {
        return (EINVAL, None);
    }
    (0, install::take_state(word, true))
}

/// Sets a mutex up with the state `built`, whatever it held before.
pub fn pthread_mutex_init(mutex: usize, word: &mut usize, built: usize) -> (r: i32)
    requires
        built > INSTALLING,
    ensures
        r == if mutex == 0 {
            EINVAL
        } else {
            0
        },
        *final(word) == if mutex == 0 {
            *old(word)
        } else {
            built
        },
{
    init_word(mutex, word, built)
}

/// Destroys a mutex. The second part is the state that is to be dropped.
pub fn pthread_mutex_destroy(mutex: usize, word: &mut usize) -> (r: (i32, Option<usize>))
    ensures
        r.0 == if mutex == 0 {
            EINVAL
        } else {
            0
        },
        r.1 == if mutex != 0 && *old(word) > INSTALLING {
            Some(*old(word))
        } else {
            None
        },
        *final(word) == if r.1 is Some {
            NO_STATE
        } else {
            *old(word)
        },
{
    destroy_word(mutex, word)
}

pub fn pthread_mutex_unlock(mutex: usize, word: usize) -> (r: HookDecision)
    ensures
        r == if mutex == 0 || word <= INSTALLING {
            HookDecision::Fail { errno: EINVAL }
        } else {
            HookDecision::Proceed
        },
{
    if mutex == 0 || word <= INSTALLING {
        HookDecision::Fail { errno: EINVAL }
    } else {
        HookDecision::Proceed
    }
}

pub fn pthread_mutex_trylock(mutex: usize, acquired: bool) -> (r: i32)
    ensures
        r == if mutex == 0 {
            EINVAL
        } else if acquired {
            0
        } else {
            EBUSY
        },
{
    if mutex == 0 {
        EINVAL
    } else if acquired {
        0
    } else {
        EBUSY
    }
}

/// What the caller of an acquisition does next.
#[derive(Clone, Copy, Debug, PartialEq, Eq, Structural)]
pub enum LockAction {
    TryLock,
    BeginWait,
    Lock,
    EndWait,
    RecordAcquired,
    Done,
}

/// What follows `done`. The answer is whether trying took the lock.
pub fn lock_with_stats(done: LockAction, answer: bool) -> (r: LockAction)
    ensures
        r == match done {
            LockAction::TryLock => if answer {
                LockAction::RecordAcquired
            } else {
                LockAction::BeginWait
            },
            LockAction::BeginWait => LockAction::Lock,
            LockAction::Lock => LockAction::EndWait,
            LockAction::EndWait => LockAction::RecordAcquired,
            LockAction::RecordAcquired => LockAction::Done,
            LockAction::Done => LockAction::Done,
        },
{
    match done {
        LockAction::TryLock => if answer {
            LockAction::RecordAcquired
        } else {
            LockAction::BeginWait
        },
        LockAction::BeginWait => LockAction::Lock,
        LockAction::Lock => LockAction::EndWait,
        LockAction::EndWait => LockAction::RecordAcquired,
        LockAction::RecordAcquired => LockAction::Done,
        LockAction::Done => LockAction::Done,
    }
}

// Condition variables.
/// Waiters draw tickets, `target` being the last one, and `seq` is the last one
/// released.
#[derive(Clone, Copy, Debug, PartialEq, Eq, Structural)]
pub struct CondState {
    pub seq: u32,
    pub target: u32,
}

/// Whether a ticket is not released yet: it is ahead of what is, by less than half
/// of the numbers there are.
pub open spec fn unreleased(target: u32, seq: u32) -> bool {
    0 < target.wrapping_sub(seq) < u32::MAX / 2
}

pub fn wait_should_continue(target: u32, seq: u32) -> (r: bool)
    ensures
        r == unreleased(target, seq),
{
    let ahead: u32 = target.wrapping_sub(seq);
    ahead < u32::MAX / 2 && target != seq
}

/// A wait under way: its ticket, the last ticket released that it has seen, and
/// what it will return.
#[derive(Clone, Copy, Debug, PartialEq, Eq, Structural)]
pub struct TicketWait {
    pub ticket: u32,
    pub seq: u32,
    pub ret: i32,
}

impl TicketWait {
    /// The value of the word that the waiter sleeps on, if it does.
    pub open spec fn sleeps_on(self) -> Option<u32> {
        if self.ret == 0 && unreleased(self.ticket, self.seq) {
            Some(self.seq)
        } else {
            None
        }
    }

    /// Whether the waiter sleeps, and on which value of the word. It takes the mutex
    /// again where it does not.
    pub fn check(&self) -> (r: Option<u32>)
        ensures
            r == self.sleeps_on(),
    {
        if self.ret == 0 && wait_should_continue(self.ticket, self.seq) {
            Some(self.seq)
        } else {
            None
        }
    }

    /// Goes on after a sleep, which failed with `errno` or did not. Only a sleep with
    /// a deadline ends the wait, when that has passed.
    pub fn woken(&mut self, cond: &CondState, timed: bool, failed: bool, errno: i32)
        ensures
            *final(self) == if timed && failed && errno == ETIMEDOUT {
                TicketWait { ret: ETIMEDOUT, ..*old(self) }
            } else {
                TicketWait { seq: cond.seq, ..*old(self) }
            },
    {
        if timed && failed && errno == ETIMEDOUT {
            self.ret = ETIMEDOUT;
        } else {
            self.seq = cond.seq;
        }
    }
}

impl CondState {
    pub fn new() -> (r: Self)
        ensures
            r.seq == 0,
            r.target == 0,
    {
        CondState { seq: 0, target: 0 }
    }

    /// Draws a ticket, while the mutex is still held.
    pub fn wait_begin(&mut self) -> (r: TicketWait)
        ensures
            r == (TicketWait {
                ticket: old(self).target.wrapping_add(1),
                seq: old(self).seq,
                ret: 0,
            }),
            *final(self) == (CondState { target: r.ticket, ..*old(self) }),
    {
        self.target = self.target.wrapping_add(1);
        TicketWait { ticket: self.target, seq: self.seq, ret: 0 }
    }

    /// Releases the next ticket. The caller wakes one waiter.
    pub fn signal(&mut self)
        ensures
            *final(self) == (CondState { seq: old(self).seq.wrapping_add(1), ..*old(self) }),
    {
        self.seq = self.seq.wrapping_add(1);
    }

    /// Releases every ticket drawn. The caller wakes all waiters.
    pub fn broadcast(&mut self)
        ensures
            *final(self) == (CondState { seq: old(self).target, ..*old(self) }),
    {
        self.seq = self.target;
    }
}

/// What a waiter does, from when it drew its ticket to when it has its mutex again.
#[derive(Clone, Copy, Debug, PartialEq, Eq, Structural)]
pub enum TicketAction {
    /// Release the mutex.
    Unlock,
    /// Sleep while the word is `expected`.
    Sleep { expected: u32 },
    /// Take the mutex again.
    Relock,
    /// Nothing: the wait is over.
    Done,
}

/// What follows `done`, by what is known of the wait since.
pub open spec fn ticket_action_after(done: TicketAction, wait: TicketWait) -> TicketAction {
    match done {
        TicketAction::Unlock | TicketAction::Sleep { .. } => match wait.sleeps_on() {
            Some(expected) => TicketAction::Sleep { expected },
            None => TicketAction::Relock,
        },
        _ => TicketAction::Done,
    }
}

/// What a waiter does next. It begins with releasing the mutex.
pub fn ticket_next(done: TicketAction, wait: &TicketWait) -> (r: TicketAction)
    ensures
        r == ticket_action_after(done, *wait),
{
    match done {
        TicketAction::Unlock | TicketAction::Sleep { .. } => match wait.check() {
            Some(expected) => TicketAction::Sleep { expected },
            None => TicketAction::Relock,
        },
        _ => TicketAction::Done,
    }
}

/// What a thread does at `k`, where `waits[k]` is what it knows of its wait once it has
/// done so.
pub open spec fn ticket_action_at(waits: Seq<TicketWait>, k: int) -> TicketAction
    decreases k,
{
    if k <= 0 {
        TicketAction::Unlock
    } else {
        ticket_action_after(ticket_action_at(waits, k - 1), waits[k - 1])
    }
}

/// However a wait goes, its thread releases the mutex once, first of all, and takes it
/// again once, right after its ticket is released or its deadline has passed: it sleeps
/// only in between.
pub proof fn law_a_ticket_wait_unlocks_and_relocks_once(waits: Seq<TicketWait>, n: int)
    requires
        0 < n <= waits.len(),
        ticket_action_at(waits, n) == TicketAction::Done,
        ticket_action_at(waits, n - 1) != TicketAction::Done,
    ensures
        n >= 2,
        ticket_action_at(waits, 0) == TicketAction::Unlock,
        ticket_action_at(waits, n - 1) == TicketAction::Relock,
        waits[n - 2].sleeps_on() is None,
        forall|k: int|
            0 < k < n - 1 ==> #[trigger] ticket_action_at(waits, k) is Sleep && waits[k
                - 1].sleeps_on() is Some,
{
    assert(ticket_action_at(waits, n) == ticket_action_after(
        ticket_action_at(waits, n - 1),
        waits[n - 1],
    ));
    assert(ticket_action_at(waits, n - 1) == TicketAction::Relock);
    assert(n >= 2);
    assert(ticket_action_at(waits, n - 1) == ticket_action_after(
        ticket_action_at(waits, n - 2),
        waits[n - 2],
    ));
    assert forall|k: int| 0 < k < n - 1 implies #[trigger] ticket_action_at(waits, k) is Sleep
        && waits[k - 1].sleeps_on() is Some by {
        lemma_still_waiting(waits, k, n - 1);
        assert(ticket_action_at(waits, k) == ticket_action_after(
            ticket_action_at(waits, k - 1),
            waits[k - 1],
        ));
    }
}

/// A thread that will still take the mutex has only slept so far.
proof fn lemma_still_waiting(waits: Seq<TicketWait>, k: int, n: int)
    requires
        0 < k < n,
        ticket_action_at(waits, n) == TicketAction::Relock,
    ensures
        ticket_action_at(waits, k) is Sleep,
    decreases n - k,
{
    if k + 1 < n {
        lemma_still_waiting(waits, k + 1, n);
    }
    assert(ticket_action_at(waits, k + 1) == ticket_action_after(
        ticket_action_at(waits, k),
        waits[k],
    ));
    assert(ticket_action_at(waits, k) == ticket_action_after(
        ticket_action_at(waits, k - 1),
        waits[k - 1],
    ));
}

/// Sets a condition variable up with the state `built`, whatever it held before.
pub fn pthread_cond_init(cond: usize, word: &mut usize, built: usize) -> (r: i32)
    requires
        built > INSTALLING,
    ensures
        r == if cond == 0 {
            EINVAL
        } else {
            0
        },
        *final(word) == if cond == 0 {
            *old(word)
        } else {
            built
        },
{
    init_word(cond, word, built)
}

/// Destroys a condition variable. The second part is the state that is to be
/// dropped.
pub fn pthread_cond_destroy(cond: usize, word: &mut usize) -> (r: (i32, Option<usize>))
    ensures
        r.0 == if cond == 0 {
            EINVAL
        } else {
            0
        },
        r.1 == if cond != 0 && *old(word) > INSTALLING {
            Some(*old(word))
        } else {
            None
        },
        *final(word) == if r.1 is Some {
            NO_STATE
        } else {
            *old(word)
        },
{
    destroy_word(cond, word)
}

/// Whether a wait can begin, once both words hold their states.
pub fn pthread_cond_wait(cond: usize, mutex: usize) -> (r: HookDecision)
    ensures
        r == if mutex == 0 || cond == 0 {
            HookDecision::Fail { errno: EINVAL }
        } else {
            HookDecision::Proceed
        },
{
    if mutex == 0 || cond == 0 {
        HookDecision::Fail { errno: EINVAL }
    } else {
        HookDecision::Proceed
    }
}

/// As a wait, with the deadline that it needs.
pub fn pthread_cond_timedwait(cond: usize, mutex: usize, abstime: usize) -> (r: HookDecision)
    ensures
        r == if abstime == 0 || mutex == 0 || cond == 0 {
            HookDecision::Fail { errno: EINVAL }
        } else {
            HookDecision::Proceed
        },
{
    if abstime == 0 {
        return HookDecision::Fail { errno: EINVAL };
    }
    pthread_cond_wait(cond, mutex)
}

/// A ticket drawn while no ticket before it is out waits for the next signal, and
/// that signal releases it.
pub proof fn law_a_signal_releases_the_next_ticket(cond: CondState)
    requires
        cond.seq == cond.target,
    ensures
        unreleased(cond.target.wrapping_add(1), cond.seq),
        !unreleased(cond.target.wrapping_add(1), cond.seq.wrapping_add(1)),
{
}

/// A broadcast releases every ticket that was drawn before it, as long as the
/// tickets out are no more than half of the numbers there are.
pub proof fn law_a_broadcast_releases_every_waiter(cond: CondState, ticket: u32)
    requires
        cond.target.wrapping_sub(ticket) <= u32::MAX / 2,
    ensures
        !unreleased(ticket, cond.target),
{
}

/// Signals release tickets in the order in which they were drawn: as many signals
/// as tickets are still out, and no fewer, release the last of them.
pub proof fn law_signals_release_in_order(cond: CondState, ticket: u32, signals: u32)
    requires
        signals <= ticket.wrapping_sub(cond.seq) < u32::MAX / 2,
    ensures
        unreleased(ticket, cond.seq.wrapping_add(signals)) == (signals < ticket.wrapping_sub(
            cond.seq,
        )),
{
}

/// A waiter sleeps just while its ticket is ahead of those released and its wait has not
/// ended otherwise, and then on the last one that it saw released.
pub proof fn law_a_waiter_sleeps_while_its_ticket_is_ahead(wait: TicketWait)
    ensures
        wait.seq < wait.ticket < wait.seq + 0x7fff_ffff ==> unreleased(wait.ticket, wait.seq),
        wait.ticket >= wait.seq + 0x7fff_ffff ==> !unreleased(wait.ticket, wait.seq),
        wait.ticket <= wait.seq <= wait.ticket + 0x8000_0000 ==> !unreleased(
            wait.ticket,
            wait.seq,
        ),
        wait.ret == 0 && unreleased(wait.ticket, wait.seq) ==> wait.sleeps_on() == Some(wait.seq),
        wait.ret != 0 || !unreleased(wait.ticket, wait.seq) ==> wait.sleeps_on() is None,
        wait.sleeps_on() is Some ==> ticket_action_after(TicketAction::Unlock, wait) == (
        TicketAction::Sleep { expected: wait.seq }),
        wait.sleeps_on() is None ==> ticket_action_after(TicketAction::Unlock, wait)
            == TicketAction::Relock,
{
}

/// Both maps are changed, the thread's own first, and a change that fails is the last: it
/// worked where both did.
pub proof fn law_both_maps_are_changed_in_order(thread_call: MapCall, slot_call: MapCall)
    ensures
        map_step(None, None, thread_call, slot_call) == MapStep::Call(
            SlotMapCall::Thread(thread_call),
        ),
        map_step(Some(true), None, thread_call, slot_call) == MapStep::Call(
            SlotMapCall::Slot(slot_call),
        ),
        forall|worked: bool| #[trigger]
            map_step(Some(true), Some(worked), thread_call, slot_call) == (MapStep::Done {
                worked,
            }),
        forall|slot: Option<bool>| #[trigger]
            map_step(Some(false), slot, thread_call, slot_call) == (MapStep::Done {
                worked: false,
            }),
{
}

} // verus!
