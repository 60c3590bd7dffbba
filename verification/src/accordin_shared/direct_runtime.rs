//! Acquisition brackets of the direct interfaces.
use vstd::prelude::*;

use crate::accordin_shared::admission;
use crate::accordin_shared::admission::AdmissionState;
use crate::lock_backend::LockBackend;

verus! {

/// How far an acquisition got.
#[derive(Clone, Copy, Debug, PartialEq, Eq, Structural)]
pub enum LockStage {
    /// The lock was tried.
    Trying { outer: bool },
    /// A slot is waited for.
    AwaitingSlot,
    /// The lock is waited for.
    Blocking { outer: bool },
    /// The lock is held.
    Entered,
}

/// What the caller is to do, or wait for, next.
#[derive(Clone, Copy, Debug, PartialEq, Eq, Structural)]
pub enum LockAction {
    /// Try the lock, and report the outcome.
    TryLock,
    /// Wait until the scheduler grants the ticket.
    AwaitSlot { ticket: u64 },
    /// Take the lock, however long that takes.
    Lock,
    /// Nothing: the lock is held.
    Done,
}

/// Opens an acquisition. Only the outermost one asks for a CPU admission slot.
pub fn lock(state: &mut AdmissionState, enabled: bool) -> (r: (LockStage, LockAction))
    requires
        old(state).depth < u32::MAX,
    ensures
        r.0 == (LockStage::Trying { outer: enabled && old(state).depth == 0 }),
        r.1 == LockAction::TryLock,
        final(state).depth == old(state).depth + 1,
        final(state).word == if enabled && old(state).depth == 0 {
            admission::next_request(old(state).word)
        } else {
            old(state).word
        },
{
    let outer: bool = admission::begin(state, enabled);
    (LockStage::Trying { outer }, LockAction::TryLock)
}

/// Advances an acquisition by what was done last. `acquired` is the outcome of
/// trying the lock, and is not looked at elsewhere.
pub fn lock_next(
    state: &mut AdmissionState,
    stage: LockStage,
    acquired: bool,
    tid: u32,
) -> (r: (LockStage, LockAction))
    ensures
        final(state).depth == old(state).depth,
        final(state)@.request == old(state)@.request,
        match stage {
            LockStage::Trying { outer } => if acquired {
                &&& r == (LockStage::Entered, LockAction::Done)
                &&& final(state).word == if outer {
                    admission::held_word(old(state).word)
                } else {
                    old(state).word
                }
            } else if outer {
                &&& r == (
                    LockStage::AwaitingSlot,
                    LockAction::AwaitSlot {
                        ticket: admission::ticket_of(old(state)@.request, tid),
                    },
                )
                &&& final(state).word == old(state).word | admission::WAITING
            } else {
                &&& r == (LockStage::Blocking { outer: false }, LockAction::Lock)
                &&& final(state).word == old(state).word
            },
            LockStage::AwaitingSlot => {
                &&& r == (LockStage::Blocking { outer: true }, LockAction::Lock)
                &&& final(state)@.flags == admission::SPINNING
            },
            LockStage::Blocking { outer } => {
                &&& r == (LockStage::Entered, LockAction::Done)
                &&& final(state).word == if outer {
                    admission::held_word(old(state).word)
                } else {
                    old(state).word
                }
            },
            LockStage::Entered => {
                &&& r == (LockStage::Entered, LockAction::Done)
                &&& final(state).word == old(state).word
            },
        },
{
    match stage {
        LockStage::Trying { outer } => if acquired {
            admission::enter(state, outer);
            (LockStage::Entered, LockAction::Done)
        } else if outer {
            let ticket: u64 = admission::wait_begin(state, tid);
            (LockStage::AwaitingSlot, LockAction::AwaitSlot { ticket })
        } else {
            (LockStage::Blocking { outer: false }, LockAction::Lock)
        },
        LockStage::AwaitingSlot => {
            admission::wait(state);
            (LockStage::Blocking { outer: true }, LockAction::Lock)
        },
        LockStage::Blocking { outer } => {
            admission::enter(state, outer);
            (LockStage::Entered, LockAction::Done)
        },
        LockStage::Entered => (LockStage::Entered, LockAction::Done),
    }
}

/// Takes the lock if it is free: the result is what the lock's own attempt gave. A
/// failed attempt opens no episode and changes nothing.
pub fn try_lock<L: LockBackend>(state: &mut AdmissionState, enabled: bool, lock: &L) -> (r: bool)
    requires
        old(state).depth < u32::MAX,
    ensures
        call_ensures(L::try_lock, (lock,), r),
        r ==> final(state).depth == old(state).depth + 1,
        r ==> final(state).word == if enabled && old(state).depth == 0 {
            admission::held_word(admission::next_request(old(state).word))
        } else {
            old(state).word
        },
        !r ==> *final(state) == *old(state),
{
    if !lock.try_lock() {
        return false;
    }
    let outer: bool = admission::begin(state, enabled);
    admission::enter(state, outer);
    true
}

/// Releases the lock, and ends the episode where it is the last one.
pub fn unlock<L: LockBackend>(state: &mut AdmissionState, enabled: bool, lock: &L)
    requires
        old(state).depth > 0,
    ensures
        call_ensures(L::unlock, (lock,), ()),
        final(state).depth == old(state).depth - 1,
        final(state)@ == if old(state).depth == 1 && enabled {
            admission::WordView { flags: 0, ..old(state)@ }
        } else {
            old(state)@
        },
{
    lock.unlock();
    admission::finish(state, enabled);
}

/// The word after an acquisition runs to its end over the outcome of trying the
/// lock.
pub open spec fn word_after_lock(word: u32, depth: u32, enabled: bool, acquired: bool) -> u32 {
    let outer = enabled && depth == 0;
    let begun = if outer {
        admission::next_request(word)
    } else {
        word
    };
    let waited = if !acquired && outer {
        ((begun | admission::WAITING) & !admission::FLAGS) | admission::SPINNING
    } else {
        begun
    };
    if outer {
        admission::held_word(waited)
    } else {
        waited
    }
}

/// Whichever way the lock was got, the thread shows the same word afterwards.
pub proof fn law_both_ways_into_the_lock_end_alike(word: u32, depth: u32, enabled: bool)
    ensures
        word_after_lock(word, depth, enabled, true) == word_after_lock(word, depth, enabled, false),
{
    let begun = admission::next_request(word);
    admission::lemma_word_parts(begun, admission::SPINNING);
    admission::lemma_word_parts(begun | admission::WAITING, admission::SPINNING);
}

// Registration with the scheduler.
/// Whether a thread is registered, and under which id.
#[derive(Clone, Copy, Debug, PartialEq, Eq, Structural)]
pub struct ThreadRegistration {
    pub tid: Option<u32>,
}

/// Registers a thread, unless it is registered already or the scheduler's map
/// is not there. `Some` returns the id and the address to enter into the map.
pub fn ensure_registered(
    registration: &mut Option<ThreadRegistration>,
    map_present: bool,
    tid: u32,
    word_address: u64,
) -> (r: Option<(u32, u64)>)
    ensures
        *old(registration) is Some ==> *final(registration) == *old(registration) && r is None,
        *old(registration) is None ==> {
            &&& *final(registration) == Some(
                ThreadRegistration {
                    tid: if map_present {
                        Some(tid)
                    } else {
                        None
                    },
                },
            )
            &&& r == if map_present {
                Some((tid, word_address))
            } else {
                None
            }
        },
{
    if registration.is_some() {
        return None;
    }
    if map_present {
        *registration = Some(ThreadRegistration { tid: Some(tid) });
        Some((tid, word_address))
    } else {
        *registration = Some(ThreadRegistration { tid: None });
        None
    }
}

/// The id to remove from the map when a thread ends.
pub fn registration_to_remove(registration: &ThreadRegistration, map_present: bool) -> (r: Option<
    u32,
>)
    ensures
        r == if map_present {
            registration.tid
        } else {
            None
        },
{
    if map_present {
        registration.tid
    } else {
        None
    }
}

/// An outermost acquisition shows the next request as holding, and any other one leaves the
/// word as it is.
pub proof fn law_a_held_lock_is_shown_under_the_next_request(
    word: u32,
    depth: u32,
    enabled: bool,
    acquired: bool,
)
    ensures
        ({
            let after = word_after_lock(word, depth, enabled, acquired);
            &&& enabled && depth == 0 ==> after == ((word as int / 4 + 1) * 4) % 0x1_0000_0000 + 1
            &&& !enabled || depth > 0 ==> after == word
        }),
{
    law_both_ways_into_the_lock_end_alike(word, depth, enabled);
    admission::law_requests_are_numbered_in_order(word, 0);
    let begun = admission::next_request(word);
    admission::law_requests_are_numbered_in_order(begun, 0);
}

} // verus!
