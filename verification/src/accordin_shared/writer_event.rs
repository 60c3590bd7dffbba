//! A wake event for one waiter of a leader/follower queue.
//!
//! A waiter is woken for one of two reasons: its work was done for it, or it is
//! the new head of the queue and has to take the mutex again. The reason is the
//! word that it sleeps on. A waiter with work to do stays shown as sleeping while
//! it is woken, so that the scheduler admits it; from one without, its waker takes
//! that state back.
use vstd::prelude::*;

use crate::accordin_shared::condvar::CondRelock;
use crate::accordin_shared::mutex_hook;
use crate::accordin_shared::mutex_hook::HookCounters;
use crate::errno::{EINTR, EINVAL};

verus! {

/// Not released yet.
pub const WAITING: u32 = 0;

/// The work was done, and its result is published.
pub const COMPLETED: u32 = 1;

/// The head of the queue.
pub const LEADER: u32 = 2;

/// Why a wait ended.
#[derive(Clone, Copy, Debug, PartialEq, Eq, Structural)]
pub enum WakeReason {
    /// The waiter returns without the mutex.
    Completed,
    /// The waiter takes the mutex again.
    BecomeLeader,
}

/// What a waker found when it went to take a waiter's routed state back.
#[derive(Clone, Copy, Debug, PartialEq, Eq, Structural)]
pub enum RouteTakeback {
    Taken,
    /// The waiter had not reached its sleep.
    Unpublished,
    /// The waiter had left it.
    Lost,
}

/// How a wait has gone so far.
#[derive(Clone, Copy, Debug, PartialEq, Eq, Structural)]
pub struct EventWait {
    /// The waiter is shown as sleeping in its admission word.
    pub routed: bool,
    /// A sleep ended by a wake or an interruption.
    pub slept: bool,
}

/// What a waiter does next.
#[derive(Clone, Copy, Debug, PartialEq, Eq, Structural)]
pub enum EventStep {
    /// It shows itself as sleeping in its admission word.
    Publish,
    /// It sleeps while the event reads `WAITING`.
    Sleep,
    /// It makes its admission word that of a released mutex.
    RetireToReleased,
    /// It makes its admission word that of a contender.
    RetireToPending { slept: bool },
    /// It has nothing to retire.
    Finish,
}

/// The state that one waiter sleeps on.
#[derive(Clone, Copy, Debug, PartialEq, Eq, Structural)]
pub struct WriterEvent {
    /// The reason, and the word that the waiter sleeps on.
    pub state: u32,
    /// What the waiter put into its admission word.
    pub armed_value: u32,
    /// The address of that word, 0 while nothing is published.
    pub armed_word: usize,
    /// Whether the re-acquisition is admitted already.
    pub relock_admitted: bool,
}

pub open spec fn fresh_event() -> WriterEvent {
    WriterEvent { state: WAITING, armed_value: 0, armed_word: 0, relock_admitted: false }
}

/// What a waiter does once its routed state is settled.
pub open spec fn next_step(event: WriterEvent, wait: EventWait) -> EventStep {
    if event.state == WAITING {
        EventStep::Sleep
    } else if !wait.routed {
        EventStep::Finish
    } else if event.state == COMPLETED {
        EventStep::RetireToReleased
    } else {
        EventStep::RetireToPending { slept: wait.slept }
    }
}

pub open spec fn relock_of(event: WriterEvent) -> CondRelock {
    if event.relock_admitted {
        CondRelock::AlreadyAdmitted
    } else {
        CondRelock::Normal
    }
}

pub open spec fn takeback_of(event: WriterEvent, exchanged: bool) -> RouteTakeback {
    if event.armed_word == 0 {
        RouteTakeback::Unpublished
    } else if exchanged {
        RouteTakeback::Taken
    } else {
        RouteTakeback::Lost
    }
}

/// The counters after a completed post.
pub open spec fn with_takeback(counters: HookCounters, takeback: RouteTakeback) -> HookCounters {
    match takeback {
        RouteTakeback::Taken => mutex_hook::with_writer_event_route_takeback(counters),
        RouteTakeback::Unpublished =>
            mutex_hook::with_writer_event_route_takeback_unpublished(counters),
        RouteTakeback::Lost => mutex_hook::with_writer_event_route_takeback_lost(counters),
    }
}

impl WriterEvent {
    pub fn new() -> (r: Self)
        ensures
            r == fresh_event(),
    {
        WriterEvent { state: WAITING, armed_value: 0, armed_word: 0, relock_admitted: false }
    }

    /// Makes the event of a caller's own storage fresh.
    pub fn init_in_place(&mut self)
        ensures
            *final(self) == fresh_event(),
    {
        *self = WriterEvent::new();
    }

    /// Declares the waiter unreleased, while it still holds the mutex.
    pub fn arm(&mut self)
        ensures
            *final(self) == (WriterEvent { state: WAITING, ..*old(self) }),
    {
        self.state = WAITING;
    }

    /// Begins a wait, with the mutex released. One that was released before it got
    /// here shows no sleep.
    pub fn wait(&self, admission_scoped: bool) -> (r: (EventWait, EventStep))
        ensures
            r.0 == (EventWait { routed: false, slept: false }),
            r.1 == if self.state == WAITING && admission_scoped {
                EventStep::Publish
            } else {
                next_step(*self, r.0)
            },
    {
        let wait: EventWait = EventWait { routed: false, slept: false };
        if self.state == WAITING && admission_scoped {
            (wait, EventStep::Publish)
        } else {
            (wait, self.next_step(&wait))
        }
    }

    /// Goes on after the waiter showed itself as sleeping. `arm`: the address of its
    /// admission word and the new value, if the word could be changed.
    pub fn published(
        &mut self,
        wait: &mut EventWait,
        arm: Option<(usize, u32)>,
        counters: &mut HookCounters,
    ) -> (r: EventStep)
        ensures
            *final(wait) == (EventWait { routed: arm is Some, ..*old(wait) }),
            *final(self) == if arm is Some {
                WriterEvent { armed_word: (arm->0).0, armed_value: (arm->0).1, ..*old(self) }
            } else {
                *old(self)
            },
            *final(counters) == if arm is Some {
                mutex_hook::with_writer_event_arm(*old(counters))
            } else {
                *old(counters)
            },
            r == next_step(*final(self), *final(wait)),
    {
        wait.routed = self.publish_sleep_state(true, arm, counters);
        self.next_step(wait)
    }

    /// Goes on after a sleep: 0 for a wake, or an error. A wake without a reason is
    /// counted, and nothing is shown again.
    pub fn woken(&self, wait: &mut EventWait, rc: i32, counters: &mut HookCounters) -> (r:
        EventStep)
        ensures
            *final(wait) == (EventWait {
                slept: old(wait).slept || rc == 0 || rc == EINTR,
                ..*old(wait)
            }),
            *final(counters) == if (rc == 0 || rc == EINTR) && self.state == WAITING {
                mutex_hook::with_writer_event_spurious_wake(*old(counters))
            } else {
                *old(counters)
            },
            r == next_step(*self, *final(wait)),
    {
        if rc == 0 || rc == EINTR {
            wait.slept = true;
            if self.state == WAITING {
                mutex_hook::record_writer_event_spurious_wake(counters);
            }
        }
        self.next_step(wait)
    }

    fn next_step(&self, wait: &EventWait) -> (r: EventStep)
        ensures
            r == next_step(*self, *wait),
    {
        if self.state == WAITING {
            EventStep::Sleep
        } else if !wait.routed {
            EventStep::Finish
        } else if self.state == COMPLETED {
            EventStep::RetireToReleased
        } else {
            EventStep::RetireToPending { slept: wait.slept }
        }
    }

    /// Notes what the waiter put into its admission word, and reports whether the
    /// scheduler routes its wakeup. `arm`: the address of the word and its new
    /// value, if the word could be changed.
    pub fn publish_sleep_state(
        &mut self,
        admission_scoped: bool,
        arm: Option<(usize, u32)>,
        counters: &mut HookCounters,
    ) -> (r: bool)
        ensures
            r == (admission_scoped && arm is Some),
            *final(self) == if r {
                WriterEvent { armed_word: (arm->0).0, armed_value: (arm->0).1, ..*old(self) }
            } else {
                *old(self)
            },
            *final(counters) == if r {
                mutex_hook::with_writer_event_arm(*old(counters))
            } else {
                *old(counters)
            },
    {
        if !admission_scoped {
            return false;
        }
        match arm {
            None => false,
            Some((word, value)) => {
                self.armed_value = value;
                self.armed_word = word;
                mutex_hook::record_writer_event_arm(counters);
                true
            },
        }
    }

    /// Ends a wait that was released. A completed one with a routed state still
    /// published, `misrouted`, is counted; a leader that was routed and slept is
    /// admitted already.
    pub fn finish(
        &mut self,
        wait: &EventWait,
        misrouted: bool,
        counters: &mut HookCounters,
    ) -> (r: WakeReason)
        ensures
            r == if old(self).state == COMPLETED {
                WakeReason::Completed
            } else {
                WakeReason::BecomeLeader
            },
            *final(self) == (WriterEvent {
                relock_admitted: r == WakeReason::BecomeLeader && wait.routed && wait.slept,
                ..*old(self)
            }),
            *final(counters) == if r == WakeReason::Completed && wait.routed && misrouted {
                mutex_hook::with_writer_event_completed_misroute(*old(counters))
            } else {
                *old(counters)
            },
    {
        if self.state == COMPLETED {
            if wait.routed && misrouted {
                mutex_hook::record_writer_event_completed_misroute(counters);
            }
            self.store_relock(CondRelock::Normal);
            return WakeReason::Completed;
        }
        if wait.routed && wait.slept {
            self.store_relock(CondRelock::AlreadyAdmitted);
        } else {
            self.store_relock(CondRelock::Normal);
        }
        WakeReason::BecomeLeader
    }

    /// How the finished wait takes the mutex again.
    pub fn take_relock_mode(&self, counters: &mut HookCounters) -> (r: CondRelock)
        ensures
            r == relock_of(*self),
            *final(counters) == if self.relock_admitted {
                mutex_hook::with_writer_event_relock_admitted(*old(counters))
            } else {
                mutex_hook::with_writer_event_relock_normal(*old(counters))
            },
    {
        let mode: CondRelock = self.relock_mode();
        if self.relock_admitted {
            mutex_hook::record_writer_event_relock_admitted(counters);
        } else {
            mutex_hook::record_writer_event_relock_normal(counters);
        }
        mode
    }

    fn store_relock(&mut self, relock: CondRelock)
        ensures
            *final(self) == (WriterEvent {
                relock_admitted: relock == CondRelock::AlreadyAdmitted,
                ..*old(self)
            }),
    {
        self.relock_admitted = relock == CondRelock::AlreadyAdmitted;
    }

    pub fn relock_mode(&self) -> (r: CondRelock)
        ensures
            r == relock_of(*self),
    {
        if self.relock_admitted {
            CondRelock::AlreadyAdmitted
        } else {
            CondRelock::Normal
        }
    }

    /// The word to take the routed state out of, and the value that it must still
    /// have.
    pub fn route_handle(&self) -> (r: Option<(usize, u32)>)
        ensures
            r == if self.armed_word == 0 {
                None
            } else {
                Some((self.armed_word, self.armed_value))
            },
    {
        if self.armed_word == 0 {
            None
        } else {
            Some((self.armed_word, self.armed_value))
        }
    }

    /// What taking the routed state back came to. `exchanged`: the word still had
    /// the value, and was changed.
    pub fn take_route_back(&self, exchanged: bool) -> (r: RouteTakeback)
        ensures
            r == takeback_of(*self, exchanged),
    {
        if self.armed_word == 0 {
            RouteTakeback::Unpublished
        } else if exchanged {
            RouteTakeback::Taken
        } else {
            RouteTakeback::Lost
        }
    }

    /// Releases a waiter whose work is done. The caller wakes it next, and does not
    /// touch the event afterwards.
    pub fn post_completed(&mut self, exchanged: bool, counters: &mut HookCounters)
        ensures
            *final(self) == (WriterEvent { state: COMPLETED, ..*old(self) }),
            *final(counters) == with_takeback(*old(counters), takeback_of(*old(self), exchanged)),
    {
        match self.take_route_back(exchanged) {
            RouteTakeback::Taken => mutex_hook::record_writer_event_route_takeback(counters),
            RouteTakeback::Unpublished =>
                mutex_hook::record_writer_event_route_takeback_unpublished(counters),
            RouteTakeback::Lost => mutex_hook::record_writer_event_route_takeback_lost(counters),
        }
        mutex_hook::record_writer_event_completed_post(counters);
        self.state = COMPLETED;
    }

    /// Makes a waiter the head of the queue. The caller wakes it next, and does not
    /// touch the event afterwards.
    pub fn post_leader(&mut self, counters: &mut HookCounters)
        ensures
            *final(self) == (WriterEvent { state: LEADER, ..*old(self) }),
            *final(counters) == mutex_hook::with_writer_event_leader_post(*old(counters)),
    {
        mutex_hook::record_writer_event_leader_post(counters);
        self.state = LEADER;
    }
}

impl Default for WriterEvent {
    fn default() -> (r: Self)
        ensures
            r == fresh_event(),
    {
        WriterEvent::new()
    }
}

/// A wait shows its waiter as sleeping at most once: no wake that carries no reason
/// undoes what a waker took back.
pub proof fn law_a_wait_publishes_once(event: WriterEvent, wait: EventWait)
    ensures
        next_step(event, wait) != EventStep::Publish,
        next_step(event, wait) == EventStep::Sleep <==> event.state == WAITING,
{
}

/// Every completed post counts as one, whatever became of the routed state.
pub proof fn law_completed_posts_are_counted(counters: HookCounters, takeback: RouteTakeback)
    requires
        counters.enabled,
        counters.writer_event.route_takebacks + counters.writer_event.route_takeback_unpublished
            + counters.writer_event.route_takeback_lost < u64::MAX,
    ensures
        mutex_hook::completed_posts(with_takeback(counters, takeback).writer_event)
            == mutex_hook::completed_posts(counters.writer_event) + 1,
{
}

/// Accepts an address that is not null.
pub fn checked_ref(address: usize) -> (r: Result<usize, i32>)
    ensures
        r == if address == 0 {
            Err::<usize, i32>(EINVAL)
        } else {
            Ok(address)
        },
{
    if address == 0 {
        Err(EINVAL)
    } else {
        Ok(address)
    }
}

/// What initializing an event at an address returns.
pub fn event_init(event: usize, binding: usize) -> (r: i32)
    ensures
        r == if event == 0 || binding == 0 {
            EINVAL
        } else {
            0
        },
{
    if event == 0 || binding == 0 {
        EINVAL
    } else {
        0
    }
}

/// What a wait returns: -1 where there is no event, because every error number
/// could be taken for a reason.
pub fn event_wait_code(reason: Option<WakeReason>) -> (r: i32)
    ensures
        r == match reason {
            None => -1i32,
            Some(WakeReason::Completed) => 0,
            Some(WakeReason::BecomeLeader) => 1,
        },
{
    match reason {
        None => -1,
        Some(WakeReason::Completed) => 0,
        Some(WakeReason::BecomeLeader) => 1,
    }
}

// The waiter and its waker together.
/// An event, with whether its waiter sleeps, and the wakes still to come.
pub struct Waiting {
    pub event: WriterEvent,
    pub asleep: bool,
    pub waking: nat,
}

pub enum WaitingMove {
    /// The waiter is set up anew.
    Arm,
    /// The waiter sleeps, if it is not released.
    Sleep,
    /// Its sleep ends without a wake.
    Stir,
    Post { reason: u32 },
    Wake,
}

pub open spec fn waiting_moved(w: Waiting, m: WaitingMove) -> Waiting {
    match m {
        WaitingMove::Arm => if w.asleep {
            w
        } else {
            Waiting { event: WriterEvent { state: WAITING, ..w.event }, ..w }
        },
        WaitingMove::Sleep => Waiting { asleep: w.asleep || w.event.state == WAITING, ..w },
        WaitingMove::Stir => Waiting { asleep: false, ..w },
        WaitingMove::Post { reason } => if reason == COMPLETED || reason == LEADER {
            Waiting {
                event: WriterEvent { state: reason, ..w.event },
                waking: w.waking + 1,
                ..w
            }
        } else {
            w
        },
        WaitingMove::Wake => if w.waking >= 1 {
            Waiting { asleep: false, waking: (w.waking - 1) as nat, ..w }
        } else {
            w
        },
    }
}

/// A waiter that sleeps is not released, or a wake is on its way.
pub open spec fn will_wake(w: Waiting) -> bool {
    w.asleep ==> w.event.state == WAITING || w.waking > 0
}

/// Whoever goes on next, a released waiter does not sleep on.
pub proof fn law_a_released_waiter_is_woken(w: Waiting, m: WaitingMove)
    requires
        will_wake(w),
    ensures
        will_wake(waiting_moved(w, m)),
{
}

/// A waiter sleeps until it is released. Then one that never showed itself as sleeping is
/// done, one whose work is done gives its routed state up, and any other one makes it that
/// of a contender that says whether it slept.
pub proof fn law_a_released_waiter_settles_its_routed_state(event: WriterEvent, wait: EventWait)
    ensures
        event.state == 0 ==> next_step(event, wait) == EventStep::Sleep,
        event.state != 0 && !wait.routed ==> next_step(event, wait) == EventStep::Finish,
        event.state == 1 && wait.routed ==> next_step(event, wait) == EventStep::RetireToReleased,
        event.state > 1 && wait.routed ==> next_step(event, wait) == (EventStep::RetireToPending {
            slept: wait.slept,
        }),
{
}

/// A new event is unreleased, with nothing published and nothing admitted.
pub proof fn law_a_fresh_event_has_nothing_published()
    ensures
        fresh_event().state == 0,
        fresh_event().armed_word == 0,
        fresh_event().armed_value == 0,
        !fresh_event().relock_admitted,
{
}

/// What a waker finds of a routed state goes by whether anything was published, and then by
/// whether it was still there; each outcome is counted under its own name.
pub proof fn law_a_takeback_is_counted_as_what_it_was(
    event: WriterEvent,
    exchanged: bool,
    counters: HookCounters,
)
    requires
        counters.enabled,
        counters.writer_event.route_takebacks < u64::MAX,
        counters.writer_event.route_takeback_unpublished < u64::MAX,
        counters.writer_event.route_takeback_lost < u64::MAX,
    ensures
        ({
            let before = counters.writer_event;
            let after = with_takeback(counters, takeback_of(event, exchanged)).writer_event;
            let published = event.armed_word != 0;
            &&& after.route_takebacks == before.route_takebacks + if published && exchanged {
                1int
            } else {
                0
            }
            &&& after.route_takeback_lost == before.route_takeback_lost + if published
                && !exchanged {
                1int
            } else {
                0
            }
            &&& after.route_takeback_unpublished == before.route_takeback_unpublished
                + if !published {
                1int
            } else {
                0
            }
        }),
        relock_of(event) == CondRelock::AlreadyAdmitted <==> event.relock_admitted,
        relock_of(event) == CondRelock::Normal <==> !event.relock_admitted,
{
}

} // verus!
