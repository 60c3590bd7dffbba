//! A futex lock with an MCS queue in front of it that threads leave, or do not
//! enter, while the lock holder or the thread at the front of the queue is off
//! its CPU.
//!
//! Every access to shared memory is one step. What holds after any interleaving
//! of the steps of any number of threads is proved of the steps alone.
use vstd::prelude::*;

verus! {

pub const FRONT_RUNNER_EMPTY: u64 = 0;

pub const QNODE_NEXT_NONE: usize = 0;

pub const QNODE_NEXT_PARKED: usize = 1;

pub const LOCK_VALUE_UNLOCKED: i32 = 0;

pub const LOCK_VALUE_LOCKED: i32 = 1;

pub const LOCK_VALUE_CONTENDED: i32 = 2;

pub const FLEXGUARD_CRITICAL_STATE_NONE: u8 = 0;

pub const FLEXGUARD_CRITICAL_STATE_HELD: u8 = 1;

pub const FLEXGUARD_CRITICAL_STATE_FRONT: u8 = 2;

/// No queue node. Slot 0 belongs to no thread.
pub const NO_QNODE: usize = 0;

/// What a thread shows of its place in a queue.
#[derive(Clone, Copy, Debug, PartialEq, Eq, Structural)]
pub struct FlexguardQnode {
    pub waiting: u8,
    pub next: usize,
    pub cs_counter: u8,
}

pub open spec fn fresh_qnode() -> FlexguardQnode {
    FlexguardQnode {
        waiting: 0,
        next: QNODE_NEXT_NONE,
        cs_counter: FLEXGUARD_CRITICAL_STATE_NONE,
    }
}

impl FlexguardQnode {
    pub fn new() -> (r: Self)
        ensures
            r == fresh_qnode(),
    {
        FlexguardQnode {
            waiting: 0,
            next: QNODE_NEXT_NONE,
            cs_counter: FLEXGUARD_CRITICAL_STATE_NONE,
        }
    }
}

/// What a queue node knows of the node behind it.
#[derive(Clone, Copy, Debug, PartialEq, Eq, Structural)]
pub enum QnodeNextState {
    /// Nothing.
    Empty,
    /// Nothing, and its thread sleeps until that changes.
    Parked,
    /// The slot of the node.
    Successor(usize),
}

pub open spec fn next_state(raw: usize) -> QnodeNextState {
    if raw == QNODE_NEXT_NONE {
        QnodeNextState::Empty
    } else if raw == QNODE_NEXT_PARKED {
        QnodeNextState::Parked
    } else {
        QnodeNextState::Successor((raw - 1) as usize)
    }
}

pub fn decode_qnode_next(raw: usize) -> (r: QnodeNextState)
    ensures
        r == next_state(raw),
{
    if raw == QNODE_NEXT_NONE {
        QnodeNextState::Empty
    } else if raw == QNODE_NEXT_PARKED {
        QnodeNextState::Parked
    } else {
        QnodeNextState::Successor(raw - 1)
    }
}

pub fn encode_qnode_next(successor: usize) -> (r: usize)
    requires
        0 < successor < usize::MAX,
    ensures
        r == successor + 1,
        next_state(r) == QnodeNextState::Successor(successor),
{
    successor + 1
}

/// The slots of all threads, and what the scheduler says of them.
pub struct Runtime {
    pub qnodes: Vec<FlexguardQnode>,
    pub num_preempted_holders: i64,
    pub preempted_flags: Vec<u8>,
    pub qnode_generations: Vec<u32>,
    pub next_thread_id: i32,
}

pub open spec fn zeros(count: nat) -> Seq<u32> {
    Seq::new(count, |i: int| 0u32)
}

fn allocate_generation_slots(count: usize) -> (r: Vec<u32>)
    ensures
        r@ == zeros(count as nat),
{
    let mut generations: Vec<u32> = Vec::new();
    let mut i: usize = 0;
    while i < count
        invariant
            i <= count,
            generations@ == zeros(i as nat),
        decreases count - i,
    {
        generations.push(0);
        i += 1;
        assert(generations@ =~= zeros(i as nat));
    }
    generations
}

impl Runtime {
    pub open spec fn slots(self) -> nat {
        self.qnodes@.len()
    }

    pub open spec fn wf(self) -> bool {
        &&& self.preempted_flags@.len() == self.slots()
        &&& self.qnode_generations@.len() == self.slots()
        &&& 1 <= self.slots() <= i32::MAX
        &&& self.next_thread_id >= 1
    }

    pub open spec fn is_slot(self, index: usize) -> bool {
        0 < index < self.slots()
    }

    /// Slots for `slots` threads, the first of which stays unused.
    pub fn allocate_local_runtime(slots: usize) -> (r: Self)
        requires
            1 <= slots <= i32::MAX,
        ensures
            r.wf(),
            r.slots() == slots,
            forall|i: int| 0 <= i < slots ==> #[trigger] r.qnodes@[i] == fresh_qnode(),
            forall|i: int| 0 <= i < slots ==> #[trigger] r.preempted_flags@[i] == 0,
            forall|i: int| 0 <= i < slots ==> #[trigger] r.qnode_generations@[i] == 0,
            r.num_preempted_holders == 0,
            r.next_thread_id == 1,
    {
        let mut qnodes: Vec<FlexguardQnode> = Vec::new();
        let mut preempted_flags: Vec<u8> = Vec::new();
        let mut i: usize = 0;
        while i < slots
            invariant
                i <= slots,
                qnodes@.len() == i,
                preempted_flags@.len() == i,
                forall|k: int| 0 <= k < i ==> #[trigger] qnodes@[k] == fresh_qnode(),
                forall|k: int| 0 <= k < i ==> #[trigger] preempted_flags@[k] == 0,
            decreases slots - i,
        {
            qnodes.push(FlexguardQnode::new());
            preempted_flags.push(0);
            i += 1;
        }
        Runtime {
            qnodes,
            num_preempted_holders: 0,
            preempted_flags,
            qnode_generations: allocate_generation_slots(slots),
            next_thread_id: 1,
        }
    }

    /// Makes the slots that the scheduler shares the process's own, unless it
    /// has some already. Generations start anew.
    pub fn install_bpf_runtime(
        current: &mut Option<Runtime>,
        qnodes: Vec<FlexguardQnode>,
        num_preempted_holders: i64,
        preempted_flags: Vec<u8>,
    )
        requires
            1 <= qnodes@.len() <= i32::MAX,
            preempted_flags@.len() == qnodes@.len(),
        ensures
            *old(current) is Some ==> *final(current) == *old(current),
            *old(current) is None ==> {
                &&& *final(current) is Some
                &&& final(current)->0.wf()
                &&& final(current)->0.qnodes@ == qnodes@
                &&& final(current)->0.num_preempted_holders == num_preempted_holders
                &&& final(current)->0.preempted_flags@ == preempted_flags@
                &&& final(current)->0.qnode_generations@ == zeros(qnodes@.len())
                &&& final(current)->0.next_thread_id == 1
            },
    {
        if current.is_none() {
            let slots: usize = qnodes.len();
            *current =
            Some(
                Runtime {
                    qnodes,
                    num_preempted_holders,
                    preempted_flags,
                    qnode_generations: allocate_generation_slots(slots),
                    next_thread_id: 1,
                },
            );
        }
    }

    /// Makes a slot fresh.
    pub fn initialize_qnode_slot(&mut self, index: usize)
        requires
            old(self).wf(),
            index < old(self).slots(),
        ensures
            final(self).wf(),
            final(self).qnodes@ == old(self).qnodes@.update(index as int, fresh_qnode()),
            final(self).preempted_flags@ == old(self).preempted_flags@.update(index as int, 0),
            final(self).qnode_generations@ == old(self).qnode_generations@.update(index as int, 0),
            final(self).num_preempted_holders == old(self).num_preempted_holders,
            final(self).next_thread_id == old(self).next_thread_id,
    {
        self.qnodes.set(index, FlexguardQnode::new());
        self.preempted_flags.set(index, 0);
        self.qnode_generations.set(index, 0);
    }

    /// Whether another thread can get a slot.
    pub fn has_free_slot(&self) -> (r: bool)
        ensures
            r == (self.next_thread_id < self.slots()),
    {
        if self.next_thread_id < 0 {
            true
        } else {
            (self.next_thread_id as usize) < self.qnodes.len()
        }
    }

    /// The slot of a thread, given to it on its first use of a lock. `thread_id`
    /// is negative until then.
    pub fn current_thread_index(&mut self, thread_id: &mut i32) -> (r: i32)
        requires
            old(self).wf(),
            *old(thread_id) < 0 ==> old(self).next_thread_id < old(self).slots(),
        ensures
            final(self).wf(),
            r == *final(thread_id),
            *old(thread_id) >= 0 ==> r == *old(thread_id) && *final(self) == *old(self),
            *old(thread_id) < 0 ==> {
                &&& r == old(self).next_thread_id
                &&& final(self).is_slot(r as usize)
                &&& final(self).next_thread_id == r + 1
                &&& final(self).qnodes@ == old(self).qnodes@.update(r as int, fresh_qnode())
                &&& final(self).preempted_flags@ == old(self).preempted_flags@.update(r as int, 0)
                &&& final(self).qnode_generations@ == old(self).qnode_generations@.update(
                    r as int,
                    0,
                )
                &&& final(self).num_preempted_holders == old(self).num_preempted_holders
            },
    {
        if *thread_id >= 0 {
            return *thread_id;
        }
        let id: i32 = self.next_thread_id;
        self.next_thread_id = id + 1;
        self.initialize_qnode_slot(id as usize);
        *thread_id = id;
        id
    }

    pub fn holder_preempted(&self) -> (r: bool)
        ensures
            r == (self.num_preempted_holders != 0),
    {
        self.num_preempted_holders != 0
    }

    pub fn qnode_state(&self, index: usize) -> (r: u8)
        requires
            index < self.slots(),
        ensures
            r == self.qnodes@[index as int].cs_counter,
    {
        self.qnodes[index].cs_counter
    }

    pub fn qnode_generation(&self, index: usize) -> (r: u32)
        requires
            self.wf(),
            index < self.slots(),
        ensures
            r == self.qnode_generations@[index as int],
    {
        self.qnode_generations[index]
    }

    pub fn qnode_preempted(&self, index: usize) -> (r: bool)
        requires
            self.wf(),
            index < self.slots(),
        ensures
            r == (self.preempted_flags@[index as int] != 0),
    {
        self.preempted_flags[index] != 0
    }

    /// Starts a new use of a slot, so that tokens of its last use name nobody.
    pub fn advance_qnode_generation(&mut self, index: usize) -> (r: u32)
        requires
            old(self).wf(),
            index < old(self).slots(),
        ensures
            final(self).wf(),
            r == old(self).qnode_generations@[index as int].wrapping_add(1),
            r != old(self).qnode_generations@[index as int],
            final(self).qnode_generations@ == old(self).qnode_generations@.update(index as int, r),
            final(self).qnodes@ == old(self).qnodes@,
            final(self).preempted_flags@ == old(self).preempted_flags@,
            final(self).num_preempted_holders == old(self).num_preempted_holders,
            final(self).next_thread_id == old(self).next_thread_id,
    {
        let next: u32 = self.qnode_generations[index].wrapping_add(1);
        self.qnode_generations.set(index, next);
        next
    }

    fn set_qnode(&mut self, index: usize, qnode: FlexguardQnode)
        requires
            old(self).wf(),
            index < old(self).slots(),
        ensures
            final(self).wf(),
            final(self).qnodes@ == old(self).qnodes@.update(index as int, qnode),
            final(self).qnode_generations@ == old(self).qnode_generations@,
            final(self).preempted_flags@ == old(self).preempted_flags@,
            final(self).num_preempted_holders == old(self).num_preempted_holders,
            final(self).next_thread_id == old(self).next_thread_id,
    {
        self.qnodes.set(index, qnode);
    }

    fn set_state(&mut self, index: usize, cs_counter: u8)
        requires
            old(self).wf(),
            index < old(self).slots(),
        ensures
            final(self).wf(),
            *final(self) == (Runtime { qnodes: final(self).qnodes, ..*old(self) }),
            final(self).qnodes@ == old(self).qnodes@.update(
                index as int,
                FlexguardQnode { cs_counter, ..old(self).qnodes@[index as int] },
            ),
    {
        let mut qnode: FlexguardQnode = self.qnodes[index];
        qnode.cs_counter = cs_counter;
        self.qnodes.set(index, qnode);
    }

    pub fn clear_critical_state(&mut self, index: usize)
        requires
            old(self).wf(),
            index < old(self).slots(),
        ensures
            final(self).wf(),
            *final(self) == (Runtime { qnodes: final(self).qnodes, ..*old(self) }),
            final(self).qnodes@ == old(self).qnodes@.update(
                index as int,
                FlexguardQnode {
                    cs_counter: FLEXGUARD_CRITICAL_STATE_NONE,
                    ..old(self).qnodes@[index as int]
                },
            ),
    {
        self.set_state(index, FLEXGUARD_CRITICAL_STATE_NONE);
    }

    pub fn mark_lock_holder(&mut self, index: usize)
        requires
            old(self).wf(),
            index < old(self).slots(),
        ensures
            final(self).wf(),
            *final(self) == (Runtime { qnodes: final(self).qnodes, ..*old(self) }),
            final(self).qnodes@ == old(self).qnodes@.update(
                index as int,
                FlexguardQnode {
                    cs_counter: FLEXGUARD_CRITICAL_STATE_HELD,
                    ..old(self).qnodes@[index as int]
                },
            ),
    {
        self.set_state(index, FLEXGUARD_CRITICAL_STATE_HELD);
    }

    pub fn mark_front_runner(&mut self, index: usize)
        requires
            old(self).wf(),
            index < old(self).slots(),
        ensures
            final(self).wf(),
            *final(self) == (Runtime { qnodes: final(self).qnodes, ..*old(self) }),
            final(self).qnodes@ == old(self).qnodes@.update(
                index as int,
                FlexguardQnode {
                    cs_counter: FLEXGUARD_CRITICAL_STATE_FRONT,
                    ..old(self).qnodes@[index as int]
                },
            ),
    {
        self.set_state(index, FLEXGUARD_CRITICAL_STATE_FRONT);
    }

    /// Tells the node before `successor` of it, and reports whether that node's
    /// thread has to be woken for it.
    pub fn link_successor(&mut self, pred: usize, successor: usize) -> (r: bool)
        requires
            old(self).wf(),
            pred < old(self).slots(),
            old(self).is_slot(successor),
        ensures
            final(self).wf(),
            r == (old(self).qnodes@[pred as int].next == QNODE_NEXT_PARKED),
            *final(self) == (Runtime { qnodes: final(self).qnodes, ..*old(self) }),
            final(self).qnodes@ == old(self).qnodes@.update(
                pred as int,
                FlexguardQnode {
                    next: (successor + 1) as usize,
                    ..old(self).qnodes@[pred as int]
                },
            ),
    {
        let mut qnode: FlexguardQnode = self.qnodes[pred];
        let previous: usize = qnode.next;
        qnode.next = encode_qnode_next(successor);
        self.qnodes.set(pred, qnode);
        previous == QNODE_NEXT_PARKED
    }
}

/// A token names the use of a slot: its number and its generation.
pub open spec fn token_of(generation: u32, index: usize) -> u64 {
    ((generation as u64) << 32) | (index as u64)
}

/// The slot and the generation that a token names, if it names one of `slots`
/// slots.
pub open spec fn named_by(token: u64, slots: nat) -> Option<(usize, u32)> {
    let index = token & 0xffff_ffff;
    if token == FRONT_RUNNER_EMPTY || index == 0 || index >= slots {
        None
    } else {
        Some((index as usize, (token >> 32) as u32))
    }
}

pub fn encode_front_runner(runtime: &Runtime, front: usize) -> (r: u64)
    requires
        runtime.wf(),
        runtime.is_slot(front),
    ensures
        r == token_of(runtime.qnode_generations@[front as int], front),
{
    let index: u64 = front as u64;
    ((runtime.qnode_generation(front) as u64) << 32) | index
}

pub fn decode_front_runner(token: u64, slots: usize) -> (r: Option<(usize, u32)>)
    requires
        slots <= i32::MAX,
    ensures
        r == named_by(token, slots as nat),
{
    if token == FRONT_RUNNER_EMPTY {
        return None;
    }
    let low: u64 = token & 0xffff_ffff;
    if low == 0 || low >= slots as u64 {
        return None;
    }
    let index: usize = low as usize;
    Some((index, (token >> 32) as u32))
}

/// A token names the slot and the generation that it was made of.
pub proof fn law_a_token_names_its_front_runner(generation: u32, index: usize, slots: nat)
    requires
        0 < index < slots <= i32::MAX,
    ensures
        named_by(token_of(generation, index), slots) == Some((index, generation)),
{
    let low = index as u64;
    assert(low < 0x1_0000_0000);
    let token = ((generation as u64) << 32) | low;
    assert(token & 0xffff_ffff == low && (token >> 32) == generation as u64 && token != 0)
        by (bit_vector)
        requires
            token == ((generation as u64) << 32) | low,
            0 < low < 0x1_0000_0000,
    ;
}

/// What threads share of a lock.
#[verifier::ext_equal]
pub struct Shared {
    pub lock_value: i32,
    pub queue: usize,
    pub front_runner: u64,
    pub qnodes: Seq<FlexguardQnode>,
    pub num_preempted_holders: i64,
    pub preempted_flags: Seq<u8>,
    pub generations: Seq<u32>,
}

impl Shared {
    pub open spec fn slots(self) -> nat {
        self.qnodes.len()
    }

    /// Every node that is named exists.
    pub open spec fn wf(self) -> bool {
        &&& self.preempted_flags.len() == self.slots()
        &&& self.generations.len() == self.slots()
        &&& 1 <= self.slots() <= i32::MAX
        &&& self.queue < self.slots()
        &&& forall|i: int|
            0 <= i < self.slots() ==> (#[trigger] self.qnodes[i]).next <= self.slots()
    }

    pub open spec fn with_qnode(self, index: usize, qnode: FlexguardQnode) -> Shared {
        Shared { qnodes: self.qnodes.update(index as int, qnode), ..self }
    }

    pub open spec fn with_state(self, index: usize, cs_counter: u8) -> Shared {
        self.with_qnode(index, FlexguardQnode { cs_counter, ..self.qnodes[index as int] })
    }

    pub open spec fn with_value(self, lock_value: i32) -> Shared {
        Shared { lock_value, ..self }
    }

    pub open spec fn with_front(self, index: usize) -> Shared {
        Shared { front_runner: token_of(self.generations[index as int], index), ..self }
    }
}

/// Whether the front runner that `token` names is still the one that it was made
/// for.
pub open spec fn is_current(s: Shared, token: u64) -> bool {
    named_by(token, s.slots()) matches Some((index, generation)) && s.generations[index as int]
        == generation && s.qnodes[index as int].cs_counter == FLEXGUARD_CRITICAL_STATE_FRONT
}

/// Whether the published front runner is off its CPU.
pub open spec fn front_blocked(s: Shared) -> bool {
    is_current(s, s.front_runner) && s.preempted_flags[(named_by(
        s.front_runner,
        s.slots(),
    )->0).0 as int] != 0
}

/// The front runner word once it was looked at: a token that names nobody any
/// more is dropped.
pub open spec fn front_after_check(s: Shared) -> u64 {
    if named_by(s.front_runner, s.slots()) is None || is_current(s, s.front_runner) {
        s.front_runner
    } else {
        FRONT_RUNNER_EMPTY
    }
}

/// How far the question got whether queueing makes no sense now: because a lock
/// holder, or the front runner, is off its CPU.
#[derive(Clone, Copy, Debug, PartialEq, Eq, Structural)]
pub enum Check {
    Holders,
    Token,
    Generation { token: u64 },
    State { token: u64 },
    Preempted { token: u64 },
    Clear { token: u64 },
    Answer { blocking: bool },
}

pub open spec fn check_fits(slots: nat, check: Check) -> bool {
    match check {
        Check::Generation { token } => named_by(token, slots) is Some,
        Check::State { token } => named_by(token, slots) is Some,
        Check::Preempted { token } => named_by(token, slots) is Some,
        _ => true,
    }
}

pub open spec fn check_stepped(s: Shared, check: Check) -> (Shared, Check) {
    match check {
        Check::Holders => (
            s,
            if s.num_preempted_holders != 0 {
                Check::Answer { blocking: true }
            } else {
                Check::Token
            },
        ),
        Check::Token => (
            s,
            if named_by(s.front_runner, s.slots()) is None {
                Check::Answer { blocking: false }
            } else {
                Check::Generation { token: s.front_runner }
            },
        ),
        Check::Generation { token } => {
            let (index, generation) = named_by(token, s.slots())->0;
            (
                s,
                if s.generations[index as int] == generation {
                    Check::State { token }
                } else {
                    Check::Clear { token }
                },
            )
        },
        Check::State { token } => {
            let (index, generation) = named_by(token, s.slots())->0;
            (
                s,
                if s.qnodes[index as int].cs_counter == FLEXGUARD_CRITICAL_STATE_FRONT {
                    Check::Preempted { token }
                } else {
                    Check::Clear { token }
                },
            )
        },
        Check::Preempted { token } => {
            let (index, generation) = named_by(token, s.slots())->0;
            (s, Check::Answer { blocking: s.preempted_flags[index as int] != 0 })
        },
        Check::Clear { token } => if s.front_runner == token {
            (
                Shared { front_runner: FRONT_RUNNER_EMPTY, ..s },
                Check::Answer { blocking: false },
            )
        } else {
            (s, Check::Token)
        },
        Check::Answer { blocking } => (s, check),
    }
}

/// What a thread does once it left the queue.
#[derive(Clone, Copy, Debug, PartialEq, Eq, Structural)]
pub enum AfterExit {
    /// It has the lock.
    Hold,
    /// It goes to sleep on the lock word, whose value was `state`.
    Contend { state: i32 },
}

/// How far a thread got in taking the lock.
#[derive(Clone, Copy, Debug, PartialEq, Eq, Structural)]
pub enum LockPhase {
    /// Trying the lock word.
    FastPath,
    /// Deciding whether to queue.
    Deciding { check: Check },
    AdvanceGeneration,
    ResetNext,
    SetWaiting,
    Enqueue,
    /// At the front of the queue.
    MarkFront,
    PublishFront,
    /// Behind `pred` in the queue.
    Link { pred: usize },
    /// The thread of `pred` is to be woken.
    WakePred { pred: usize },
    /// Waiting for the front of the queue.
    AwaitFront,
    AwaitCheck { check: Check },
    LeaveWait,
    /// Trying the lock word again.
    LoadState { enqueued: bool },
    TryTake { enqueued: bool },
    Spin { enqueued: bool, state: i32, check: Check },
    Retry { enqueued: bool, state: i32 },
    /// About to sleep on the lock word.
    ReadContended { state: i32 },
    Contend,
    /// Sleeping while the lock word says contended.
    Sleep,
    Reswap,
    Rejoin { state: i32, check: Check },
    /// Leaving the queue with the lock.
    ExitRead,
    ExitClose,
    ExitAwait,
    ExitHandOver,
    /// Leaving the queue without the lock.
    BlockedRead { state: i32 },
    /// Sleeping while the node behind is not known.
    BlockedSleep { state: i32 },
    BlockedClose { state: i32 },
    BlockedPark { state: i32 },
    /// Letting `successor` to the front.
    ReleaseFront { successor: usize, after: AfterExit },
    ReleasePublish { successor: usize, after: AfterExit },
    ReleaseWaiting { successor: usize, after: AfterExit },
    MarkHolder,
    Held,
}

pub open spec fn spin(enqueued: bool, state: i32) -> LockPhase {
    LockPhase::Spin { enqueued, state, check: Check::Holders }
}

/// Where a thread goes on that got the lock.
pub open spec fn taken(enqueued: bool) -> LockPhase {
    if enqueued {
        LockPhase::ExitRead
    } else {
        LockPhase::MarkHolder
    }
}

pub open spec fn phase_fits(slots: nat, phase: LockPhase) -> bool {
    match phase {
        LockPhase::Deciding { check } => check_fits(slots, check),
        LockPhase::AwaitCheck { check } => check_fits(slots, check),
        LockPhase::Spin { check, .. } => check_fits(slots, check),
        LockPhase::Rejoin { check, .. } => check_fits(slots, check),
        LockPhase::Link { pred } => 0 < pred < slots,
        LockPhase::WakePred { pred } => 0 < pred < slots,
        LockPhase::ReleaseFront { successor, .. } => 0 < successor < slots,
        LockPhase::ReleasePublish { successor, .. } => 0 < successor < slots,
        LockPhase::ReleaseWaiting { successor, .. } => 0 < successor < slots,
        _ => true,
    }
}

/// One step of taking the lock before the lock word was tried again.
pub open spec fn queue_stepped(s: Shared, me: usize, phase: LockPhase) -> (Shared, LockPhase) {
    let own = s.qnodes[me as int];
    match phase {
        LockPhase::FastPath => if s.lock_value == LOCK_VALUE_UNLOCKED {
            (Shared { lock_value: LOCK_VALUE_LOCKED, ..s }, LockPhase::MarkHolder)
        } else {
            (s, LockPhase::Deciding { check: Check::Holders })
        },
        LockPhase::Deciding { check: Check::Answer { blocking } } => (
            s,
            if blocking {
                LockPhase::LoadState { enqueued: false }
            } else {
                LockPhase::AdvanceGeneration
            },
        ),
        LockPhase::Deciding { check } => {
            let (after, check) = check_stepped(s, check);
            (after, LockPhase::Deciding { check })
        },
        LockPhase::AdvanceGeneration => (
            Shared {
                generations: s.generations.update(
                    me as int,
                    s.generations[me as int].wrapping_add(1),
                ),
                ..s
            },
            LockPhase::ResetNext,
        ),
        LockPhase::ResetNext => (
            s.with_qnode(me, FlexguardQnode { next: QNODE_NEXT_NONE, ..own }),
            LockPhase::SetWaiting,
        ),
        LockPhase::SetWaiting => (
            s.with_qnode(me, FlexguardQnode { waiting: 1, ..own }),
            LockPhase::Enqueue,
        ),
        LockPhase::Enqueue => (
            Shared { queue: me, ..s },
            if s.queue == NO_QNODE {
                LockPhase::MarkFront
            } else {
                LockPhase::Link { pred: s.queue }
            },
        ),
        LockPhase::MarkFront => (
            s.with_state(me, FLEXGUARD_CRITICAL_STATE_FRONT),
            LockPhase::PublishFront,
        ),
        LockPhase::PublishFront => (s.with_front(me), LockPhase::LoadState { enqueued: true }),
        LockPhase::Link { pred } => (
            s.with_qnode(
                pred,
                FlexguardQnode { next: (me + 1) as usize, ..s.qnodes[pred as int] },
            ),
            if s.qnodes[pred as int].next == QNODE_NEXT_PARKED {
                LockPhase::WakePred { pred }
            } else {
                LockPhase::AwaitFront
            },
        ),
        LockPhase::WakePred { pred } => (s, LockPhase::AwaitFront),
        LockPhase::AwaitFront => (
            s,
            if own.waiting == 0 {
                LockPhase::LeaveWait
            } else {
                LockPhase::AwaitCheck { check: Check::Holders }
            },
        ),
        LockPhase::AwaitCheck { check: Check::Answer { blocking } } => (
            s,
            if blocking {
                LockPhase::LeaveWait
            } else {
                LockPhase::AwaitFront
            },
        ),
        LockPhase::AwaitCheck { check } => {
            let (after, check) = check_stepped(s, check);
            (after, LockPhase::AwaitCheck { check })
        },
        LockPhase::LeaveWait => (
            s,
            if own.waiting == 0 {
                LockPhase::MarkFront
            } else {
                LockPhase::LoadState { enqueued: true }
            },
        ),
        _ => (s, phase),
    }
}

/// One step of taking the lock word, or of sleeping on it.
pub open spec fn word_stepped(s: Shared, phase: LockPhase) -> (Shared, LockPhase) {
    match phase {
        LockPhase::LoadState { enqueued } => (
            s,
            if s.lock_value == LOCK_VALUE_UNLOCKED {
                LockPhase::TryTake { enqueued }
            } else {
                spin(enqueued, s.lock_value)
            },
        ),
        LockPhase::TryTake { enqueued } => if s.lock_value == LOCK_VALUE_UNLOCKED {
            (Shared { lock_value: LOCK_VALUE_LOCKED, ..s }, taken(enqueued))
        } else {
            (s, spin(enqueued, s.lock_value))
        },
        LockPhase::Spin { enqueued, state, check: Check::Answer { blocking } } => (
            s,
            if !blocking {
                LockPhase::Retry { enqueued, state }
            } else if enqueued {
                LockPhase::BlockedRead { state }
            } else {
                LockPhase::ReadContended { state }
            },
        ),
        LockPhase::Spin { enqueued, state, check } => {
            let (after, check) = check_stepped(s, check);
            (after, LockPhase::Spin { enqueued, state, check })
        },
        LockPhase::Retry { enqueued, state } => (
            s,
            if s.lock_value == LOCK_VALUE_UNLOCKED {
                LockPhase::TryTake { enqueued }
            } else {
                spin(enqueued, state)
            },
        ),
        LockPhase::ReadContended { state } => (
            s,
            if s.lock_value != LOCK_VALUE_CONTENDED {
                LockPhase::Contend
            } else if state == LOCK_VALUE_UNLOCKED {
                LockPhase::MarkHolder
            } else {
                LockPhase::Sleep
            },
        ),
        LockPhase::Contend => (
            Shared { lock_value: LOCK_VALUE_CONTENDED, ..s },
            if s.lock_value == LOCK_VALUE_UNLOCKED {
                LockPhase::MarkHolder
            } else {
                LockPhase::Sleep
            },
        ),
        LockPhase::Sleep => (s, LockPhase::Reswap),
        LockPhase::Reswap => (
            Shared { lock_value: LOCK_VALUE_CONTENDED, ..s },
            if s.lock_value == LOCK_VALUE_UNLOCKED {
                LockPhase::MarkHolder
            } else {
                LockPhase::Rejoin { state: s.lock_value, check: Check::Holders }
            },
        ),
        LockPhase::Rejoin { state, check: Check::Answer { blocking } } => (
            s,
            if blocking {
                spin(false, state)
            } else {
                LockPhase::Deciding { check: Check::Holders }
            },
        ),
        LockPhase::Rejoin { state, check } => {
            let (after, check) = check_stepped(s, check);
            (after, LockPhase::Rejoin { state, check })
        },
        _ => (s, phase),
    }
}

/// One step of leaving the queue.
pub open spec fn exit_stepped(s: Shared, me: usize, phase: LockPhase) -> (Shared, LockPhase) {
    let own = s.qnodes[me as int];
    match phase {
        LockPhase::ExitRead => (
            s,
            if next_state(own.next) == QnodeNextState::Empty {
                LockPhase::ExitClose
            } else {
                LockPhase::ExitHandOver
            },
        ),
        LockPhase::ExitClose => if s.queue == me {
            (Shared { queue: NO_QNODE, ..s }, LockPhase::MarkHolder)
        } else {
            (s, LockPhase::ExitAwait)
        },
        LockPhase::ExitAwait => (
            s,
            if next_state(own.next) == QnodeNextState::Empty {
                LockPhase::ExitAwait
            } else {
                LockPhase::ExitHandOver
            },
        ),
        LockPhase::ExitHandOver => (
            s,
            match next_state(own.next) {
                QnodeNextState::Successor(successor) => LockPhase::ReleaseFront {
                    successor,
                    after: AfterExit::Hold,
                },
                _ => LockPhase::MarkHolder,
            },
        ),
        LockPhase::BlockedRead { state } => (
            s,
            match next_state(own.next) {
                QnodeNextState::Successor(successor) => LockPhase::ReleaseFront {
                    successor,
                    after: AfterExit::Contend { state },
                },
                QnodeNextState::Parked => LockPhase::BlockedSleep { state },
                QnodeNextState::Empty => LockPhase::BlockedClose { state },
            },
        ),
        LockPhase::BlockedSleep { state } => (s, LockPhase::BlockedRead { state }),
        LockPhase::BlockedClose { state } => if s.queue == me {
            (Shared { queue: NO_QNODE, ..s }, LockPhase::ReadContended { state })
        } else {
            (s, LockPhase::BlockedPark { state })
        },
        LockPhase::BlockedPark { state } => if own.next == QNODE_NEXT_NONE {
            (
                s.with_qnode(me, FlexguardQnode { next: QNODE_NEXT_PARKED, ..own }),
                LockPhase::BlockedRead { state },
            )
        } else {
            (s, LockPhase::BlockedRead { state })
        },
        LockPhase::ReleaseFront { successor, after } => (
            s.with_state(successor, FLEXGUARD_CRITICAL_STATE_FRONT),
            LockPhase::ReleasePublish { successor, after },
        ),
        LockPhase::ReleasePublish { successor, after } => (
            s.with_front(successor),
            LockPhase::ReleaseWaiting { successor, after },
        ),
        LockPhase::ReleaseWaiting { successor, after } => (
            s.with_qnode(
                successor,
                FlexguardQnode { waiting: 0, ..s.qnodes[successor as int] },
            ),
            match after {
                AfterExit::Hold => LockPhase::MarkHolder,
                AfterExit::Contend { state } => LockPhase::ReadContended { state },
            },
        ),
        LockPhase::MarkHolder => (
            s.with_state(me, FLEXGUARD_CRITICAL_STATE_HELD),
            LockPhase::Held,
        ),
        _ => (s, phase),
    }
}

/// One step of taking the lock.
pub open spec fn lock_stepped(s: Shared, me: usize, phase: LockPhase) -> (Shared, LockPhase) {
    if in_queue_part(phase) {
        queue_stepped(s, me, phase)
    } else if in_word_part(phase) {
        word_stepped(s, phase)
    } else {
        exit_stepped(s, me, phase)
    }
}

pub open spec fn in_queue_part(phase: LockPhase) -> bool {
    match phase {
        LockPhase::FastPath => true,
        LockPhase::Deciding { .. } => true,
        LockPhase::AdvanceGeneration => true,
        LockPhase::ResetNext => true,
        LockPhase::SetWaiting => true,
        LockPhase::Enqueue => true,
        LockPhase::MarkFront => true,
        LockPhase::PublishFront => true,
        LockPhase::Link { .. } => true,
        LockPhase::WakePred { .. } => true,
        LockPhase::AwaitFront => true,
        LockPhase::AwaitCheck { .. } => true,
        LockPhase::LeaveWait => true,
        _ => false,
    }
}

pub open spec fn in_word_part(phase: LockPhase) -> bool {
    match phase {
        LockPhase::LoadState { .. } => true,
        LockPhase::TryTake { .. } => true,
        LockPhase::Spin { .. } => true,
        LockPhase::Retry { .. } => true,
        LockPhase::ReadContended { .. } => true,
        LockPhase::Contend => true,
        LockPhase::Sleep => true,
        LockPhase::Reswap => true,
        LockPhase::Rejoin { .. } => true,
        _ => false,
    }
}

/// What keeps every node named an existing one.
pub open spec fn step_fits(s: Shared, after: Shared, next: LockPhase) -> bool {
    &&& after.wf()
    &&& after.slots() == s.slots()
    &&& phase_fits(s.slots(), next)
}

proof fn lemma_with_qnode_keeps_links(s: Shared, index: usize, qnode: FlexguardQnode)
    requires
        s.wf(),
        index < s.slots(),
        qnode.next <= s.slots(),
    ensures
        s.with_qnode(index, qnode).wf(),
        s.with_qnode(index, qnode).slots() == s.slots(),
{
    let after = s.with_qnode(index, qnode);
    assert forall|i: int| 0 <= i < after.slots() implies (#[trigger] after.qnodes[i]).next
        <= after.slots() by {
        assert(s.qnodes[i].next <= s.slots());
    }
}

proof fn lemma_check_keeps_links(s: Shared, check: Check)
    requires
        s.wf(),
        check_fits(s.slots(), check),
    ensures
        check_stepped(s, check).0.wf(),
        check_stepped(s, check).0.slots() == s.slots(),
        check_fits(s.slots(), check_stepped(s, check).1),
{
    let after = check_stepped(s, check).0;
    assert(after.qnodes == s.qnodes);
}

proof fn lemma_queue_step_keeps_links(s: Shared, me: usize, phase: LockPhase)
    requires
        s.wf(),
        0 < me < s.slots(),
        phase_fits(s.slots(), phase),
    ensures
        step_fits(s, queue_stepped(s, me, phase).0, queue_stepped(s, me, phase).1),
{
    let own = s.qnodes[me as int];
    assert(own.next <= s.slots());
    match phase {
        LockPhase::Deciding { check } => {
            lemma_check_keeps_links(s, check);
        },
        LockPhase::AwaitCheck { check } => {
            lemma_check_keeps_links(s, check);
        },
        LockPhase::ResetNext => {
            lemma_with_qnode_keeps_links(
                s,
                me,
                FlexguardQnode { next: QNODE_NEXT_NONE, ..own },
            );
        },
        LockPhase::SetWaiting => {
            lemma_with_qnode_keeps_links(s, me, FlexguardQnode { waiting: 1, ..own });
        },
        LockPhase::MarkFront => {
            lemma_with_qnode_keeps_links(
                s,
                me,
                FlexguardQnode { cs_counter: FLEXGUARD_CRITICAL_STATE_FRONT, ..own },
            );
        },
        LockPhase::Link { pred } => {
            lemma_with_qnode_keeps_links(
                s,
                pred,
                FlexguardQnode { next: (me + 1) as usize, ..s.qnodes[pred as int] },
            );
        },
        _ => {
            assert(queue_stepped(s, me, phase).0.qnodes == s.qnodes);
        },
    }
}

proof fn lemma_word_step_keeps_links(s: Shared, phase: LockPhase)
    requires
        s.wf(),
        phase_fits(s.slots(), phase),
    ensures
        step_fits(s, word_stepped(s, phase).0, word_stepped(s, phase).1),
{
    match phase {
        LockPhase::Spin { check, .. } => {
            lemma_check_keeps_links(s, check);
        },
        LockPhase::Rejoin { check, .. } => {
            lemma_check_keeps_links(s, check);
        },
        _ => {
            assert(word_stepped(s, phase).0.qnodes == s.qnodes);
        },
    }
}

proof fn lemma_exit_step_keeps_links(s: Shared, me: usize, phase: LockPhase)
    requires
        s.wf(),
        0 < me < s.slots(),
        phase_fits(s.slots(), phase),
    ensures
        step_fits(s, exit_stepped(s, me, phase).0, exit_stepped(s, me, phase).1),
{
    let own = s.qnodes[me as int];
    assert(own.next <= s.slots());
    match phase {
        LockPhase::BlockedPark { .. } => {
            lemma_with_qnode_keeps_links(
                s,
                me,
                FlexguardQnode { next: QNODE_NEXT_PARKED, ..own },
            );
        },
        LockPhase::ReleaseFront { successor, .. } => {
            lemma_with_qnode_keeps_links(
                s,
                successor,
                FlexguardQnode {
                    cs_counter: FLEXGUARD_CRITICAL_STATE_FRONT,
                    ..s.qnodes[successor as int]
                },
            );
        },
        LockPhase::ReleaseWaiting { successor, .. } => {
            lemma_with_qnode_keeps_links(
                s,
                successor,
                FlexguardQnode { waiting: 0, ..s.qnodes[successor as int] },
            );
        },
        LockPhase::MarkHolder => {
            lemma_with_qnode_keeps_links(
                s,
                me,
                FlexguardQnode { cs_counter: FLEXGUARD_CRITICAL_STATE_HELD, ..own },
            );
        },
        _ => {
            assert(exit_stepped(s, me, phase).0.qnodes == s.qnodes);
        },
    }
}

/// A step names no node that does not exist.
pub proof fn law_steps_keep_links(s: Shared, me: usize, phase: LockPhase)
    requires
        s.wf(),
        0 < me < s.slots(),
        phase_fits(s.slots(), phase),
    ensures
        step_fits(s, lock_stepped(s, me, phase).0, lock_stepped(s, me, phase).1),
{
    if in_queue_part(phase) {
        lemma_queue_step_keeps_links(s, me, phase);
    } else if in_word_part(phase) {
        lemma_word_step_keeps_links(s, phase);
    } else {
        lemma_exit_step_keeps_links(s, me, phase);
    }
}

/// How far a thread got in releasing the lock.
#[derive(Clone, Copy, Debug, PartialEq, Eq, Structural)]
pub enum UnlockPhase {
    Release,
    /// A thread that sleeps on the lock word is to be woken.
    Wake,
    ClearState,
    Done,
}

pub open spec fn unlock_stepped(s: Shared, me: usize, phase: UnlockPhase) -> (Shared, UnlockPhase) {
    match phase {
        UnlockPhase::Release => (
            Shared { lock_value: LOCK_VALUE_UNLOCKED, ..s },
            if s.lock_value != LOCK_VALUE_LOCKED {
                UnlockPhase::Wake
            } else {
                UnlockPhase::ClearState
            },
        ),
        UnlockPhase::Wake => (s, UnlockPhase::ClearState),
        UnlockPhase::ClearState => (
            s.with_state(me, FLEXGUARD_CRITICAL_STATE_NONE),
            UnlockPhase::Done,
        ),
        UnlockPhase::Done => (s, UnlockPhase::Done),
    }
}

/// The lock.
pub struct McsTasLockRaw {
    pub lock_value: i32,
    pub queue: usize,
    pub front_runner: u64,
}

pub open spec fn shared_of(lock: McsTasLockRaw, runtime: Runtime) -> Shared {
    Shared {
        lock_value: lock.lock_value,
        queue: lock.queue,
        front_runner: lock.front_runner,
        qnodes: runtime.qnodes@,
        num_preempted_holders: runtime.num_preempted_holders,
        preempted_flags: runtime.preempted_flags@,
        generations: runtime.qnode_generations@,
    }
}

impl McsTasLockRaw {
    pub fn new() -> (r: Self)
        ensures
            r.lock_value == LOCK_VALUE_UNLOCKED,
            r.queue == NO_QNODE,
            r.front_runner == FRONT_RUNNER_EMPTY,
    {
        McsTasLockRaw {
            lock_value: LOCK_VALUE_UNLOCKED,
            queue: NO_QNODE,
            front_runner: FRONT_RUNNER_EMPTY,
        }
    }

    fn check_step(&mut self, runtime: &Runtime, check: Check) -> (r: Check)
        requires
            runtime.wf(),
            check_fits(runtime.slots(), check),
        ensures
            (shared_of(*final(self), *runtime), r) == check_stepped(
                shared_of(*old(self), *runtime),
                check,
            ),
    {
        let slots: usize = runtime.qnodes.len();
        match check {
            Check::Holders => if runtime.holder_preempted() {
                Check::Answer { blocking: true }
            } else {
                Check::Token
            },
            Check::Token => match decode_front_runner(self.front_runner, slots) {
                None => Check::Answer { blocking: false },
                Some(_) => Check::Generation { token: self.front_runner },
            },
            Check::Generation { token } => match decode_front_runner(token, slots) {
                None => Check::Clear { token },
                Some((index, generation)) => if runtime.qnode_generation(index) == generation {
                    Check::State { token }
                } else {
                    Check::Clear { token }
                },
            },
            Check::State { token } => match decode_front_runner(token, slots) {
                None => Check::Clear { token },
                Some((index, _)) => if runtime.qnode_state(index)
                    == FLEXGUARD_CRITICAL_STATE_FRONT {
                    Check::Preempted { token }
                } else {
                    Check::Clear { token }
                },
            },
            Check::Preempted { token } => match decode_front_runner(token, slots) {
                None => Check::Clear { token },
                Some((index, _)) => Check::Answer { blocking: runtime.qnode_preempted(index) },
            },
            Check::Clear { token } => if self.front_runner == token {
                self.front_runner = FRONT_RUNNER_EMPTY;
                Check::Answer { blocking: false }
            } else {
                Check::Token
            },
            Check::Answer { blocking } => Check::Answer { blocking },
        }
    }

    fn queue_step(&mut self, runtime: &mut Runtime, me: usize, phase: LockPhase) -> (r: LockPhase)
        requires
            old(runtime).wf(),
            shared_of(*old(self), *old(runtime)).wf(),
            old(runtime).is_slot(me),
            phase_fits(old(runtime).slots(), phase),
        ensures
            final(runtime).wf(),
            final(runtime).next_thread_id == old(runtime).next_thread_id,
            (shared_of(*final(self), *final(runtime)), r) == queue_stepped(
                shared_of(*old(self), *old(runtime)),
                me,
                phase,
            ),
    {
        let ghost before = shared_of(*self, *runtime);
        match phase {
            LockPhase::FastPath => if self.lock_value == LOCK_VALUE_UNLOCKED {
                self.lock_value = LOCK_VALUE_LOCKED;
                LockPhase::MarkHolder
            } else {
                LockPhase::Deciding { check: Check::Holders }
            },
            LockPhase::Deciding { check } => match check {
                Check::Answer { blocking } => if blocking {
                    LockPhase::LoadState { enqueued: false }
                } else {
                    LockPhase::AdvanceGeneration
                },
                _ => {
                    let check: Check = self.check_step(runtime, check);
                    LockPhase::Deciding { check }
                },
            },
            LockPhase::AdvanceGeneration => {
                let _ = runtime.advance_qnode_generation(me);
                LockPhase::ResetNext
            },
            LockPhase::ResetNext => {
                let mut own: FlexguardQnode = runtime.qnodes[me];
                own.next = QNODE_NEXT_NONE;
                runtime.set_qnode(me, own);
                LockPhase::SetWaiting
            },
            LockPhase::SetWaiting => {
                let mut own: FlexguardQnode = runtime.qnodes[me];
                own.waiting = 1;
                runtime.set_qnode(me, own);
                LockPhase::Enqueue
            },
            LockPhase::Enqueue => {
                let pred: usize = self.queue;
                self.queue = me;
                if pred == NO_QNODE {
                    LockPhase::MarkFront
                } else {
                    LockPhase::Link { pred }
                }
            },
            LockPhase::MarkFront => {
                runtime.mark_front_runner(me);
                LockPhase::PublishFront
            },
            LockPhase::PublishFront => {
                self.publish_front_runner(runtime, me);
                LockPhase::LoadState { enqueued: true }
            },
            LockPhase::Link { pred } => if runtime.link_successor(pred, me) {
                LockPhase::WakePred { pred }
            } else {
                LockPhase::AwaitFront
            },
            LockPhase::WakePred { pred: _ } => LockPhase::AwaitFront,
            LockPhase::AwaitFront => if runtime.qnodes[me].waiting == 0 {
                LockPhase::LeaveWait
            } else {
                LockPhase::AwaitCheck { check: Check::Holders }
            },
            LockPhase::AwaitCheck { check } => match check {
                Check::Answer { blocking } => if blocking {
                    LockPhase::LeaveWait
                } else {
                    LockPhase::AwaitFront
                },
                _ => {
                    let check: Check = self.check_step(runtime, check);
                    LockPhase::AwaitCheck { check }
                },
            },
            LockPhase::LeaveWait => if runtime.qnodes[me].waiting == 0 {
                LockPhase::MarkFront
            } else {
                LockPhase::LoadState { enqueued: true }
            },
            _ => phase,
        }
    }

    fn word_step(&mut self, runtime: &Runtime, phase: LockPhase) -> (r: LockPhase)
        requires
            runtime.wf(),
            phase_fits(runtime.slots(), phase),
        ensures
            (shared_of(*final(self), *runtime), r) == word_stepped(
                shared_of(*old(self), *runtime),
                phase,
            ),
    {
        match phase {
            LockPhase::LoadState { enqueued } => if self.lock_value == LOCK_VALUE_UNLOCKED {
                LockPhase::TryTake { enqueued }
            } else {
                LockPhase::Spin { enqueued, state: self.lock_value, check: Check::Holders }
            },
            LockPhase::TryTake { enqueued } => if self.lock_value == LOCK_VALUE_UNLOCKED {
                self.lock_value = LOCK_VALUE_LOCKED;
                if enqueued {
                    LockPhase::ExitRead
                } else {
                    LockPhase::MarkHolder
                }
            } else {
                LockPhase::Spin { enqueued, state: self.lock_value, check: Check::Holders }
            },
            LockPhase::Spin { enqueued, state, check } => match check {
                Check::Answer { blocking } => if !blocking {
                    LockPhase::Retry { enqueued, state }
                } else if enqueued {
                    LockPhase::BlockedRead { state }
                } else {
                    LockPhase::ReadContended { state }
                },
                _ => {
                    let check: Check = self.check_step(runtime, check);
                    LockPhase::Spin { enqueued, state, check }
                },
            },
            LockPhase::Retry { enqueued, state } => if self.lock_value == LOCK_VALUE_UNLOCKED {
                LockPhase::TryTake { enqueued }
            } else {
                LockPhase::Spin { enqueued, state, check: Check::Holders }
            },
            LockPhase::ReadContended { state } => if self.lock_value != LOCK_VALUE_CONTENDED {
                LockPhase::Contend
            } else if state == LOCK_VALUE_UNLOCKED {
                LockPhase::MarkHolder
            } else {
                LockPhase::Sleep
            },
            LockPhase::Contend => {
                let state: i32 = self.lock_value;
                self.lock_value = LOCK_VALUE_CONTENDED;
                if state == LOCK_VALUE_UNLOCKED {
                    LockPhase::MarkHolder
                } else {
                    LockPhase::Sleep
                }
            },
            LockPhase::Sleep => LockPhase::Reswap,
            LockPhase::Reswap => {
                let state: i32 = self.lock_value;
                self.lock_value = LOCK_VALUE_CONTENDED;
                if state == LOCK_VALUE_UNLOCKED {
                    LockPhase::MarkHolder
                } else {
                    LockPhase::Rejoin { state, check: Check::Holders }
                }
            },
            LockPhase::Rejoin { state, check } => match check {
                Check::Answer { blocking } => if blocking {
                    LockPhase::Spin { enqueued: false, state, check: Check::Holders }
                } else {
                    LockPhase::Deciding { check: Check::Holders }
                },
                _ => {
                    let check: Check = self.check_step(runtime, check);
                    LockPhase::Rejoin { state, check }
                },
            },
            _ => phase,
        }
    }

    fn exit_step(&mut self, runtime: &mut Runtime, me: usize, phase: LockPhase) -> (r: LockPhase)
        requires
            old(runtime).wf(),
            shared_of(*old(self), *old(runtime)).wf(),
            old(runtime).is_slot(me),
            phase_fits(old(runtime).slots(), phase),
        ensures
            final(runtime).wf(),
            final(runtime).next_thread_id == old(runtime).next_thread_id,
            (shared_of(*final(self), *final(runtime)), r) == exit_stepped(
                shared_of(*old(self), *old(runtime)),
                me,
                phase,
            ),
    {
        match phase {
            LockPhase::ExitRead => match decode_qnode_next(runtime.qnodes[me].next) {
                QnodeNextState::Empty => LockPhase::ExitClose,
                _ => LockPhase::ExitHandOver,
            },
            LockPhase::ExitClose => if self.queue == me {
                self.queue = NO_QNODE;
                LockPhase::MarkHolder
            } else {
                LockPhase::ExitAwait
            },
            LockPhase::ExitAwait => match decode_qnode_next(runtime.qnodes[me].next) {
                QnodeNextState::Empty => LockPhase::ExitAwait,
                _ => LockPhase::ExitHandOver,
            },
            LockPhase::ExitHandOver => match decode_qnode_next(runtime.qnodes[me].next) {
                QnodeNextState::Successor(successor) => LockPhase::ReleaseFront {
                    successor,
                    after: AfterExit::Hold,
                },
                _ => LockPhase::MarkHolder,
            },
            LockPhase::BlockedRead { state } => match decode_qnode_next(runtime.qnodes[me].next) {
                QnodeNextState::Successor(successor) => LockPhase::ReleaseFront {
                    successor,
                    after: AfterExit::Contend { state },
                },
                QnodeNextState::Parked => LockPhase::BlockedSleep { state },
                QnodeNextState::Empty => LockPhase::BlockedClose { state },
            },
            LockPhase::BlockedSleep { state } => LockPhase::BlockedRead { state },
            LockPhase::BlockedClose { state } => if self.queue == me {
                self.queue = NO_QNODE;
                LockPhase::ReadContended { state }
            } else {
                LockPhase::BlockedPark { state }
            },
            LockPhase::BlockedPark { state } => {
                let mut own: FlexguardQnode = runtime.qnodes[me];
                if own.next == QNODE_NEXT_NONE {
                    own.next = QNODE_NEXT_PARKED;
                    runtime.set_qnode(me, own);
                }
                LockPhase::BlockedRead { state }
            },
            LockPhase::ReleaseFront { successor, after } => {
                runtime.mark_front_runner(successor);
                LockPhase::ReleasePublish { successor, after }
            },
            LockPhase::ReleasePublish { successor, after } => {
                self.publish_front_runner(runtime, successor);
                LockPhase::ReleaseWaiting { successor, after }
            },
            LockPhase::ReleaseWaiting { successor, after } => {
                let mut qnode: FlexguardQnode = runtime.qnodes[successor];
                qnode.waiting = 0;
                runtime.set_qnode(successor, qnode);
                match after {
                    AfterExit::Hold => LockPhase::MarkHolder,
                    AfterExit::Contend { state } => LockPhase::ReadContended { state },
                }
            },
            LockPhase::MarkHolder => {
                runtime.mark_lock_holder(me);
                LockPhase::Held
            },
            _ => phase,
        }
    }

    /// Advances a thread by one access to shared memory. Where the phase is a
    /// sleep or a wake, the caller has done that before.
    pub fn lock_step(&mut self, runtime: &mut Runtime, me: usize, phase: LockPhase) -> (r:
        LockPhase)
        requires
            old(runtime).wf(),
            shared_of(*old(self), *old(runtime)).wf(),
            old(runtime).is_slot(me),
            phase_fits(old(runtime).slots(), phase),
        ensures
            final(runtime).wf(),
            final(runtime).next_thread_id == old(runtime).next_thread_id,
            (shared_of(*final(self), *final(runtime)), r) == lock_stepped(
                shared_of(*old(self), *old(runtime)),
                me,
                phase,
            ),
            shared_of(*final(self), *final(runtime)).wf(),
            final(runtime).is_slot(me),
            phase_fits(final(runtime).slots(), r),
    {
        proof {
            law_steps_keep_links(shared_of(*self, *runtime), me, phase);
        }
        match phase {
            LockPhase::FastPath
            | LockPhase::Deciding { .. }
            | LockPhase::AdvanceGeneration
            | LockPhase::ResetNext
            | LockPhase::SetWaiting
            | LockPhase::Enqueue
            | LockPhase::MarkFront
            | LockPhase::PublishFront
            | LockPhase::Link { .. }
            | LockPhase::WakePred { .. }
            | LockPhase::AwaitFront
            | LockPhase::AwaitCheck { .. }
            | LockPhase::LeaveWait => self.queue_step(runtime, me, phase),
            LockPhase::LoadState { .. }
            | LockPhase::TryTake { .. }
            | LockPhase::Spin { .. }
            | LockPhase::Retry { .. }
            | LockPhase::ReadContended { .. }
            | LockPhase::Contend
            | LockPhase::Sleep
            | LockPhase::Reswap
            | LockPhase::Rejoin { .. } => self.word_step(runtime, phase),
            _ => self.exit_step(runtime, me, phase),
        }
    }

    /// Advances a thread that releases the lock by one access to shared memory.
    pub fn unlock_step(&mut self, runtime: &mut Runtime, me: usize, phase: UnlockPhase) -> (r:
        UnlockPhase)
        requires
            old(runtime).wf(),
            old(runtime).is_slot(me),
        ensures
            final(runtime).wf(),
            final(runtime).next_thread_id == old(runtime).next_thread_id,
            (shared_of(*final(self), *final(runtime)), r) == unlock_stepped(
                shared_of(*old(self), *old(runtime)),
                me,
                phase,
            ),
    {
        match phase {
            UnlockPhase::Release => {
                let previous: i32 = self.lock_value;
                self.lock_value = LOCK_VALUE_UNLOCKED;
                if previous != LOCK_VALUE_LOCKED {
                    UnlockPhase::Wake
                } else {
                    UnlockPhase::ClearState
                }
            },
            UnlockPhase::Wake => UnlockPhase::ClearState,
            UnlockPhase::ClearState => {
                runtime.clear_critical_state(me);
                UnlockPhase::Done
            },
            UnlockPhase::Done => UnlockPhase::Done,
        }
    }

    pub fn publish_front_runner(&mut self, runtime: &Runtime, front: usize)
        requires
            runtime.wf(),
            runtime.is_slot(front),
        ensures
            shared_of(*final(self), *runtime) == shared_of(*old(self), *runtime).with_front(front),
    {
        self.front_runner = encode_front_runner(runtime, front);
    }

    /// Shows `front` as the thread at the front of the queue.
    pub fn set_front_runner(&mut self, runtime: &mut Runtime, front: usize)
        requires
            old(runtime).wf(),
            old(runtime).is_slot(front),
        ensures
            final(runtime).wf(),
            final(runtime).next_thread_id == old(runtime).next_thread_id,
            shared_of(*final(self), *final(runtime)) == shared_of(
                *old(self),
                *old(runtime),
            ).with_state(front, FLEXGUARD_CRITICAL_STATE_FRONT).with_front(front),
    {
        runtime.mark_front_runner(front);
        self.publish_front_runner(runtime, front);
    }

    /// Lets `successor` to the front. It is shown there before its thread gets
    /// to run.
    pub fn release_successor(&mut self, runtime: &mut Runtime, successor: usize)
        requires
            old(runtime).wf(),
            old(runtime).is_slot(successor),
        ensures
            final(runtime).wf(),
            final(runtime).next_thread_id == old(runtime).next_thread_id,
            shared_of(*final(self), *final(runtime)) == released(
                shared_of(*old(self), *old(runtime)),
                successor,
            ),
    {
        self.set_front_runner(runtime, successor);
        let mut qnode: FlexguardQnode = runtime.qnodes[successor];
        qnode.waiting = 0;
        runtime.set_qnode(successor, qnode);
    }

    /// Whether the front runner is off its CPU. A token that names nobody any
    /// more is dropped on the way.
    pub fn front_runner_blocked(&mut self, runtime: &Runtime) -> (r: bool)
        requires
            runtime.wf(),
        ensures
            r == front_blocked(shared_of(*old(self), *runtime)),
            shared_of(*final(self), *runtime) == (Shared {
                front_runner: front_after_check(shared_of(*old(self), *runtime)),
                ..shared_of(*old(self), *runtime)
            }),
    {
        match decode_front_runner(self.front_runner, runtime.qnodes.len()) {
            None => false,
            Some((index, generation)) => if runtime.qnode_generation(index) == generation
                && runtime.qnode_state(index) == FLEXGUARD_CRITICAL_STATE_FRONT {
                runtime.qnode_preempted(index)
            } else {
                self.front_runner = FRONT_RUNNER_EMPTY;
                false
            },
        }
    }

    /// Whether a thread that found the lock taken queues for it.
    pub fn should_enqueue_mcs(&mut self, runtime: &Runtime) -> (r: bool)
        requires
            runtime.wf(),
        ensures
            r == !blocking(shared_of(*old(self), *runtime)),
            shared_of(*final(self), *runtime) == after_check(shared_of(*old(self), *runtime)),
    {
        if runtime.holder_preempted() {
            return false;
        }
        !self.front_runner_blocked(runtime)
    }

    /// Whether a thread that waits for the lock goes to sleep.
    pub fn phase2_blocking(&mut self, runtime: &Runtime) -> (r: bool)
        requires
            runtime.wf(),
        ensures
            r == blocking(shared_of(*old(self), *runtime)),
            shared_of(*final(self), *runtime) == after_check(shared_of(*old(self), *runtime)),
    {
        runtime.holder_preempted() || self.front_runner_blocked(runtime)
    }

    /// Leaves the queue with the lock. False: the node behind is not known yet,
    /// and the thread has to try again.
    pub fn mcs_exit(&mut self, runtime: &mut Runtime, me: usize) -> (r: bool)
        requires
            old(runtime).wf(),
            shared_of(*old(self), *old(runtime)).wf(),
            old(runtime).is_slot(me),
        ensures
            final(runtime).wf(),
            final(runtime).next_thread_id == old(runtime).next_thread_id,
            ({
                let before = shared_of(*old(self), *old(runtime));
                let after = shared_of(*final(self), *final(runtime));
                match next_state(before.qnodes[me as int].next) {
                    QnodeNextState::Successor(successor) => r && after == released(
                        before,
                        successor,
                    ),
                    QnodeNextState::Parked => r && after == before,
                    QnodeNextState::Empty => {
                        &&& r == (before.queue == me)
                        &&& after == if r {
                            Shared { queue: NO_QNODE, ..before }
                        } else {
                            before
                        }
                    },
                }
            }),
    {
        match decode_qnode_next(runtime.qnodes[me].next) {
            QnodeNextState::Successor(successor) => {
                assert(runtime.qnodes@[me as int].next <= runtime.slots());
                self.release_successor(runtime, successor);
                true
            },
            QnodeNextState::Parked => true,
            QnodeNextState::Empty => if self.queue == me {
                self.queue = NO_QNODE;
                true
            } else {
                false
            },
        }
    }

    /// Leaves the queue without the lock. False: the node behind is not known
    /// yet, and the thread has to sleep until its own node is no longer parked.
    pub fn mcs_exit_blocking(&mut self, runtime: &mut Runtime, me: usize) -> (r: bool)
        requires
            old(runtime).wf(),
            shared_of(*old(self), *old(runtime)).wf(),
            old(runtime).is_slot(me),
        ensures
            final(runtime).wf(),
            final(runtime).next_thread_id == old(runtime).next_thread_id,
            ({
                let before = shared_of(*old(self), *old(runtime));
                let after = shared_of(*final(self), *final(runtime));
                let own = before.qnodes[me as int];
                match next_state(own.next) {
                    QnodeNextState::Successor(successor) => r && after == released(
                        before,
                        successor,
                    ),
                    QnodeNextState::Parked => !r && after == before,
                    QnodeNextState::Empty => {
                        &&& r == (before.queue == me)
                        &&& after == if r {
                            Shared { queue: NO_QNODE, ..before }
                        } else {
                            before.with_qnode(
                                me,
                                FlexguardQnode { next: QNODE_NEXT_PARKED, ..own },
                            )
                        }
                    },
                }
            }),
    {
        match decode_qnode_next(runtime.qnodes[me].next) {
            QnodeNextState::Successor(successor) => {
                assert(runtime.qnodes@[me as int].next <= runtime.slots());
                self.release_successor(runtime, successor);
                true
            },
            QnodeNextState::Parked => false,
            QnodeNextState::Empty => if self.queue == me {
                self.queue = NO_QNODE;
                true
            } else {
                let mut own: FlexguardQnode = runtime.qnodes[me];
                own.next = QNODE_NEXT_PARKED;
                runtime.set_qnode(me, own);
                false
            },
        }
    }

    /// Takes the lock if it is free.
    pub fn try_lock(&mut self, runtime: &mut Runtime, me: usize) -> (r: bool)
        requires
            old(runtime).wf(),
            old(runtime).is_slot(me),
        ensures
            final(runtime).wf(),
            final(runtime).next_thread_id == old(runtime).next_thread_id,
            r == (old(self).lock_value == LOCK_VALUE_UNLOCKED),
            shared_of(*final(self), *final(runtime)) == if r {
                shared_of(
                    *old(self),
                    *old(runtime),
                ).with_value(LOCK_VALUE_LOCKED).with_state(me, FLEXGUARD_CRITICAL_STATE_HELD)
            } else {
                shared_of(*old(self), *old(runtime))
            },
    {
        if self.lock_value == LOCK_VALUE_UNLOCKED {
            self.lock_value = LOCK_VALUE_LOCKED;
            runtime.mark_lock_holder(me);
            true
        } else {
            false
        }
    }

    /// Takes the lock if it is free, and says otherwise where the steps of
    /// waiting for it begin.
    pub fn lock(&mut self, runtime: &mut Runtime, me: usize) -> (r: LockPhase)
        requires
            old(runtime).wf(),
            old(runtime).is_slot(me),
        ensures
            final(runtime).wf(),
            final(runtime).next_thread_id == old(runtime).next_thread_id,
            old(self).lock_value == LOCK_VALUE_UNLOCKED ==> {
                &&& r == LockPhase::Held
                &&& shared_of(*final(self), *final(runtime)) == shared_of(
                    *old(self),
                    *old(runtime),
                ).with_value(LOCK_VALUE_LOCKED).with_state(me, FLEXGUARD_CRITICAL_STATE_HELD)
            },
            old(self).lock_value != LOCK_VALUE_UNLOCKED ==> {
                &&& r == (LockPhase::Deciding { check: Check::Holders })
                &&& shared_of(*final(self), *final(runtime)) == shared_of(
                    *old(self),
                    *old(runtime),
                )
            },
    {
        if self.try_lock(runtime, me) {
            LockPhase::Held
        } else {
            LockPhase::Deciding { check: Check::Holders }
        }
    }

    /// Releases the lock, and reports whether a thread that sleeps on the lock
    /// word has to be woken.
    pub fn unlock(&mut self, runtime: &mut Runtime, me: usize) -> (r: bool)
        requires
            old(runtime).wf(),
            old(runtime).is_slot(me),
        ensures
            final(runtime).wf(),
            final(runtime).next_thread_id == old(runtime).next_thread_id,
            r == (old(self).lock_value != LOCK_VALUE_LOCKED),
            shared_of(*final(self), *final(runtime)) == shared_of(
                    *old(self),
                    *old(runtime),
                ).with_value(LOCK_VALUE_UNLOCKED).with_state(me, FLEXGUARD_CRITICAL_STATE_NONE),
    {
        let wake: bool = self.lock_value != LOCK_VALUE_LOCKED;
        self.lock_value = LOCK_VALUE_UNLOCKED;
        runtime.clear_critical_state(me);
        wake
    }
}

/// What threads share once `successor` was let to the front.
pub open spec fn released(s: Shared, successor: usize) -> Shared {
    let shown = s.with_state(successor, FLEXGUARD_CRITICAL_STATE_FRONT).with_front(successor);
    shown.with_qnode(
        successor,
        FlexguardQnode { waiting: 0, ..shown.qnodes[successor as int] },
    )
}

pub open spec fn blocking(s: Shared) -> bool {
    s.num_preempted_holders != 0 || front_blocked(s)
}

pub open spec fn after_check(s: Shared) -> Shared {
    if s.num_preempted_holders != 0 {
        s
    } else {
        Shared { front_runner: front_after_check(s), ..s }
    }
}

/// A slot that was put to a new use since it was published does not count as
/// the front runner, whatever it shows now.
pub proof fn law_a_stale_token_blocks_nobody(s: Shared, generation: u32, index: usize)
    requires
        s.wf(),
        0 < index < s.slots(),
        s.front_runner == token_of(generation, index),
        s.generations[index as int] != generation,
    ensures
        !front_blocked(s),
        front_after_check(s) == FRONT_RUNNER_EMPTY,
{
    law_a_token_names_its_front_runner(generation, index, s.slots());
}

/// A successor that is let to the front while it is off its CPU is seen to be.
pub proof fn law_a_released_successor_is_seen_blocked(s: Shared, successor: usize)
    requires
        s.wf(),
        0 < successor < s.slots(),
    ensures
        front_blocked(released(s, successor)) == (s.preempted_flags[successor as int] != 0),
{
    law_a_token_names_its_front_runner(s.generations[successor as int], successor, s.slots());
}

// All threads together.
#[derive(Clone, Copy, Debug, PartialEq, Eq, Structural)]
pub enum Use {
    Idle,
    Locking(LockPhase),
    /// Asleep on the lock word.
    Asleep,
    /// Asleep, on its way out of the queue, until the node behind is known. The lock
    /// word was `state`.
    Parked { state: i32 },
    Unlocking(UnlockPhase),
}

/// A lock with what every thread is doing about it. The thread of `uses[p]` has
/// slot `p + 1`.
pub struct Lock {
    pub shared: Shared,
    pub uses: Seq<Use>,
}

pub enum Move {
    Begin,
    /// One step of taking the lock. A sleep on the lock word ends, or does not
    /// begin.
    Lock,
    /// Falls asleep on the lock word, unless it stopped saying contended.
    Sleep,
    /// Falls asleep until the node behind is known, unless it is.
    Park,
    /// Ends a sleep without being woken.
    Stir,
    TryLock,
    Release,
    /// One step of releasing the lock that wakes nobody.
    Unlock,
    /// Wakes `sleeper`. Nobody is woken only where nobody sleeps.
    Wake { sleeper: int },
}

/// What threads do once the one of slot `slot` was woken, where that sleeps until the
/// node behind it is known.
pub open spec fn with_link_woken(uses: Seq<Use>, slot: usize) -> Seq<Use> {
    if 0 < slot <= uses.len() {
        match uses[slot - 1] {
            Use::Parked { state } => uses.update(
                slot - 1,
                Use::Locking(LockPhase::BlockedRead { state }),
            ),
            _ => uses,
        }
    } else {
        uses
    }
}

/// The lock after the thread of slot `p + 1` made a move. A move that is not the
/// thread's turn changes nothing.
pub open spec fn moved(l: Lock, p: int, m: Move) -> Lock {
    let me = (p + 1) as usize;
    match (m, l.uses[p]) {
        (Move::Begin, Use::Idle) => Lock {
            uses: l.uses.update(p, Use::Locking(LockPhase::FastPath)),
            ..l
        },
        (Move::Lock, Use::Locking(LockPhase::WakePred { pred })) => Lock {
            uses: with_link_woken(l.uses, pred).update(p, Use::Locking(LockPhase::AwaitFront)),
            ..l
        },
        (Move::Lock, Use::Locking(phase)) => {
            let (shared, next) = lock_stepped(l.shared, me, phase);
            Lock { shared, uses: l.uses.update(p, Use::Locking(next)) }
        },
        (Move::Park, Use::Locking(LockPhase::BlockedSleep { state })) => Lock {
            uses: l.uses.update(
                p,
                if l.shared.qnodes[me as int].next == QNODE_NEXT_PARKED {
                    Use::Parked { state }
                } else {
                    Use::Locking(LockPhase::BlockedRead { state })
                },
            ),
            ..l
        },
        (Move::Stir, Use::Parked { state }) => Lock {
            uses: l.uses.update(p, Use::Locking(LockPhase::BlockedRead { state })),
            ..l
        },
        (Move::Sleep, Use::Locking(LockPhase::Sleep)) => if l.shared.lock_value
            == LOCK_VALUE_CONTENDED {
            Lock { uses: l.uses.update(p, Use::Asleep), ..l }
        } else {
            Lock { uses: l.uses.update(p, Use::Locking(LockPhase::Reswap)), ..l }
        },
        (Move::Stir, Use::Asleep) => Lock {
            uses: l.uses.update(p, Use::Locking(LockPhase::Reswap)),
            ..l
        },
        (Move::TryLock, Use::Idle) => if l.shared.lock_value == LOCK_VALUE_UNLOCKED {
            Lock {
                shared: Shared { lock_value: LOCK_VALUE_LOCKED, ..l.shared },
                uses: l.uses.update(p, Use::Locking(LockPhase::MarkHolder)),
            }
        } else {
            l
        },
        (Move::Release, Use::Locking(LockPhase::Held)) => Lock {
            uses: l.uses.update(p, Use::Unlocking(UnlockPhase::Release)),
            ..l
        },
        (Move::Unlock, Use::Unlocking(phase)) => {
            let (shared, next) = unlock_stepped(l.shared, me, phase);
            if phase == UnlockPhase::Wake && has_sleeper(l) {
                l
            } else {
                Lock {
                    shared,
                    uses: l.uses.update(
                        p,
                        if next == UnlockPhase::Done {
                            Use::Idle
                        } else {
                            Use::Unlocking(next)
                        },
                    ),
                }
            }
        },
        (Move::Wake { sleeper }, Use::Unlocking(UnlockPhase::Wake)) => if 0 <= sleeper
            < l.uses.len() && l.uses[sleeper] == Use::Asleep {
            Lock {
                uses: l.uses.update(sleeper, Use::Locking(LockPhase::Reswap)).update(
                    p,
                    Use::Unlocking(UnlockPhase::ClearState),
                ),
                ..l
            }
        } else {
            l
        },
        _ => l,
    }
}

pub open spec fn has_sleeper(l: Lock) -> bool {
    exists|p: int| 0 <= p < l.uses.len() && #[trigger] l.uses[p] == Use::Asleep
}

/// Whether a thread has the lock.
pub open spec fn owns(u: Use) -> bool {
    match u {
        Use::Locking(LockPhase::ExitRead) => true,
        Use::Locking(LockPhase::ExitClose) => true,
        Use::Locking(LockPhase::ExitAwait) => true,
        Use::Locking(LockPhase::ExitHandOver) => true,
        Use::Locking(LockPhase::ReleaseFront { after, .. }) => after == AfterExit::Hold,
        Use::Locking(LockPhase::ReleasePublish { after, .. }) => after == AfterExit::Hold,
        Use::Locking(LockPhase::ReleaseWaiting { after, .. }) => after == AfterExit::Hold,
        Use::Locking(LockPhase::MarkHolder) => true,
        Use::Locking(LockPhase::Held) => true,
        Use::Unlocking(UnlockPhase::Release) => true,
        _ => false,
    }
}

/// A thread that saw the lock taken remembers it as taken.
pub open spec fn saw_taken(u: Use) -> bool {
    match u {
        Use::Locking(LockPhase::Spin { state, .. }) => state != LOCK_VALUE_UNLOCKED,
        Use::Locking(LockPhase::Retry { state, .. }) => state != LOCK_VALUE_UNLOCKED,
        Use::Locking(LockPhase::ReadContended { state }) => state != LOCK_VALUE_UNLOCKED,
        Use::Locking(LockPhase::Rejoin { state, .. }) => state != LOCK_VALUE_UNLOCKED,
        Use::Locking(LockPhase::BlockedRead { state }) => state != LOCK_VALUE_UNLOCKED,
        Use::Locking(LockPhase::BlockedSleep { state }) => state != LOCK_VALUE_UNLOCKED,
        Use::Locking(LockPhase::BlockedClose { state }) => state != LOCK_VALUE_UNLOCKED,
        Use::Locking(LockPhase::BlockedPark { state }) => state != LOCK_VALUE_UNLOCKED,
        Use::Parked { state } => state != LOCK_VALUE_UNLOCKED,
        Use::Locking(
            LockPhase::ReleaseFront { after: AfterExit::Contend { state }, .. },
        ) => state != LOCK_VALUE_UNLOCKED,
        Use::Locking(
            LockPhase::ReleasePublish { after: AfterExit::Contend { state }, .. },
        ) => state != LOCK_VALUE_UNLOCKED,
        Use::Locking(
            LockPhase::ReleaseWaiting { after: AfterExit::Contend { state }, .. },
        ) => state != LOCK_VALUE_UNLOCKED,
        _ => true,
    }
}

/// Whether a thread will mark the lock as contended, or wake a sleeper, next.
pub open spec fn sees_to_sleepers(u: Use) -> bool {
    u == Use::Locking(LockPhase::Reswap) || u == Use::Unlocking(UnlockPhase::Wake)
}

/// The lock word says unlocked exactly while nobody has the lock, and only one
/// thread ever has it.
pub open spec fn exclusive(l: Lock) -> bool {
    &&& l.shared.lock_value != LOCK_VALUE_UNLOCKED ==> exists|p: int|
        0 <= p < l.uses.len() && owns(#[trigger] l.uses[p])
    &&& l.shared.lock_value == LOCK_VALUE_UNLOCKED ==> forall|p: int|
        0 <= p < l.uses.len() ==> !owns(#[trigger] l.uses[p])
    &&& forall|a: int, b: int|
        0 <= a < l.uses.len() && 0 <= b < l.uses.len() && owns(#[trigger] l.uses[a]) && owns(
            #[trigger] l.uses[b],
        ) ==> a == b
    &&& forall|p: int| 0 <= p < l.uses.len() ==> saw_taken(#[trigger] l.uses[p])
}

/// While a thread sleeps on the lock word, the word says so, or some thread is
/// about to say so or to wake a sleeper.
pub open spec fn remembered(l: Lock) -> bool {
    has_sleeper(l) ==> {
        ||| l.shared.lock_value == LOCK_VALUE_CONTENDED
        ||| exists|p: int| 0 <= p < l.uses.len() && sees_to_sleepers(#[trigger] l.uses[p])
    }
}

/// What a step of taking the lock does to the lock word and to owning it.
proof fn lemma_lock_step(s: Shared, me: usize, phase: LockPhase)
    requires
        saw_taken(Use::Locking(phase)),
    ensures
        ({
            let (after, next) = lock_stepped(s, me, phase);
            let before_owns = owns(Use::Locking(phase));
            let after_owns = owns(Use::Locking(next));
            &&& saw_taken(Use::Locking(next))
            &&& before_owns ==> after_owns && after.lock_value == s.lock_value
            &&& !before_owns && after_owns ==> s.lock_value == LOCK_VALUE_UNLOCKED
                && after.lock_value != LOCK_VALUE_UNLOCKED
            &&& !before_owns && !after_owns ==> (after.lock_value == LOCK_VALUE_UNLOCKED <==>
                s.lock_value == LOCK_VALUE_UNLOCKED)
            &&& s.lock_value == LOCK_VALUE_CONTENDED ==> after.lock_value == LOCK_VALUE_CONTENDED
            &&& phase == LockPhase::Reswap ==> after.lock_value == LOCK_VALUE_CONTENDED
        }),
{
}

proof fn lemma_uses_after_step(l: Lock, after: Lock, p: int)
    requires
        exclusive(l),
        0 <= p < l.uses.len(),
        after.uses == l.uses.update(p, after.uses[p]),
        saw_taken(after.uses[p]),
        owns(l.uses[p]) && owns(after.uses[p]) ==> after.shared.lock_value == l.shared.lock_value,
        !owns(l.uses[p]) && owns(after.uses[p]) ==> l.shared.lock_value == LOCK_VALUE_UNLOCKED
            && after.shared.lock_value != LOCK_VALUE_UNLOCKED,
        owns(l.uses[p]) && !owns(after.uses[p]) ==> after.shared.lock_value == LOCK_VALUE_UNLOCKED,
        !owns(l.uses[p]) && !owns(after.uses[p]) ==> (after.shared.lock_value
            == LOCK_VALUE_UNLOCKED <==> l.shared.lock_value == LOCK_VALUE_UNLOCKED),
    ensures
        exclusive(after),
{
    if after.shared.lock_value != LOCK_VALUE_UNLOCKED {
        if owns(after.uses[p]) {
            assert(owns(after.uses[p]));
        } else {
            let o = choose|o: int| 0 <= o < l.uses.len() && owns(#[trigger] l.uses[o]);
            assert(owns(after.uses[o]));
        }
    } else {
        assert forall|q: int| 0 <= q < after.uses.len() implies !owns(#[trigger] after.uses[q]) by {
            if q != p && owns(l.uses[q]) {
                assert(owns(l.uses[p]));
            }
        }
    }
    assert forall|a: int, b: int|
        0 <= a < after.uses.len() && 0 <= b < after.uses.len() && owns(#[trigger] after.uses[a])
            && owns(#[trigger] after.uses[b]) implies a == b by {
        if a != b {
            if a != p {
                assert(owns(l.uses[a]));
            }
            if b != p {
                assert(owns(l.uses[b]));
            }
        }
    }
    assert forall|q: int| 0 <= q < after.uses.len() implies saw_taken(#[trigger] after.uses[q]) by {
        if q != p {
            assert(saw_taken(l.uses[q]));
        }
    }
}

/// A lock that nobody uses is exclusive, and forgets no sleeper.
pub proof fn law_an_unused_lock_is_exclusive(l: Lock)
    requires
        l.shared.lock_value == LOCK_VALUE_UNLOCKED,
        forall|p: int| 0 <= p < l.uses.len() ==> #[trigger] l.uses[p] == Use::Idle,
    ensures
        exclusive(l),
        remembered(l),
{
}

/// Whatever thread moves, and whatever it does, at most one thread has the lock,
/// and the lock word says whether one has.
pub proof fn law_every_move_keeps_the_lock_exclusive(l: Lock, p: int, m: Move)
    requires
        exclusive(l),
        0 <= p < l.uses.len(),
    ensures
        exclusive(moved(l, p, m)),
{
    let after = moved(l, p, m);
    assert(saw_taken(l.uses[p]));
    match (m, l.uses[p]) {
        (Move::Lock, Use::Locking(LockPhase::WakePred { pred })) => {
            let woken = Lock { uses: with_link_woken(l.uses, pred), ..l };
            if woken.uses != l.uses {
                assert(saw_taken(l.uses[pred - 1]));
                lemma_uses_after_step(l, woken, pred - 1);
            }
            lemma_uses_after_step(woken, after, p);
        },
        (Move::Lock, Use::Locking(phase)) => {
            lemma_lock_step(l.shared, (p + 1) as usize, phase);
            lemma_uses_after_step(l, after, p);
        },
        (Move::Wake { sleeper }, Use::Unlocking(UnlockPhase::Wake)) => {
            if 0 <= sleeper < l.uses.len() && l.uses[sleeper] == Use::Asleep {
                let woken = Lock {
                    uses: l.uses.update(sleeper, Use::Locking(LockPhase::Reswap)),
                    ..l
                };
                lemma_uses_after_step(l, woken, sleeper);
                lemma_uses_after_step(woken, after, p);
            }
        },
        _ => {
            assert(after.uses =~= l.uses.update(p, after.uses[p]));
            lemma_uses_after_step(l, after, p);
        },
    }
}

/// Whatever thread moves, and whatever it does, no thread that sleeps on the lock
/// word is forgotten.
pub proof fn law_no_sleeper_is_forgotten(l: Lock, p: int, m: Move)
    requires
        exclusive(l),
        remembered(l),
        0 <= p < l.uses.len(),
    ensures
        remembered(moved(l, p, m)),
{
    let after = moved(l, p, m);
    if has_sleeper(after) {
        let q = choose|q: int| 0 <= q < after.uses.len() && #[trigger] after.uses[q] == Use::Asleep;
        match (m, l.uses[p]) {
            (Move::Lock, Use::Locking(LockPhase::WakePred { pred })) => {
                assert(l.uses[q] == Use::Asleep);
                if l.shared.lock_value != LOCK_VALUE_CONTENDED {
                    let w = choose|w: int|
                        0 <= w < l.uses.len() && sees_to_sleepers(#[trigger] l.uses[w]);
                    assert(sees_to_sleepers(after.uses[w]));
                }
            },
            (Move::Lock, Use::Locking(phase)) => {
                assert(saw_taken(l.uses[p]));
                lemma_lock_step(l.shared, (p + 1) as usize, phase);
                assert(l.uses[q] == Use::Asleep);
                if l.shared.lock_value != LOCK_VALUE_CONTENDED {
                    let w = choose|w: int|
                        0 <= w < l.uses.len() && sees_to_sleepers(#[trigger] l.uses[w]);
                    if w != p {
                        assert(sees_to_sleepers(after.uses[w]));
                    }
                }
            },
            (Move::Wake { sleeper }, Use::Unlocking(UnlockPhase::Wake)) => {
                if 0 <= sleeper < l.uses.len() && l.uses[sleeper] == Use::Asleep {
                    assert(sees_to_sleepers(after.uses[sleeper]));
                }
            },
            (Move::Unlock, Use::Unlocking(phase)) => {
                assert(l.uses[q] == Use::Asleep);
                if phase == UnlockPhase::Release {
                    if l.shared.lock_value == LOCK_VALUE_CONTENDED {
                        assert(sees_to_sleepers(after.uses[p]));
                    } else {
                        let w = choose|w: int|
                            0 <= w < l.uses.len() && sees_to_sleepers(#[trigger] l.uses[w]);
                        assert(sees_to_sleepers(after.uses[w]));
                    }
                } else if l.shared.lock_value != LOCK_VALUE_CONTENDED {
                    let w = choose|w: int|
                        0 <= w < l.uses.len() && sees_to_sleepers(#[trigger] l.uses[w]);
                    assert(sees_to_sleepers(after.uses[w]));
                }
            },
            _ => {
                if l.shared.lock_value != LOCK_VALUE_CONTENDED {
                    assert(l.uses[q] == Use::Asleep);
                    let w = choose|w: int|
                        0 <= w < l.uses.len() && sees_to_sleepers(#[trigger] l.uses[w]);
                    assert(sees_to_sleepers(after.uses[w]));
                }
            },
        }
    }
}

// The queue.
/// Whether a thread is in the queue: it queued its node, and has not left.
pub open spec fn in_line(u: Use) -> bool {
    match u {
        Use::Parked { .. } => true,
        Use::Locking(phase) => match phase {
            LockPhase::MarkFront => true,
            LockPhase::PublishFront => true,
            LockPhase::Link { .. } => true,
            LockPhase::WakePred { .. } => true,
            LockPhase::AwaitFront => true,
            LockPhase::AwaitCheck { .. } => true,
            LockPhase::LeaveWait => true,
            LockPhase::LoadState { enqueued } => enqueued,
            LockPhase::TryTake { enqueued } => enqueued,
            LockPhase::Spin { enqueued, .. } => enqueued,
            LockPhase::Retry { enqueued, .. } => enqueued,
            LockPhase::ExitRead => true,
            LockPhase::ExitClose => true,
            LockPhase::ExitAwait => true,
            LockPhase::ExitHandOver => true,
            LockPhase::BlockedRead { .. } => true,
            LockPhase::BlockedSleep { .. } => true,
            LockPhase::BlockedClose { .. } => true,
            LockPhase::BlockedPark { .. } => true,
            LockPhase::ReleaseFront { .. } => true,
            LockPhase::ReleasePublish { .. } => true,
            LockPhase::ReleaseWaiting { .. } => true,
            _ => false,
        },
        _ => false,
    }
}

/// Whether a thread came behind another one, and has not stopped waiting for it.
pub open spec fn awaits_front(u: Use) -> bool {
    match u {
        Use::Locking(LockPhase::Link { .. }) => true,
        Use::Locking(LockPhase::WakePred { .. }) => true,
        Use::Locking(LockPhase::AwaitFront) => true,
        Use::Locking(LockPhase::AwaitCheck { .. }) => true,
        Use::Locking(LockPhase::LeaveWait) => true,
        _ => false,
    }
}

pub open spec fn is_link(u: Use) -> bool {
    u is Locking && u->Locking_0 is Link
}

pub open spec fn is_wake(u: Use) -> bool {
    u is Locking && u->Locking_0 is WakePred
}

/// Whether a thread is about to link itself behind the thread `p`.
pub open spec fn links_behind(u: Use, p: int) -> bool {
    is_link(u) && u->Locking_0->Link_pred == p + 1
}

/// Whether a thread is about to wake the thread `p`, which it has linked itself to.
pub open spec fn wakes(u: Use, p: int) -> bool {
    is_wake(u) && u->Locking_0->WakePred_pred == p + 1
}

/// What the node of the thread `p` knows of the node behind it.
pub open spec fn link_of(l: Lock, p: int) -> usize {
    l.shared.qnodes[p + 1].next
}

/// Whether the node of the thread `p` does not know the node behind it.
pub open spec fn unlinked(l: Lock, p: int) -> bool {
    link_of(l, p) == QNODE_NEXT_NONE || link_of(l, p) == QNODE_NEXT_PARKED
}

/// What a thread knows of its own node, by how far it got.
pub open spec fn own_link_fits(l: Lock, p: int) -> bool {
    let next = link_of(l, p);
    match l.uses[p] {
        Use::Locking(phase) => match phase {
            LockPhase::SetWaiting => next == QNODE_NEXT_NONE,
            LockPhase::Enqueue => next == QNODE_NEXT_NONE,
            LockPhase::ExitHandOver => next > QNODE_NEXT_PARKED,
            LockPhase::ReleaseFront { successor, .. } => successor >= 1 && next == successor + 1,
            LockPhase::ReleasePublish { successor, .. } => successor >= 1 && next == successor + 1,
            LockPhase::ReleaseWaiting { successor, .. } => successor >= 1 && next == successor + 1,
            LockPhase::BlockedRead { .. } => true,
            LockPhase::BlockedSleep { .. } => next != QNODE_NEXT_NONE,
            LockPhase::ExitAwait => next != QNODE_NEXT_PARKED && l.shared.queue != p + 1,
            LockPhase::BlockedPark { .. } => next != QNODE_NEXT_PARKED && l.shared.queue != p + 1,
            _ => in_line(l.uses[p]) ==> next != QNODE_NEXT_PARKED,
        },
        Use::Parked { .. } => next != QNODE_NEXT_NONE,
        _ => true,
    }
}

/// Nobody in the queue is behind itself.
pub open spec fn not_behind_itself(l: Lock, p: int) -> bool {
    in_line(l.uses[p]) ==> link_of(l, p) != p + 2 && !links_behind(l.uses[p], p)
}

pub open spec fn phases_fit(l: Lock) -> bool {
    forall|p: int|
        0 <= p < l.uses.len() ==> own_link_fits(l, p) && not_behind_itself(l, p)
            && match #[trigger] l.uses[p] {
            Use::Locking(phase) => phase_fits(l.shared.slots(), phase),
            _ => true,
        }
}

/// The tail is a thread in the queue that nobody has queued behind.
pub open spec fn tail_kept(l: Lock) -> bool {
    let tail = l.shared.queue - 1;
    l.shared.queue != NO_QNODE ==> {
        &&& in_line(l.uses[tail])
        &&& link_of(l, tail) == QNODE_NEXT_NONE
        &&& forall|q: int| 0 <= q < l.uses.len() ==> !links_behind(#[trigger] l.uses[q], tail)
    }
}

/// A thread links itself to one that is in the queue and does not know of it, and
/// nobody else does.
pub open spec fn linkers_kept(l: Lock) -> bool {
    &&& forall|q: int|
        0 <= q < l.uses.len() && is_link(#[trigger] l.uses[q]) ==> {
            let pred = l.uses[q]->Locking_0->Link_pred - 1;
            in_line(l.uses[pred]) && unlinked(l, pred)
        }
    &&& forall|a: int, b: int|
        0 <= a < l.uses.len() && 0 <= b < l.uses.len() && is_link(#[trigger] l.uses[a]) && is_link(
            #[trigger] l.uses[b],
        ) && l.uses[a]->Locking_0->Link_pred == l.uses[b]->Locking_0->Link_pred ==> a == b
}

/// Where a thread in the queue does not know of the one that queued behind it, that
/// one is about to link itself.
pub open spec fn successors_kept(l: Lock) -> bool {
    forall|p: int|
        0 <= p < l.uses.len() && in_line(#[trigger] l.uses[p]) && unlinked(l, p)
            && l.shared.queue != p + 1 ==> exists|q: int|
            0 <= q < l.uses.len() && links_behind(#[trigger] l.uses[q], p)
}

/// Whether the thread `p` will let the thread `q` to the front when it leaves: it is
/// in the queue, and its link names `q`, or `q` is about to make it so.
pub open spec fn will_release(l: Lock, p: int, q: int) -> bool {
    &&& 0 <= p < l.uses.len()
    &&& in_line(l.uses[p])
    &&& links_behind(l.uses[q], p) || link_of(l, p) == q + 2
}

/// A thread that waits for the front has somebody in the queue that will let it there.
pub open spec fn waiters_kept(l: Lock) -> bool {
    forall|q: int|
        0 <= q < l.uses.len() && awaits_front(#[trigger] l.uses[q]) && l.shared.qnodes[q + 1].waiting
            != 0 ==> exists|p: int| #[trigger] will_release(l, p, q)
}

/// A thread that sleeps until the node behind it is known still says so, or is about to
/// be woken.
pub open spec fn parked_kept(l: Lock) -> bool {
    forall|p: int|
        0 <= p < l.uses.len() && #[trigger] l.uses[p] is Parked ==> {
            ||| link_of(l, p) == QNODE_NEXT_PARKED
            ||| exists|q: int| 0 <= q < l.uses.len() && wakes(#[trigger] l.uses[q], p)
        }
}

/// What holds of the queue. While the lock is held up, threads leave it from the middle
/// and from its end, so that those in it need not form one line, and it may have no tail
/// while some are in it. But a thread in it is the tail, or knows of the one that queued
/// behind it, or is about to be told; and whoever waits for the front has somebody in it
/// that will let it there.
pub open spec fn queue_kept(l: Lock) -> bool {
    &&& l.uses.len() + 1 == l.shared.slots()
    &&& l.shared.wf()
    &&& phases_fit(l)
    &&& tail_kept(l)
    &&& linkers_kept(l)
    &&& successors_kept(l)
    &&& waiters_kept(l)
    &&& parked_kept(l)
}

/// The queue of a lock that nobody uses is in this state.
pub proof fn law_an_unused_queue_is_kept(l: Lock)
    requires
        l.shared.wf(),
        l.shared.queue == NO_QNODE,
        l.uses.len() + 1 == l.shared.slots(),
        forall|p: int| 0 <= p < l.uses.len() ==> #[trigger] l.uses[p] == Use::Idle,
    ensures
        queue_kept(l),
{
}

/// A thread goes on within the queue, or outside of it, and leaves all links alone.
#[verifier::spinoff_prover]
proof fn lemma_links_stay(l: Lock, after: Lock, p: int)
    requires
        queue_kept(l),
        0 <= p < l.uses.len(),
        after.uses == l.uses.update(p, after.uses[p]),
        after.shared.wf(),
        after.shared.queue == l.shared.queue,
        after.shared.slots() == l.shared.slots(),
        forall|i: int|
            0 <= i < l.shared.slots() ==> (#[trigger] after.shared.qnodes[i]).next
                == l.shared.qnodes[i].next && (after.shared.qnodes[i].waiting != 0
                ==> l.shared.qnodes[i].waiting != 0),
        in_line(after.uses[p]) == in_line(l.uses[p]),
        !is_link(l.uses[p]),
        !is_link(after.uses[p]),
        !is_wake(l.uses[p]),
        awaits_front(after.uses[p]) ==> awaits_front(l.uses[p]),
        own_link_fits(after, p),
        after.uses[p] is Locking ==> phase_fits(l.shared.slots(), after.uses[p]->Locking_0),
        after.uses[p] is Parked ==> link_of(after, p) == QNODE_NEXT_PARKED,
    ensures
        queue_kept(after),
{
    assert forall|r: int| 0 <= r < after.uses.len() implies own_link_fits(after, r)
        && not_behind_itself(after, r) && match (#[trigger] after.uses[r]) {
        Use::Locking(phase) => phase_fits(after.shared.slots(), phase),
        _ => true,
    } by {
        if r != p {
            assert(l.uses[r] == after.uses[r]);
            assert(own_link_fits(l, r) && not_behind_itself(l, r));
        }
    }
    assert(tail_kept(after)) by {
        if after.shared.queue != NO_QNODE {
            let tail = after.shared.queue - 1;
            assert forall|q: int| 0 <= q < after.uses.len() implies !links_behind(
                #[trigger] after.uses[q],
                tail,
            ) by {
                assert(!links_behind(l.uses[q], tail));
            }
        }
    }
    assert forall|q: int| 0 <= q < after.uses.len() && is_link(#[trigger] after.uses[q]) implies ({
        let pred = after.uses[q]->Locking_0->Link_pred - 1;
        in_line(after.uses[pred]) && unlinked(after, pred)
    }) by {
        assert(is_link(l.uses[q]));
    }
    assert forall|a: int, b: int|
        0 <= a < after.uses.len() && 0 <= b < after.uses.len() && is_link(#[trigger] after.uses[a])
            && is_link(#[trigger] after.uses[b]) && after.uses[a]->Locking_0->Link_pred
            == after.uses[b]->Locking_0->Link_pred implies a == b by {
        assert(is_link(l.uses[a]) && is_link(l.uses[b]));
    }
    assert forall|r: int|
        0 <= r < after.uses.len() && in_line(#[trigger] after.uses[r]) && unlinked(after, r)
            && after.shared.queue != r + 1 implies exists|q: int|
        0 <= q < after.uses.len() && links_behind(#[trigger] after.uses[q], r) by {
        assert(in_line(l.uses[r]));
        let q = choose|q: int| 0 <= q < l.uses.len() && links_behind(#[trigger] l.uses[q], r);
        assert(links_behind(after.uses[q], r));
    }
    assert forall|q: int|
        0 <= q < after.uses.len() && awaits_front(#[trigger] after.uses[q])
            && after.shared.qnodes[q + 1].waiting != 0 implies exists|r: int|
        #[trigger] will_release(after, r, q) by {
        assert(awaits_front(l.uses[q]));
        let r = choose|r: int| #[trigger] will_release(l, r, q);
        assert(in_line(l.uses[r]));
        assert(will_release(after, r, q));
    }
    assert forall|r: int| 0 <= r < after.uses.len() && #[trigger] after.uses[r] is Parked implies {
        ||| link_of(after, r) == QNODE_NEXT_PARKED
        ||| exists|q: int| 0 <= q < after.uses.len() && wakes(#[trigger] after.uses[q], r)
    } by {
        if r != p {
            assert(l.uses[r] is Parked);
            if link_of(after, r) != QNODE_NEXT_PARKED {
                let q = choose|q: int| 0 <= q < l.uses.len() && wakes(#[trigger] l.uses[q], r);
                assert(wakes(after.uses[q], r));
            }
        }
    }
}

/// A thread outside the queue makes its own link fresh.
#[verifier::spinoff_prover]
proof fn lemma_link_made_fresh(l: Lock, after: Lock, p: int)
    requires
        queue_kept(l),
        0 <= p < l.uses.len(),
        l.uses[p] == Use::Locking(LockPhase::ResetNext),
        after == moved(l, p, Move::Lock),
        after.shared.wf(),
    ensures
        queue_kept(after),
{
    assert(own_link_fits(l, p));
    assert forall|r: int| 0 <= r < l.uses.len() && r != p implies #[trigger] link_of(after, r)
        == link_of(l, r) by {}
    assert forall|r: int| 0 <= r < after.uses.len() implies own_link_fits(after, r)
        && not_behind_itself(after, r) && match (#[trigger] after.uses[r]) {
        Use::Locking(phase) => phase_fits(after.shared.slots(), phase),
        _ => true,
    } by {
        if r != p {
            assert(l.uses[r] == after.uses[r]);
            assert(own_link_fits(l, r) && not_behind_itself(l, r));
        }
    }
    assert(tail_kept(after)) by {
        if after.shared.queue != NO_QNODE {
            let tail = after.shared.queue - 1;
            assert(in_line(l.uses[tail]));
            assert forall|q: int| 0 <= q < after.uses.len() implies !links_behind(
                #[trigger] after.uses[q],
                tail,
            ) by {
                assert(!links_behind(l.uses[q], tail));
            }
        }
    }
    assert forall|q: int| 0 <= q < after.uses.len() && is_link(#[trigger] after.uses[q]) implies ({
        let pred = after.uses[q]->Locking_0->Link_pred - 1;
        in_line(after.uses[pred]) && unlinked(after, pred)
    }) by {
        assert(is_link(l.uses[q]));
    }
    assert forall|a: int, b: int|
        0 <= a < after.uses.len() && 0 <= b < after.uses.len() && is_link(#[trigger] after.uses[a])
            && is_link(#[trigger] after.uses[b]) && after.uses[a]->Locking_0->Link_pred
            == after.uses[b]->Locking_0->Link_pred implies a == b by {
        assert(is_link(l.uses[a]) && is_link(l.uses[b]));
    }
    assert forall|r: int|
        0 <= r < after.uses.len() && in_line(#[trigger] after.uses[r]) && unlinked(after, r)
            && after.shared.queue != r + 1 implies exists|q: int|
        0 <= q < after.uses.len() && links_behind(#[trigger] after.uses[q], r) by {
        assert(in_line(l.uses[r]));
        let q = choose|q: int| 0 <= q < l.uses.len() && links_behind(#[trigger] l.uses[q], r);
        assert(links_behind(after.uses[q], r));
    }
    assert forall|q: int|
        0 <= q < after.uses.len() && awaits_front(#[trigger] after.uses[q])
            && after.shared.qnodes[q + 1].waiting != 0 implies exists|r: int|
        #[trigger] will_release(after, r, q) by {
        assert(awaits_front(l.uses[q]));
        let r = choose|r: int| #[trigger] will_release(l, r, q);
        assert(in_line(l.uses[r]));
        assert(will_release(after, r, q));
    }
    assert forall|r: int| 0 <= r < after.uses.len() && #[trigger] after.uses[r] is Parked implies {
        ||| link_of(after, r) == QNODE_NEXT_PARKED
        ||| exists|q: int| 0 <= q < after.uses.len() && wakes(#[trigger] after.uses[q], r)
    } by {
        assert(l.uses[r] is Parked);
        if link_of(l, r) != QNODE_NEXT_PARKED {
            let q = choose|q: int| 0 <= q < l.uses.len() && wakes(#[trigger] l.uses[q], r);
            assert(wakes(after.uses[q], r));
        }
    }
}

/// A thread queues its node: at the front, or behind the tail.
#[verifier::spinoff_prover]
proof fn lemma_joins(l: Lock, after: Lock, p: int)
    requires
        queue_kept(l),
        0 <= p < l.uses.len(),
        l.uses[p] == Use::Locking(LockPhase::Enqueue),
        after == moved(l, p, Move::Lock),
        after.shared.wf(),
    ensures
        queue_kept(after),
{
    let old_tail = l.shared.queue - 1;
    assert(own_link_fits(l, p));
    assert(!in_line(l.uses[p]));
    assert(after.shared.qnodes == l.shared.qnodes);
    assert forall|r: int| 0 <= r < after.uses.len() implies own_link_fits(after, r)
        && not_behind_itself(after, r) && match (#[trigger] after.uses[r]) {
        Use::Locking(phase) => phase_fits(after.shared.slots(), phase),
        _ => true,
    } by {
        if r != p {
            assert(l.uses[r] == after.uses[r]);
            assert(own_link_fits(l, r) && not_behind_itself(l, r));
        }
    }
    assert(tail_kept(after)) by {
        assert forall|q: int| 0 <= q < after.uses.len() implies !links_behind(
            #[trigger] after.uses[q],
            p,
        ) by {
            if q != p && links_behind(l.uses[q], p) {
                assert(is_link(l.uses[q]));
            }
        }
    }
    assert forall|q: int| 0 <= q < after.uses.len() && is_link(#[trigger] after.uses[q]) implies ({
        let pred = after.uses[q]->Locking_0->Link_pred - 1;
        in_line(after.uses[pred]) && unlinked(after, pred)
    }) by {
        if q != p {
            assert(is_link(l.uses[q]));
        }
    }
    assert forall|a: int, b: int|
        0 <= a < after.uses.len() && 0 <= b < after.uses.len() && is_link(#[trigger] after.uses[a])
            && is_link(#[trigger] after.uses[b]) && after.uses[a]->Locking_0->Link_pred
            == after.uses[b]->Locking_0->Link_pred implies a == b by {
        if a != p && b != p {
            assert(is_link(l.uses[a]) && is_link(l.uses[b]));
        } else if a != p {
            assert(!links_behind(l.uses[a], old_tail));
        } else if b != p {
            assert(!links_behind(l.uses[b], old_tail));
        }
    }
    assert forall|r: int|
        0 <= r < after.uses.len() && in_line(#[trigger] after.uses[r]) && unlinked(after, r)
            && after.shared.queue != r + 1 implies exists|q: int|
        0 <= q < after.uses.len() && links_behind(#[trigger] after.uses[q], r) by {
        assert(in_line(l.uses[r]));
        if r == old_tail {
            assert(links_behind(after.uses[p], r));
        } else {
            let q = choose|q: int| 0 <= q < l.uses.len() && links_behind(#[trigger] l.uses[q], r);
            assert(links_behind(after.uses[q], r));
        }
    }
    assert forall|q: int|
        0 <= q < after.uses.len() && awaits_front(#[trigger] after.uses[q])
            && after.shared.qnodes[q + 1].waiting != 0 implies exists|r: int|
        #[trigger] will_release(after, r, q) by {
        if q == p {
            assert(will_release(after, old_tail, p));
        } else {
            assert(awaits_front(l.uses[q]));
            let r = choose|r: int| #[trigger] will_release(l, r, q);
            assert(in_line(l.uses[r]));
            assert(will_release(after, r, q));
        }
    }
    assert forall|r: int| 0 <= r < after.uses.len() && #[trigger] after.uses[r] is Parked implies {
        ||| link_of(after, r) == QNODE_NEXT_PARKED
        ||| exists|q: int| 0 <= q < after.uses.len() && wakes(#[trigger] after.uses[q], r)
    } by {
        assert(l.uses[r] is Parked);
        if link_of(l, r) != QNODE_NEXT_PARKED {
            let q = choose|q: int| 0 <= q < l.uses.len() && wakes(#[trigger] l.uses[q], r);
            assert(wakes(after.uses[q], r));
        }
    }
}

/// A thread links itself behind the one that it found at the tail.
#[verifier::spinoff_prover]
proof fn lemma_links(l: Lock, after: Lock, p: int)
    requires
        queue_kept(l),
        0 <= p < l.uses.len(),
        is_link(l.uses[p]),
        after == moved(l, p, Move::Lock),
        after.shared.wf(),
    ensures
        queue_kept(after),
{
    let pred = l.uses[p]->Locking_0->Link_pred - 1;
    assert(phase_fits(l.shared.slots(), l.uses[p]->Locking_0));
    assert(own_link_fits(l, p) && own_link_fits(l, pred));
    assert(in_line(l.uses[pred]) && unlinked(l, pred));
    assert(link_of(after, pred) == p + 2);
    assert forall|r: int| 0 <= r < l.uses.len() && r != pred implies #[trigger] link_of(after, r)
        == link_of(l, r) by {}
    assert forall|r: int| 0 <= r < after.uses.len() implies own_link_fits(after, r)
        && not_behind_itself(after, r) && match (#[trigger] after.uses[r]) {
        Use::Locking(phase) => phase_fits(after.shared.slots(), phase),
        _ => true,
    } by {
        assert(own_link_fits(l, r) && not_behind_itself(l, r));
        if r != p {
            assert(l.uses[r] == after.uses[r]);
        }
    }
    assert(tail_kept(after)) by {
        if after.shared.queue != NO_QNODE {
            let tail = after.shared.queue - 1;
            assert(!links_behind(l.uses[p], tail));
            assert forall|q: int| 0 <= q < after.uses.len() implies !links_behind(
                #[trigger] after.uses[q],
                tail,
            ) by {
                assert(!links_behind(l.uses[q], tail));
            }
        }
    }
    assert forall|q: int| 0 <= q < after.uses.len() && is_link(#[trigger] after.uses[q]) implies ({
        let other = after.uses[q]->Locking_0->Link_pred - 1;
        in_line(after.uses[other]) && unlinked(after, other)
    }) by {
        assert(is_link(l.uses[q]));
        assert(q != p);
    }
    assert forall|a: int, b: int|
        0 <= a < after.uses.len() && 0 <= b < after.uses.len() && is_link(#[trigger] after.uses[a])
            && is_link(#[trigger] after.uses[b]) && after.uses[a]->Locking_0->Link_pred
            == after.uses[b]->Locking_0->Link_pred implies a == b by {
        assert(is_link(l.uses[a]) && is_link(l.uses[b]));
    }
    assert forall|r: int|
        0 <= r < after.uses.len() && in_line(#[trigger] after.uses[r]) && unlinked(after, r)
            && after.shared.queue != r + 1 implies exists|q: int|
        0 <= q < after.uses.len() && links_behind(#[trigger] after.uses[q], r) by {
        assert(in_line(l.uses[r]));
        let q = choose|q: int| 0 <= q < l.uses.len() && links_behind(#[trigger] l.uses[q], r);
        assert(links_behind(after.uses[q], r));
    }
    assert forall|q: int|
        0 <= q < after.uses.len() && awaits_front(#[trigger] after.uses[q])
            && after.shared.qnodes[q + 1].waiting != 0 implies exists|r: int|
        #[trigger] will_release(after, r, q) by {
        if q == p {
            assert(will_release(after, pred, p));
        } else {
            assert(awaits_front(l.uses[q]));
            let r = choose|r: int| #[trigger] will_release(l, r, q);
            assert(in_line(l.uses[r]));
            assert(r != pred || links_behind(l.uses[q], r));
            assert(will_release(after, r, q));
        }
    }
    assert forall|r: int| 0 <= r < after.uses.len() && #[trigger] after.uses[r] is Parked implies {
        ||| link_of(after, r) == QNODE_NEXT_PARKED
        ||| exists|q: int| 0 <= q < after.uses.len() && wakes(#[trigger] after.uses[q], r)
    } by {
        assert(l.uses[r] is Parked);
        if link_of(l, r) != QNODE_NEXT_PARKED {
            let q = choose|q: int| 0 <= q < l.uses.len() && wakes(#[trigger] l.uses[q], r);
            assert(wakes(after.uses[q], r));
        } else if r == pred {
            assert(wakes(after.uses[p], r));
        }
    }
}

/// A thread wakes the one that it linked itself to.
#[verifier::spinoff_prover]
proof fn lemma_wakes_link(l: Lock, after: Lock, p: int)
    requires
        queue_kept(l),
        0 <= p < l.uses.len(),
        is_wake(l.uses[p]),
        after == moved(l, p, Move::Lock),
    ensures
        queue_kept(after),
{
    let pred = l.uses[p]->Locking_0->WakePred_pred - 1;
    assert(phase_fits(l.shared.slots(), l.uses[p]->Locking_0));
    assert(own_link_fits(l, p) && own_link_fits(l, pred));
    assert forall|r: int| 0 <= r < l.uses.len() implies in_line(#[trigger] after.uses[r])
        == in_line(l.uses[r]) && is_link(after.uses[r]) == is_link(l.uses[r]) && (is_link(
        l.uses[r],
    ) ==> after.uses[r] == l.uses[r]) && awaits_front(after.uses[r]) == awaits_front(
        l.uses[r],
    ) by {}
    assert forall|r: int| 0 <= r < after.uses.len() implies own_link_fits(after, r)
        && not_behind_itself(after, r) && match (#[trigger] after.uses[r]) {
        Use::Locking(phase) => phase_fits(after.shared.slots(), phase),
        _ => true,
    } by {
        assert(own_link_fits(l, r) && not_behind_itself(l, r));
        if r != p && r != pred {
            assert(l.uses[r] == after.uses[r]);
        }
    }
    assert(tail_kept(after)) by {
        if after.shared.queue != NO_QNODE {
            let tail = after.shared.queue - 1;
            assert(in_line(l.uses[tail]));
            assert(in_line(after.uses[tail]));
            assert forall|q: int| 0 <= q < after.uses.len() implies !links_behind(
                #[trigger] after.uses[q],
                tail,
            ) by {
                assert(!links_behind(l.uses[q], tail));
            }
        }
    }
    assert forall|q: int| 0 <= q < after.uses.len() && is_link(#[trigger] after.uses[q]) implies ({
        let other = after.uses[q]->Locking_0->Link_pred - 1;
        in_line(after.uses[other]) && unlinked(after, other)
    }) by {
        assert(is_link(l.uses[q]));
        let other = l.uses[q]->Locking_0->Link_pred - 1;
        assert(phase_fits(l.shared.slots(), l.uses[q]->Locking_0));
        assert(in_line(l.uses[other]));
        assert(in_line(after.uses[other]));
    }
    assert forall|a: int, b: int|
        0 <= a < after.uses.len() && 0 <= b < after.uses.len() && is_link(#[trigger] after.uses[a])
            && is_link(#[trigger] after.uses[b]) && after.uses[a]->Locking_0->Link_pred
            == after.uses[b]->Locking_0->Link_pred implies a == b by {
        assert(is_link(l.uses[a]) && is_link(l.uses[b]));
    }
    assert forall|r: int|
        0 <= r < after.uses.len() && in_line(#[trigger] after.uses[r]) && unlinked(after, r)
            && after.shared.queue != r + 1 implies exists|q: int|
        0 <= q < after.uses.len() && links_behind(#[trigger] after.uses[q], r) by {
        assert(in_line(l.uses[r]));
        let q = choose|q: int| 0 <= q < l.uses.len() && links_behind(#[trigger] l.uses[q], r);
        assert(links_behind(after.uses[q], r));
    }
    assert forall|q: int|
        0 <= q < after.uses.len() && awaits_front(#[trigger] after.uses[q])
            && after.shared.qnodes[q + 1].waiting != 0 implies exists|r: int|
        #[trigger] will_release(after, r, q) by {
        assert(awaits_front(l.uses[q]));
        let r = choose|r: int| #[trigger] will_release(l, r, q);
        assert(in_line(after.uses[r]));
        assert(is_link(after.uses[q]) == is_link(l.uses[q]));
        assert(will_release(after, r, q));
    }
    assert forall|r: int| 0 <= r < after.uses.len() && #[trigger] after.uses[r] is Parked implies {
        ||| link_of(after, r) == QNODE_NEXT_PARKED
        ||| exists|q: int| 0 <= q < after.uses.len() && wakes(#[trigger] after.uses[q], r)
    } by {
        assert(l.uses[r] is Parked);
        if link_of(l, r) != QNODE_NEXT_PARKED {
            let q = choose|q: int| 0 <= q < l.uses.len() && wakes(#[trigger] l.uses[q], r);
            assert(r != pred);
            assert(wakes(after.uses[q], r));
        }
    }
}

/// A thread on its way out of the queue says that it sleeps until the node behind it
/// is known.
#[verifier::spinoff_prover]
proof fn lemma_parks_link(l: Lock, after: Lock, p: int)
    requires
        queue_kept(l),
        0 <= p < l.uses.len(),
        l.uses[p] is Locking,
        l.uses[p]->Locking_0 is BlockedPark,
        link_of(l, p) == QNODE_NEXT_NONE,
        l.shared.queue != p + 1,
        after == moved(l, p, Move::Lock),
        after.shared.wf(),
    ensures
        queue_kept(after),
{
    assert(own_link_fits(l, p));
    assert forall|r: int| 0 <= r < l.uses.len() && r != p implies #[trigger] link_of(after, r)
        == link_of(l, r) by {}
    assert forall|r: int| 0 <= r < after.uses.len() implies own_link_fits(after, r)
        && not_behind_itself(after, r) && match (#[trigger] after.uses[r]) {
        Use::Locking(phase) => phase_fits(after.shared.slots(), phase),
        _ => true,
    } by {
        if r != p {
            assert(l.uses[r] == after.uses[r]);
            assert(own_link_fits(l, r) && not_behind_itself(l, r));
        }
    }
    assert(tail_kept(after)) by {
        if after.shared.queue != NO_QNODE {
            let tail = after.shared.queue - 1;
            assert(in_line(l.uses[tail]));
            assert forall|q: int| 0 <= q < after.uses.len() implies !links_behind(
                #[trigger] after.uses[q],
                tail,
            ) by {
                assert(!links_behind(l.uses[q], tail));
            }
        }
    }
    assert forall|q: int| 0 <= q < after.uses.len() && is_link(#[trigger] after.uses[q]) implies ({
        let pred = after.uses[q]->Locking_0->Link_pred - 1;
        in_line(after.uses[pred]) && unlinked(after, pred)
    }) by {
        assert(is_link(l.uses[q]));
    }
    assert forall|a: int, b: int|
        0 <= a < after.uses.len() && 0 <= b < after.uses.len() && is_link(#[trigger] after.uses[a])
            && is_link(#[trigger] after.uses[b]) && after.uses[a]->Locking_0->Link_pred
            == after.uses[b]->Locking_0->Link_pred implies a == b by {
        assert(is_link(l.uses[a]) && is_link(l.uses[b]));
    }
    assert forall|r: int|
        0 <= r < after.uses.len() && in_line(#[trigger] after.uses[r]) && unlinked(after, r)
            && after.shared.queue != r + 1 implies exists|q: int|
        0 <= q < after.uses.len() && links_behind(#[trigger] after.uses[q], r) by {
        assert(in_line(l.uses[r]));
        let q = choose|q: int| 0 <= q < l.uses.len() && links_behind(#[trigger] l.uses[q], r);
        assert(links_behind(after.uses[q], r));
    }
    assert forall|q: int|
        0 <= q < after.uses.len() && awaits_front(#[trigger] after.uses[q])
            && after.shared.qnodes[q + 1].waiting != 0 implies exists|r: int|
        #[trigger] will_release(after, r, q) by {
        assert(awaits_front(l.uses[q]));
        let r = choose|r: int| #[trigger] will_release(l, r, q);
        assert(in_line(l.uses[r]));
        assert(will_release(after, r, q));
    }
    assert forall|r: int| 0 <= r < after.uses.len() && #[trigger] after.uses[r] is Parked implies {
        ||| link_of(after, r) == QNODE_NEXT_PARKED
        ||| exists|q: int| 0 <= q < after.uses.len() && wakes(#[trigger] after.uses[q], r)
    } by {
        assert(l.uses[r] is Parked);
        if link_of(l, r) != QNODE_NEXT_PARKED {
            let q = choose|q: int| 0 <= q < l.uses.len() && wakes(#[trigger] l.uses[q], r);
            assert(wakes(after.uses[q], r));
        }
    }
}

/// A thread leaves the queue: as its tail, or with the thread behind it let to the
/// front.
#[verifier::spinoff_prover]
proof fn lemma_leaves(l: Lock, after: Lock, p: int)
    requires
        queue_kept(l),
        0 <= p < l.uses.len(),
        in_line(l.uses[p]),
        !is_link(l.uses[p]),
        !is_wake(l.uses[p]),
        after.uses == l.uses.update(p, after.uses[p]),
        after.uses[p] is Locking,
        !in_line(after.uses[p]),
        own_link_fits(after, p),
        phase_fits(l.shared.slots(), after.uses[p]->Locking_0),
        after.shared.wf(),
        after.shared.slots() == l.shared.slots(),
        after.shared.queue == if l.shared.queue == p + 1 {
            NO_QNODE
        } else {
            l.shared.queue
        },
        l.shared.queue == p + 1 || !unlinked(l, p),
        forall|i: int|
            0 <= i < l.shared.slots() ==> (#[trigger] after.shared.qnodes[i]).next
                == l.shared.qnodes[i].next && (after.shared.qnodes[i].waiting != 0
                ==> l.shared.qnodes[i].waiting != 0),
        !unlinked(l, p) ==> after.shared.qnodes[link_of(l, p) - 1].waiting == 0,
    ensures
        queue_kept(after),
{
    assert forall|r: int| 0 <= r < after.uses.len() implies own_link_fits(after, r)
        && not_behind_itself(after, r) && match (#[trigger] after.uses[r]) {
        Use::Locking(phase) => phase_fits(after.shared.slots(), phase),
        _ => true,
    } by {
        if r != p {
            assert(l.uses[r] == after.uses[r]);
            assert(own_link_fits(l, r) && not_behind_itself(l, r));
        }
    }
    assert forall|q: int| 0 <= q < l.uses.len() implies !links_behind(#[trigger] l.uses[q], p) by {
        if links_behind(l.uses[q], p) {
            assert(is_link(l.uses[q]));
            assert(unlinked(l, p));
            assert(l.shared.queue == p + 1);
        }
    }
    assert(tail_kept(after)) by {
        if after.shared.queue != NO_QNODE {
            let tail = after.shared.queue - 1;
            assert(in_line(l.uses[tail]));
            assert forall|q: int| 0 <= q < after.uses.len() implies !links_behind(
                #[trigger] after.uses[q],
                tail,
            ) by {
                assert(!links_behind(l.uses[q], tail));
            }
        }
    }
    assert forall|q: int| 0 <= q < after.uses.len() && is_link(#[trigger] after.uses[q]) implies ({
        let pred = after.uses[q]->Locking_0->Link_pred - 1;
        in_line(after.uses[pred]) && unlinked(after, pred)
    }) by {
        assert(is_link(l.uses[q]));
        assert(!links_behind(l.uses[q], p));
    }
    assert forall|a: int, b: int|
        0 <= a < after.uses.len() && 0 <= b < after.uses.len() && is_link(#[trigger] after.uses[a])
            && is_link(#[trigger] after.uses[b]) && after.uses[a]->Locking_0->Link_pred
            == after.uses[b]->Locking_0->Link_pred implies a == b by {
        assert(is_link(l.uses[a]) && is_link(l.uses[b]));
    }
    assert forall|r: int|
        0 <= r < after.uses.len() && in_line(#[trigger] after.uses[r]) && unlinked(after, r)
            && after.shared.queue != r + 1 implies exists|q: int|
        0 <= q < after.uses.len() && links_behind(#[trigger] after.uses[q], r) by {
        assert(in_line(l.uses[r]));
        let q = choose|q: int| 0 <= q < l.uses.len() && links_behind(#[trigger] l.uses[q], r);
        assert(links_behind(after.uses[q], r));
    }
    assert forall|q: int|
        0 <= q < after.uses.len() && awaits_front(#[trigger] after.uses[q])
            && after.shared.qnodes[q + 1].waiting != 0 implies exists|r: int|
        #[trigger] will_release(after, r, q) by {
        assert(awaits_front(l.uses[q]));
        assert(l.shared.qnodes[q + 1].waiting != 0);
        let r = choose|r: int| #[trigger] will_release(l, r, q);
        assert(!links_behind(l.uses[q], p));
        assert(r != p);
        assert(will_release(after, r, q));
    }
    assert forall|r: int| 0 <= r < after.uses.len() && #[trigger] after.uses[r] is Parked implies {
        ||| link_of(after, r) == QNODE_NEXT_PARKED
        ||| exists|q: int| 0 <= q < after.uses.len() && wakes(#[trigger] after.uses[q], r)
    } by {
        assert(l.uses[r] is Parked);
        if link_of(l, r) != QNODE_NEXT_PARKED {
            let q = choose|q: int| 0 <= q < l.uses.len() && wakes(#[trigger] l.uses[q], r);
            assert(wakes(after.uses[q], r));
        }
    }
}

/// A step of a thread that neither joins the queue nor leaves it, nor links itself.
#[verifier::spinoff_prover]
#[verifier::rlimit(40)]
proof fn lemma_step_within(l: Lock, p: int, phase: LockPhase)
    requires
        queue_kept(l),
        0 <= p < l.uses.len(),
        l.uses[p] == Use::Locking(phase),
        !(phase is ResetNext),
        !(phase is Enqueue),
        !(phase is Link),
        !(phase is WakePred),
        !(phase is BlockedPark && link_of(l, p) == QNODE_NEXT_NONE),
        !(phase is ReleaseWaiting),
        !((phase is ExitClose || phase is BlockedClose) && l.shared.queue == p + 1),
    ensures
        queue_kept(moved(l, p, Move::Lock)),
{
    let after = moved(l, p, Move::Lock);
    let me = (p + 1) as usize;
    assert(own_link_fits(l, p));
    assert(phase_fits(l.shared.slots(), phase));
    law_steps_keep_links(l.shared, me, phase);
    assert forall|i: int| 0 <= i < l.shared.slots() implies (#[trigger] after.shared.qnodes[i]).next
        == l.shared.qnodes[i].next by {}
    if phase is SetWaiting {
        lemma_sets_waiting(l, after, p);
    } else {
        lemma_links_stay(l, after, p);
    }
}

/// A thread outside the queue shows that it will wait.
#[verifier::spinoff_prover]
proof fn lemma_sets_waiting(l: Lock, after: Lock, p: int)
    requires
        queue_kept(l),
        0 <= p < l.uses.len(),
        l.uses[p] == Use::Locking(LockPhase::SetWaiting),
        after == moved(l, p, Move::Lock),
        after.shared.wf(),
    ensures
        queue_kept(after),
{
    // The node is of no account as long as its thread is outside the queue.
    let unshown = Lock { shared: l.shared, uses: after.uses };
    assert(own_link_fits(l, p));
    lemma_links_stay(l, unshown, p);
    assert forall|r: int| 0 <= r < l.uses.len() implies #[trigger] link_of(after, r) == link_of(
        unshown,
        r,
    ) by {}
    assert forall|r: int| 0 <= r < after.uses.len() implies own_link_fits(after, r)
        && not_behind_itself(after, r) && match (#[trigger] after.uses[r]) {
        Use::Locking(phase) => phase_fits(after.shared.slots(), phase),
        _ => true,
    } by {
        assert(own_link_fits(unshown, r) && not_behind_itself(unshown, r));
        assert(unshown.uses[r] == after.uses[r]);
    }
    assert(linkers_kept(after)) by {
        assert forall|q: int| 0 <= q < after.uses.len() && is_link(
            #[trigger] after.uses[q],
        ) implies ({
            let pred = after.uses[q]->Locking_0->Link_pred - 1;
            in_line(after.uses[pred]) && unlinked(after, pred)
        }) by {
            assert(is_link(unshown.uses[q]));
        }
        assert forall|a: int, b: int|
            0 <= a < after.uses.len() && 0 <= b < after.uses.len() && is_link(
                #[trigger] after.uses[a],
            ) && is_link(#[trigger] after.uses[b]) && after.uses[a]->Locking_0->Link_pred
                == after.uses[b]->Locking_0->Link_pred implies a == b by {
            assert(is_link(unshown.uses[a]) && is_link(unshown.uses[b]));
        }
    }
    assert forall|r: int|
        0 <= r < after.uses.len() && in_line(#[trigger] after.uses[r]) && unlinked(after, r)
            && after.shared.queue != r + 1 implies exists|q: int|
        0 <= q < after.uses.len() && links_behind(#[trigger] after.uses[q], r) by {
        assert(in_line(unshown.uses[r]));
        let q = choose|q: int|
            0 <= q < unshown.uses.len() && links_behind(#[trigger] unshown.uses[q], r);
        assert(links_behind(after.uses[q], r));
    }
    assert forall|q: int|
        0 <= q < after.uses.len() && awaits_front(#[trigger] after.uses[q])
            && after.shared.qnodes[q + 1].waiting != 0 implies exists|r: int|
        #[trigger] will_release(after, r, q) by {
        assert(awaits_front(unshown.uses[q]));
        assert(q != p);
        let r = choose|r: int| #[trigger] will_release(unshown, r, q);
        assert(will_release(after, r, q));
    }
    assert forall|r: int| 0 <= r < after.uses.len() && #[trigger] after.uses[r] is Parked implies {
        ||| link_of(after, r) == QNODE_NEXT_PARKED
        ||| exists|q: int| 0 <= q < after.uses.len() && wakes(#[trigger] after.uses[q], r)
    } by {
        assert(unshown.uses[r] is Parked);
        if link_of(unshown, r) != QNODE_NEXT_PARKED {
            let q = choose|q: int|
                0 <= q < unshown.uses.len() && wakes(#[trigger] unshown.uses[q], r);
            assert(wakes(after.uses[q], r));
        }
    }
}

/// Whatever thread moves, and whatever it does, every thread that waits in the queue
/// has somebody that will let it to the front, and every thread that leaves learns of
/// the one behind it.
#[verifier::spinoff_prover]
pub proof fn law_every_move_keeps_the_queue(l: Lock, p: int, m: Move)
    requires
        queue_kept(l),
        0 <= p < l.uses.len(),
    ensures
        queue_kept(moved(l, p, m)),
{
    let after = moved(l, p, m);
    let me = (p + 1) as usize;
    assert(own_link_fits(l, p));
    match (m, l.uses[p]) {
        (Move::Lock, Use::Locking(phase)) => {
            assert(phase_fits(l.shared.slots(), phase));
            law_steps_keep_links(l.shared, me, phase);
            if phase is ResetNext {
                lemma_link_made_fresh(l, after, p);
            } else if phase is Enqueue {
                lemma_joins(l, after, p);
            } else if phase is Link {
                lemma_links(l, after, p);
            } else if phase is WakePred {
                lemma_wakes_link(l, after, p);
            } else if phase is BlockedPark && link_of(l, p) == QNODE_NEXT_NONE {
                lemma_parks_link(l, after, p);
            } else if phase is ReleaseWaiting || ((phase is ExitClose || phase is BlockedClose)
                && l.shared.queue == p + 1) {
                lemma_leaves(l, after, p);
            } else {
                lemma_step_within(l, p, phase);
            }
        },
        (Move::Wake { sleeper }, Use::Unlocking(UnlockPhase::Wake)) => {
            if 0 <= sleeper < l.uses.len() && l.uses[sleeper] == Use::Asleep {
                let woken = Lock {
                    uses: l.uses.update(sleeper, Use::Locking(LockPhase::Reswap)),
                    ..l
                };
                lemma_links_stay(l, woken, sleeper);
                lemma_links_stay(woken, after, p);
            }
        },
        (Move::Unlock, Use::Unlocking(phase)) => {
            if after != l {
                if phase == UnlockPhase::ClearState {
                    assert(l.shared.qnodes[me as int].next <= l.shared.slots());
                    lemma_with_qnode_keeps_links(
                        l.shared,
                        me,
                        FlexguardQnode {
                            cs_counter: FLEXGUARD_CRITICAL_STATE_NONE,
                            ..l.shared.qnodes[me as int]
                        },
                    );
                }
                lemma_links_stay(l, after, p);
            }
        },
        _ => {
            assert(after.uses =~= l.uses.update(p, after.uses[p]));
            if after.uses[p] != l.uses[p] {
                lemma_links_stay(l, after, p);
            } else {
                assert(after.uses =~= l.uses);
                assert(after == l);
            }
        },
    }
}

/// A thread that leaves the queue and waits to learn of the one behind it has such a
/// thread: one about to link itself, or, where it sleeps, about to wake it.
pub proof fn law_a_leaver_learns_of_its_successor(l: Lock, p: int)
    requires
        queue_kept(l),
        0 <= p < l.uses.len(),
        l.uses[p] is Parked || l.uses[p] == Use::Locking(LockPhase::ExitAwait) || (l.uses[p]
            is Locking && l.uses[p]->Locking_0 is BlockedSleep),
    ensures
        unlinked(l, p) ==> exists|q: int|
            0 <= q < l.uses.len() && links_behind(#[trigger] l.uses[q], p),
        l.uses[p] is Parked && !unlinked(l, p) ==> exists|q: int|
            0 <= q < l.uses.len() && wakes(#[trigger] l.uses[q], p),
{
    assert(own_link_fits(l, p));
    assert(in_line(l.uses[p]));
}

/// With its last step in the queue a thread lets the one behind it to the front, which
/// waits no more.
pub proof fn law_a_leaver_lets_its_successor_go(l: Lock, p: int, q: int)
    requires
        queue_kept(l),
        0 <= p < l.uses.len(),
        0 <= q < l.uses.len(),
        link_of(l, p) == q + 2,
        l.uses[p] is Locking,
        l.uses[p]->Locking_0 is ReleaseWaiting,
    ensures
        ({
            let after = moved(l, p, Move::Lock);
            &&& !in_line(after.uses[p])
            &&& after.shared.qnodes[q + 1].waiting == 0
        }),
{
    assert(own_link_fits(l, p));
    assert(phase_fits(l.shared.slots(), l.uses[p]->Locking_0));
}

// Progress.
/// The lock after the thread `p` took `n` steps towards it, while nobody else moved.
pub open spec fn steps_alone(l: Lock, p: int, n: nat) -> Lock
    decreases n,
{
    if n == 0 {
        l
    } else {
        steps_alone(moved(l, p, Move::Lock), p, (n - 1) as nat)
    }
}

/// Whether the thread `p` is on its way to the lock with nobody in its way: the lock is
/// free, or `p` has it already, and nobody else is in the queue.
pub open spec fn unopposed(l: Lock, p: int) -> bool {
    &&& queue_kept(l)
    &&& 0 <= p < l.uses.len()
    &&& l.uses[p] is Locking
    &&& l.shared.lock_value == LOCK_VALUE_UNLOCKED || owns(l.uses[p])
    &&& forall|q: int| 0 <= q < l.uses.len() && q != p ==> !in_line(#[trigger] l.uses[q])
}

/// No more steps than a question needs to be answered.
spec fn check_distance(s: Shared, check: Check) -> nat {
    match check {
        Check::Answer { .. } => 0,
        Check::Preempted { .. } => 1,
        Check::Clear { token } => if token == s.front_runner {
            1
        } else {
            7
        },
        Check::State { token } => if token == s.front_runner {
            2
        } else {
            8
        },
        Check::Generation { token } => if token == s.front_runner {
            3
        } else {
            9
        },
        Check::Token => 4,
        Check::Holders => 5,
    }
}

/// No more steps than a thread needs to the lock, where nobody is in its way.
spec fn distance(l: Lock, p: int) -> nat {
    let linked = link_of(l, p) > QNODE_NEXT_PARKED;
    match l.uses[p] {
        Use::Locking(phase) => match phase {
            LockPhase::Held => 0,
            LockPhase::MarkHolder => 1,
            LockPhase::Contend => 2,
            LockPhase::Reswap => 2,
            LockPhase::Sleep => 3,
            LockPhase::ReadContended { .. } => 3,
            LockPhase::ReleaseWaiting { .. } => 4,
            LockPhase::ReleasePublish { .. } => 5,
            LockPhase::ReleaseFront { .. } => 6,
            LockPhase::ExitHandOver => 7,
            LockPhase::ExitAwait => 8,
            LockPhase::ExitClose => 9,
            LockPhase::ExitRead => 10,
            LockPhase::BlockedPark { .. } => 8,
            LockPhase::BlockedClose { .. } => 9,
            LockPhase::BlockedRead { .. } => if linked {
                7
            } else {
                10
            },
            LockPhase::BlockedSleep { .. } => 11,
            LockPhase::TryTake { .. } => 11,
            LockPhase::Retry { .. } => 12,
            LockPhase::LoadState { .. } => 12,
            LockPhase::Spin { check, .. } => 13 + check_distance(l.shared, check),
            LockPhase::PublishFront => 13,
            LockPhase::MarkFront => 14,
            LockPhase::LeaveWait => 15,
            LockPhase::AwaitFront => 16,
            LockPhase::AwaitCheck { check } => 17 + check_distance(l.shared, check),
            LockPhase::WakePred { .. } => 27,
            LockPhase::Link { .. } => 28,
            LockPhase::Enqueue => 29,
            LockPhase::SetWaiting => 30,
            LockPhase::ResetNext => 31,
            LockPhase::AdvanceGeneration => 32,
            LockPhase::Deciding { check } => 33 + check_distance(l.shared, check),
            LockPhase::FastPath => 43,
            LockPhase::Rejoin { check, .. } => 43 + check_distance(l.shared, check),
        },
        _ => 0,
    }
}

proof fn lemma_check_comes_nearer(s: Shared, check: Check)
    ensures
        ({
            let (after, next) = check_stepped(s, check);
            &&& !(check is Answer) ==> check_distance(after, next) < check_distance(s, check)
            &&& after.lock_value == s.lock_value
            &&& after.qnodes == s.qnodes
            &&& after.queue == s.queue
        }),
{
}

/// What nobody being in its way means to a thread in the queue.
proof fn lemma_alone_in_line(l: Lock, p: int)
    requires
        unopposed(l, p),
        in_line(l.uses[p]),
    ensures
        !is_link(l.uses[p]),
        unlinked(l, p) ==> l.shared.queue == p + 1,
        l.shared.queue == p + 1 ==> link_of(l, p) == QNODE_NEXT_NONE,
        awaits_front(l.uses[p]) ==> l.shared.qnodes[p + 1].waiting == 0,
{
    assert(own_link_fits(l, p) && not_behind_itself(l, p));
    if is_link(l.uses[p]) {
        let pred = l.uses[p]->Locking_0->Link_pred - 1;
        assert(phase_fits(l.shared.slots(), l.uses[p]->Locking_0));
        assert(in_line(l.uses[pred]));
    }
    if unlinked(l, p) && l.shared.queue != p + 1 {
        let q = choose|q: int| 0 <= q < l.uses.len() && links_behind(#[trigger] l.uses[q], p);
        assert(in_line(l.uses[q]));
    }
    if awaits_front(l.uses[p]) && l.shared.qnodes[p + 1].waiting != 0 {
        let r = choose|r: int| #[trigger] will_release(l, r, p);
        assert(in_line(l.uses[r]));
    }
}

#[verifier::spinoff_prover]
#[verifier::rlimit(60)]
proof fn lemma_comes_nearer(l: Lock, p: int)
    requires
        unopposed(l, p),
        l.uses[p] != Use::Locking(LockPhase::Held),
    ensures
        unopposed(moved(l, p, Move::Lock), p),
        distance(moved(l, p, Move::Lock), p) < distance(l, p),
{
    let after = moved(l, p, Move::Lock);
    let phase = l.uses[p]->Locking_0;
    law_every_move_keeps_the_queue(l, p, Move::Lock);
    assert(own_link_fits(l, p) && not_behind_itself(l, p));
    if in_line(l.uses[p]) {
        lemma_alone_in_line(l, p);
    }
    if l.shared.queue != NO_QNODE {
        assert(in_line(l.uses[l.shared.queue - 1]));
    }
    assert forall|q: int| 0 <= q < after.uses.len() && q != p implies !in_line(
        #[trigger] after.uses[q],
    ) by {
        assert(!in_line(l.uses[q]));
    }
    match phase {
        LockPhase::Deciding { check } => {
            lemma_check_comes_nearer(l.shared, check);
        },
        LockPhase::AwaitCheck { check } => {
            lemma_check_comes_nearer(l.shared, check);
        },
        LockPhase::Spin { check, .. } => {
            lemma_check_comes_nearer(l.shared, check);
        },
        LockPhase::Rejoin { check, .. } => {
            lemma_check_comes_nearer(l.shared, check);
        },
        _ => {},
    }
}

proof fn lemma_gets_there(l: Lock, p: int)
    requires
        unopposed(l, p),
    ensures
        exists|n: nat|
            n <= distance(l, p) && #[trigger] steps_alone(l, p, n).uses[p] == Use::Locking(
                LockPhase::Held,
            ),
    decreases distance(l, p),
{
    if l.uses[p] == Use::Locking(LockPhase::Held) {
        assert(steps_alone(l, p, 0).uses[p] == Use::Locking(LockPhase::Held));
    } else {
        let next = moved(l, p, Move::Lock);
        lemma_comes_nearer(l, p);
        lemma_gets_there(next, p);
        let n = choose|n: nat|
            n <= distance(next, p) && #[trigger] steps_alone(next, p, n).uses[p] == Use::Locking(
                LockPhase::Held,
            );
        assert(steps_alone(l, p, n + 1) == steps_alone(next, p, n));
    }
}

/// A thread that wants a free lock gets it: from wherever it is on its way, queued or
/// not, and whoever is off its CPU, a bounded number of its own steps lead to the lock,
/// as long as nobody else is in the queue and nobody else moves.
pub proof fn law_a_free_lock_is_taken(l: Lock, p: int)
    requires
        queue_kept(l),
        0 <= p < l.uses.len(),
        l.uses[p] is Locking,
        l.shared.lock_value == LOCK_VALUE_UNLOCKED || owns(l.uses[p]),
        forall|q: int| 0 <= q < l.uses.len() && q != p ==> !in_line(#[trigger] l.uses[q]),
    ensures
        exists|n: nat|
            n <= 60 && #[trigger] steps_alone(l, p, n).uses[p] == Use::Locking(LockPhase::Held),
{
    lemma_gets_there(l, p);
}

// What one thread's steps lead to.
/// What a thread's steps lead to while nobody else makes any.
pub open spec fn after_steps(s: Shared, me: usize, phase: LockPhase, n: nat) -> (Shared, LockPhase)
    decreases n,
{
    if n == 0 {
        (s, phase)
    } else {
        let (after, next) = lock_stepped(s, me, phase);
        after_steps(after, me, next, (n - 1) as nat)
    }
}

/// Whether somebody whom the others would wait for is off its CPU: a lock holder, or the
/// front runner of the queue, that is the thread whose slot and generation are the two
/// halves of the published word, as long as it is in that generation and at the front.
pub open spec fn somebody_is_off(s: Shared) -> bool {
    let index = s.front_runner as int % 0x1_0000_0000;
    let generation = s.front_runner as int / 0x1_0000_0000;
    s.num_preempted_holders != 0 || (0 < index < s.slots() && s.generations[index] == generation
        && s.qnodes[index].cs_counter == 2 && s.preempted_flags[index] != 0)
}

proof fn lemma_named_by(token: u64, slots: nat)
    requires
        slots <= i32::MAX,
    ensures
        ({
            let index = token as int % 0x1_0000_0000;
            let generation = token as int / 0x1_0000_0000;
            named_by(token, slots) == if 0 < index < slots {
                Some((index as usize, generation as u32))
            } else {
                None
            }
        }),
        0 <= token as int / 0x1_0000_0000 <= u32::MAX,
{
    assert(token & 0xffff_ffff == token % 0x1_0000_0000 && token >> 32 == token / 0x1_0000_0000)
        by (bit_vector);
}

/// Queueing makes no sense, and waiting ends in sleep, just while somebody is off whom the
/// others would wait for. A look at the front runner drops a word that names nobody at
/// the front any more, and leaves everything else.
pub proof fn law_waiting_goes_by_who_is_off(s: Shared)
    requires
        s.wf(),
    ensures
        blocking(s) == somebody_is_off(s),
        after_check(s) == (Shared { front_runner: after_check(s).front_runner, ..s }),
        after_check(s).front_runner == s.front_runner || after_check(s).front_runner == 0,
        blocking(after_check(s)) == blocking(s),
{
    lemma_named_by(s.front_runner, s.slots());
    lemma_named_by(0, s.slots());
}

/// A thread that finds the lock taken goes to queue for it, unless somebody is off: then it
/// goes on without having queued.
pub proof fn law_a_thread_queues_unless_somebody_is_off(s: Shared, me: usize)
    requires
        s.wf(),
        0 < me < s.slots(),
        s.lock_value != 0,
    ensures
        exists|n: nat|
            n <= 7 && #[trigger] after_steps(s, me, LockPhase::FastPath, n) == (
                after_check(s),
                if somebody_is_off(s) {
                    LockPhase::LoadState { enqueued: false }
                } else {
                    LockPhase::AdvanceGeneration
                },
            ),
{
    law_waiting_goes_by_who_is_off(s);
    lemma_named_by(s.front_runner, s.slots());
    reveal_with_fuel(after_steps, 8);
    let start = LockPhase::FastPath;
    assert(after_steps(s, me, start, 3).1 is Deciding || after_steps(s, me, start, 3).1
        is LoadState);
    if s.num_preempted_holders != 0 {
        assert(after_steps(s, me, start, 3) == (s, LockPhase::LoadState { enqueued: false }));
    } else if named_by(s.front_runner, s.slots()) is None {
        assert(after_steps(s, me, start, 4) == (s, LockPhase::AdvanceGeneration));
    } else if s.generations[(named_by(s.front_runner, s.slots())->0).0 as int] != (named_by(
        s.front_runner,
        s.slots(),
    )->0).1 {
        assert(after_steps(s, me, start, 6) == (after_check(s), LockPhase::AdvanceGeneration));
    } else {
        assert(after_steps(s, me, start, 7) == (
            after_check(s),
            if somebody_is_off(s) {
                LockPhase::LoadState { enqueued: false }
            } else {
                LockPhase::AdvanceGeneration
            },
        ));
    }
}

/// A thread that spins for the lock tries it again, unless somebody is off: then it leaves
/// the queue, if it is in it, and goes to sleep.
pub proof fn law_a_spinning_thread_goes_by_who_is_off(
    s: Shared,
    me: usize,
    enqueued: bool,
    state: i32,
)
    requires
        s.wf(),
        0 < me < s.slots(),
    ensures
        exists|n: nat|
            n <= 6 && #[trigger] after_steps(
                s,
                me,
                LockPhase::Spin { enqueued, state, check: Check::Holders },
                n,
            ) == (
                after_check(s),
                if !somebody_is_off(s) {
                    LockPhase::Retry { enqueued, state }
                } else if enqueued {
                    LockPhase::BlockedRead { state }
                } else {
                    LockPhase::ReadContended { state }
                },
            ),
{
    law_waiting_goes_by_who_is_off(s);
    lemma_named_by(s.front_runner, s.slots());
    reveal_with_fuel(after_steps, 7);
    let start = LockPhase::Spin { enqueued, state, check: Check::Holders };
    let off = if enqueued {
        LockPhase::BlockedRead { state }
    } else {
        LockPhase::ReadContended { state }
    };
    let again = LockPhase::Retry { enqueued, state };
    if s.num_preempted_holders != 0 {
        assert(after_steps(s, me, start, 2) == (s, off));
    } else if named_by(s.front_runner, s.slots()) is None {
        assert(after_steps(s, me, start, 3) == (s, again));
    } else if s.generations[(named_by(s.front_runner, s.slots())->0).0 as int] != (named_by(
        s.front_runner,
        s.slots(),
    )->0).1 {
        assert(after_steps(s, me, start, 5) == (after_check(s), again));
    } else {
        assert(after_steps(s, me, start, 6) == (
            after_check(s),
            if somebody_is_off(s) {
                off
            } else {
                again
            },
        ));
    }
}

/// A thread in the queue waits on for the front of it, unless somebody is off; one that
/// gets there goes on as the front runner.
pub proof fn law_a_waiter_stays_in_line_unless_somebody_is_off(s: Shared, me: usize)
    requires
        s.wf(),
        0 < me < s.slots(),
    ensures
        s.qnodes[me as int].waiting == 0 ==> after_steps(s, me, LockPhase::AwaitFront, 2) == (
            s,
            LockPhase::MarkFront,
        ),
        s.qnodes[me as int].waiting != 0 ==> exists|n: nat|
            0 < n <= 8 && #[trigger] after_steps(s, me, LockPhase::AwaitFront, n) == (
                after_check(s),
                if somebody_is_off(s) {
                    LockPhase::LoadState { enqueued: true }
                } else {
                    LockPhase::AwaitFront
                },
            ),
{
    law_waiting_goes_by_who_is_off(s);
    lemma_named_by(s.front_runner, s.slots());
    reveal_with_fuel(after_steps, 9);
    let start = LockPhase::AwaitFront;
    let off = LockPhase::LoadState { enqueued: true };
    if s.qnodes[me as int].waiting != 0 {
        if s.num_preempted_holders != 0 {
            assert(after_steps(s, me, start, 4) == (s, off));
        } else if named_by(s.front_runner, s.slots()) is None {
            assert(after_steps(s, me, start, 4) == (s, start));
        } else if s.generations[(named_by(s.front_runner, s.slots())->0).0 as int] != (named_by(
            s.front_runner,
            s.slots(),
        )->0).1 {
            assert(after_steps(s, me, start, 6) == (after_check(s), start));
        } else if somebody_is_off(s) {
            assert(after_steps(s, me, start, 8) == (after_check(s), off));
        } else {
            assert(after_steps(s, me, start, 7) == (after_check(s), start));
        }
    }
}

/// A sleeper that is woken takes a lock that is free, marked contended for those who may
/// sleep still. Otherwise it keeps the lock marked so, and queues for it, unless somebody
/// is off: then it goes back to sleep on the lock word.
pub proof fn law_a_woken_sleeper_takes_the_lock_or_waits_again(s: Shared, me: usize)
    requires
        s.wf(),
        0 < me < s.slots(),
    ensures
        s.lock_value == 0 ==> {
            let (after, phase) = after_steps(s, me, LockPhase::Reswap, 2);
            &&& phase == LockPhase::Held
            &&& after.lock_value == 2
            &&& after.qnodes[me as int].cs_counter == 1
        },
        s.lock_value != 0 ==> exists|n: nat|
            n <= 7 && #[trigger] after_steps(s, me, LockPhase::Reswap, n) == (
                Shared { lock_value: 2, ..after_check(s) },
                if somebody_is_off(s) {
                    LockPhase::Spin { enqueued: false, state: s.lock_value, check: Check::Holders }
                } else {
                    LockPhase::Deciding { check: Check::Holders }
                },
            ),
{
    law_waiting_goes_by_who_is_off(s);
    lemma_named_by(s.front_runner, s.slots());
    reveal_with_fuel(after_steps, 8);
    let start = LockPhase::Reswap;
    if s.lock_value != 0 {
        let off = LockPhase::Spin {
            enqueued: false,
            state: s.lock_value,
            check: Check::Holders,
        };
        let join = LockPhase::Deciding { check: Check::Holders };
        let marked = Shared { lock_value: 2, ..after_check(s) };
        if s.num_preempted_holders != 0 {
            assert(after_steps(s, me, start, 3) == (marked, off));
        } else if named_by(s.front_runner, s.slots()) is None {
            assert(after_steps(s, me, start, 4) == (marked, join));
        } else if s.generations[(named_by(s.front_runner, s.slots())->0).0 as int] != (named_by(
            s.front_runner,
            s.slots(),
        )->0).1 {
            assert(after_steps(s, me, start, 6) == (marked, join));
        } else {
            assert(after_steps(s, me, start, 7) == (
                marked,
                if somebody_is_off(s) {
                    off
                } else {
                    join
                },
            ));
        }
    }
}

/// Nobody sleeps on the lock word but while it says contended: a thread that saw the lock
/// taken marks it so before it sleeps, and takes it where it came free meanwhile.
pub proof fn law_a_lock_is_marked_before_it_is_slept_on(s: Shared, me: usize, state: i32)
    requires
        s.wf(),
        0 < me < s.slots(),
        state != 0,
    ensures
        s.lock_value == 2 ==> after_steps(s, me, LockPhase::ReadContended { state }, 1) == (
            s,
            LockPhase::Sleep,
        ),
        s.lock_value != 2 && s.lock_value != 0 ==> after_steps(
            s,
            me,
            LockPhase::ReadContended { state },
            2,
        ) == (Shared { lock_value: 2, ..s }, LockPhase::Sleep),
        s.lock_value == 0 ==> {
            let (after, phase) = after_steps(s, me, LockPhase::ReadContended { state }, 3);
            &&& phase == LockPhase::Held
            &&& after.lock_value == 2
            &&& after.qnodes[me as int].cs_counter == 1
        },
        after_steps(s, me, LockPhase::Sleep, 1) == (s, LockPhase::Reswap),
{
    reveal_with_fuel(after_steps, 4);
}

/// A thread that queues is the last in the queue then, under a new generation and with
/// nobody behind it. In an empty queue it is the front runner, and is published as that;
/// otherwise it waits, and the one before it knows of it.
pub proof fn law_a_thread_queues_at_the_end(s: Shared, me: usize)
    requires
        s.wf(),
        0 < me < s.slots(),
        s.queue != me,
    ensures
        s.queue == 0 ==> {
            let (after, phase) = after_steps(s, me, LockPhase::AdvanceGeneration, 6);
            &&& phase == (LockPhase::LoadState { enqueued: true })
            &&& after.queue == me
            &&& after.qnodes[me as int].next == 0
            &&& after.qnodes[me as int].cs_counter == 2
            &&& after.generations[me as int] != s.generations[me as int]
            &&& after.front_runner as int % 0x1_0000_0000 == me
            &&& after.front_runner as int / 0x1_0000_0000 == after.generations[me as int]
            &&& after.lock_value == s.lock_value
        },
        s.queue != 0 ==> {
            let pred = s.queue as int;
            let (after, phase) = after_steps(s, me, LockPhase::AdvanceGeneration, 5);
            &&& after.queue == me
            &&& after.qnodes[me as int].next == 0
            &&& after.qnodes[me as int].waiting == 1
            &&& after.generations[me as int] != s.generations[me as int]
            &&& after.qnodes[pred].next == me + 1
            &&& after.front_runner == s.front_runner
            &&& after.lock_value == s.lock_value
            &&& phase == if s.qnodes[pred].next == 1 {
                LockPhase::WakePred { pred: s.queue }
            } else {
                LockPhase::AwaitFront
            }
        },
{
    reveal_with_fuel(after_steps, 7);
    let generation = s.generations[me as int].wrapping_add(1);
    law_a_token_names_its_front_runner(generation, me, s.slots());
    lemma_named_by(token_of(generation, me), s.slots());
}

/// Who leaves the queue with the lock holds it then, and shows that. The queue is empty
/// where nobody was behind; otherwise the one behind is let to the front, shown there,
/// published and no longer waiting. Who leaves without the lock does the same, and goes
/// on to sleep on the lock word.
pub proof fn law_who_leaves_the_queue_lets_the_next_one_go(
    s: Shared,
    me: usize,
    next: usize,
    state: i32,
)
    requires
        s.wf(),
        0 < me < s.slots(),
        0 < next < s.slots(),
        next != me,
    ensures
        s.qnodes[me as int].next == 0 && s.queue == me ==> {
            let (after, phase) = after_steps(s, me, LockPhase::ExitRead, 3);
            let (gone, slept) = after_steps(s, me, LockPhase::BlockedRead { state }, 2);
            &&& phase == LockPhase::Held
            &&& after.queue == 0
            &&& after.qnodes[me as int].cs_counter == 1
            &&& slept == (LockPhase::ReadContended { state })
            &&& gone == (Shared { queue: 0, ..s })
        },
        s.qnodes[me as int].next == next + 1 ==> {
            let (after, phase) = after_steps(s, me, LockPhase::ExitRead, 6);
            let (gone, slept) = after_steps(s, me, LockPhase::BlockedRead { state }, 4);
            let behind = next as int;
            &&& phase == LockPhase::Held
            &&& after.qnodes[me as int].cs_counter == 1
            &&& after.queue == s.queue
            &&& after.qnodes[behind].waiting == 0
            &&& after.qnodes[behind].cs_counter == 2
            &&& after.qnodes[behind].next == s.qnodes[behind].next
            &&& after.front_runner as int % 0x1_0000_0000 == next
            &&& after.front_runner as int / 0x1_0000_0000 == s.generations[behind]
            &&& slept == (LockPhase::ReadContended { state })
            &&& gone.queue == s.queue
            &&& gone.qnodes[behind].waiting == 0
            &&& gone.qnodes[behind].cs_counter == 2
            &&& gone.front_runner == after.front_runner
            &&& gone.lock_value == s.lock_value
            &&& gone == released(s, next)
        },
        after_steps(s, me, LockPhase::ExitRead, 3).0.lock_value == s.lock_value,
{
    reveal_with_fuel(after_steps, 7);
    law_a_token_names_its_front_runner(s.generations[next as int], next, s.slots());
    lemma_named_by(token_of(s.generations[next as int], next), s.slots());
}

/// A release frees the lock and the thread's place, and wakes a sleeper just where the lock
/// was marked contended. Nothing else changes, whoever queues.
pub proof fn law_a_release_frees_the_lock(s: Shared, me: usize)
    requires
        s.wf(),
        0 < me < s.slots(),
    ensures
        ({
            let (freed, next) = unlock_stepped(s, me, UnlockPhase::Release);
            let (cleared, done) = unlock_stepped(freed, me, UnlockPhase::ClearState);
            &&& freed.lock_value == 0
            &&& s.lock_value == 1 ==> next == UnlockPhase::ClearState
            &&& s.lock_value == 2 ==> next == UnlockPhase::Wake
            &&& unlock_stepped(freed, me, UnlockPhase::Wake) == (freed, UnlockPhase::ClearState)
            &&& done == UnlockPhase::Done
            &&& cleared.qnodes[me as int].cs_counter == 0
            &&& cleared.lock_value == 0
            &&& cleared.queue == s.queue
            &&& cleared.front_runner == s.front_runner
            &&& forall|i: int| 0 <= i < s.slots() && i != me ==> #[trigger] cleared.qnodes[i]
                == s.qnodes[i]
            &&& cleared.qnodes[me as int].next == s.qnodes[me as int].next
            &&& cleared.qnodes[me as int].waiting == s.qnodes[me as int].waiting
        }),
{
}

/// The word of a node's successor is empty, parked, or one more than a slot.
pub proof fn law_a_link_names_the_slot_behind(slot: usize)
    requires
        0 < slot < usize::MAX,
    ensures
        next_state(0) == QnodeNextState::Empty,
        next_state(1) == QnodeNextState::Parked,
        next_state((slot + 1) as usize) == QnodeNextState::Successor(slot),
{
}

/// A fresh node waits for nobody, has nobody behind it, and is neither at the front nor the
/// holder; a published word that is empty names nobody, whoever is off.
pub proof fn law_a_fresh_node_blocks_nobody(s: Shared, index: usize)
    requires
        s.wf(),
        0 < index < s.slots(),
        s.num_preempted_holders == 0,
    ensures
        s.front_runner == 0 ==> !blocking(s),
        s.qnodes[index as int] == fresh_qnode() && s.front_runner as int % 0x1_0000_0000 == index
            ==> !blocking(s),
        fresh_qnode().waiting == 0,
        next_state(fresh_qnode().next) == QnodeNextState::Empty,
{
    law_waiting_goes_by_who_is_off(s);
}

} // verus!
