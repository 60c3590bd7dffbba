//! A lock word taken by test-and-set, with an MCS queue in front of it.
//!
//! The queue lets one waiting thread at a time at the lock word. Each thread
//! has one queue node, which it needs only until it has the lock. Every access
//! to shared memory is one step, and what holds after any interleaving of the
//! steps of any number of threads is proved of the steps alone.
use vstd::prelude::*;

use crate::lb_shared::admission;
use crate::lb_shared::admission::{UserAdmissionWord, WordFlags};

verus! {

pub const NO_NODE: usize = 0;

/// A queue node: the node queued behind it, and whether its thread still has to
/// wait for the front of the queue.
#[derive(Clone, Copy, Debug, PartialEq, Eq, Structural)]
pub struct Node {
    pub next: usize,
    pub waiting: bool,
}

pub open spec fn fresh_node() -> Node {
    Node { next: NO_NODE, waiting: false }
}

impl Node {
    pub fn new() -> (r: Self)
        ensures
            r == fresh_node(),
    {
        Node { next: NO_NODE, waiting: false }
    }
}

/// The nodes of all threads. A node goes by its number, the first one by 1.
pub struct NodeMemory {
    pub nodes: Vec<Node>,
}

pub open spec fn is_node(nodes: Seq<Node>, node: usize) -> bool {
    1 <= node <= nodes.len()
}

pub open spec fn node_at(nodes: Seq<Node>, node: usize) -> Node {
    nodes[node - 1]
}

pub open spec fn node_set(nodes: Seq<Node>, node: usize, value: Node) -> Seq<Node> {
    nodes.update(node - 1, value)
}

impl NodeMemory {
    /// Memory for `count` nodes.
    pub fn with_nodes(count: usize) -> (r: Self)
        ensures
            r.nodes@.len() == count,
            forall|i: int| 0 <= i < count ==> #[trigger] r.nodes@[i] == fresh_node(),
    {
        let mut nodes: Vec<Node> = Vec::new();
        let mut i: usize = 0;
        while i < count
            invariant
                i <= count,
                nodes@.len() == i,
                forall|k: int| 0 <= k < i ==> #[trigger] nodes@[k] == fresh_node(),
            decreases count - i,
        {
            nodes.push(Node::new());
            i += 1;
        }
        NodeMemory { nodes }
    }

    fn get(&self, node: usize) -> (r: Node)
        requires
            is_node(self.nodes@, node),
        ensures
            r == node_at(self.nodes@, node),
    {
        self.nodes[node - 1]
    }

    fn put(&mut self, node: usize, value: Node)
        requires
            is_node(old(self).nodes@, node),
        ensures
            final(self).nodes@ == node_set(old(self).nodes@, node, value),
    {
        self.nodes.set(node - 1, value);
    }
}

/// How far a thread got in taking the lock.
#[derive(Clone, Copy, Debug, PartialEq, Eq, Structural)]
pub enum LockPhase {
    /// About to make its node fresh.
    Prepare,
    /// About to queue its node.
    Enqueue,
    /// Queued behind `pred`: about to mark its own node as waiting.
    MarkWaiting { pred: usize },
    /// About to let `pred` know.
    Link { pred: usize },
    /// Waiting for the front of the queue.
    SpinQueue,
    /// At the front: trying the lock word.
    Front,
    /// Has the lock: about to look for a successor.
    ReadNext,
    /// Has the lock: about to close the queue.
    CloseTail,
    /// Has the lock: somebody queued meanwhile, and it waits to learn who.
    AwaitSuccessor,
    /// Has the lock: about to let `successor` to the front.
    HandOver { successor: usize },
    /// Has the lock, and left the queue.
    Held,
}

/// What threads share of a lock.
pub struct Shared {
    pub tail: usize,
    pub locked: bool,
    pub nodes: Seq<Node>,
}

/// One step of taking the lock.
pub open spec fn lock_stepped(s: Shared, node: usize, phase: LockPhase) -> (Shared, LockPhase) {
    let next = node_at(s.nodes, node).next;
    match phase {
        LockPhase::Prepare => (
            Shared { nodes: node_set(s.nodes, node, fresh_node()), ..s },
            LockPhase::Enqueue,
        ),
        LockPhase::Enqueue => (
            Shared { tail: node, ..s },
            if s.tail == NO_NODE {
                LockPhase::Front
            } else {
                LockPhase::MarkWaiting { pred: s.tail }
            },
        ),
        LockPhase::MarkWaiting { pred } => (
            Shared {
                nodes: node_set(
                    s.nodes,
                    node,
                    Node { waiting: true, ..node_at(s.nodes, node) },
                ),
                ..s
            },
            LockPhase::Link { pred },
        ),
        LockPhase::Link { pred } => (
            Shared {
                nodes: node_set(s.nodes, pred, Node { next: node, ..node_at(s.nodes, pred) }),
                ..s
            },
            LockPhase::SpinQueue,
        ),
        LockPhase::SpinQueue => (
            s,
            if node_at(s.nodes, node).waiting {
                LockPhase::SpinQueue
            } else {
                LockPhase::Front
            },
        ),
        LockPhase::Front => (
            Shared { locked: true, ..s },
            if s.locked {
                LockPhase::Front
            } else {
                LockPhase::ReadNext
            },
        ),
        LockPhase::ReadNext => (
            s,
            if next == NO_NODE {
                LockPhase::CloseTail
            } else {
                LockPhase::HandOver { successor: next }
            },
        ),
        LockPhase::CloseTail => if s.tail == node {
            (Shared { tail: NO_NODE, ..s }, LockPhase::Held)
        } else {
            (s, LockPhase::AwaitSuccessor)
        },
        LockPhase::AwaitSuccessor => (
            s,
            if next == NO_NODE {
                LockPhase::AwaitSuccessor
            } else {
                LockPhase::HandOver { successor: next }
            },
        ),
        LockPhase::HandOver { successor } => (
            Shared {
                nodes: node_set(
                    s.nodes,
                    successor,
                    Node { waiting: false, ..node_at(s.nodes, successor) },
                ),
                ..s
            },
            LockPhase::Held,
        ),
        LockPhase::Held => (s, LockPhase::Held),
    }
}

/// The phases in order.
pub open spec fn rank(phase: LockPhase) -> int {
    match phase {
        LockPhase::Prepare => 10,
        LockPhase::Enqueue => 9,
        LockPhase::MarkWaiting { .. } => 8,
        LockPhase::Link { .. } => 7,
        LockPhase::SpinQueue => 6,
        LockPhase::Front => 5,
        LockPhase::ReadNext => 4,
        LockPhase::CloseTail => 3,
        LockPhase::AwaitSuccessor => 2,
        LockPhase::HandOver { .. } => 1,
        LockPhase::Held => 0,
    }
}

/// Where a thread gets by steps of its own: until it has the lock, or only
/// another thread can let it go on.
pub open spec fn settled(s: Shared, node: usize, phase: LockPhase) -> (Shared, LockPhase)
    decreases rank(phase),
{
    let (after, next) = lock_stepped(s, node, phase);
    if next == phase {
        (after, next)
    } else {
        settled(after, node, next)
    }
}

/// The nodes that a phase names exist.
pub open spec fn phase_fits(nodes: Seq<Node>, phase: LockPhase) -> bool {
    match phase {
        LockPhase::MarkWaiting { pred } => is_node(nodes, pred),
        LockPhase::Link { pred } => is_node(nodes, pred),
        LockPhase::HandOver { successor } => is_node(nodes, successor),
        _ => true,
    }
}

/// Every node that is named exists.
pub open spec fn links_fit(s: Shared) -> bool {
    &&& s.tail == NO_NODE || is_node(s.nodes, s.tail)
    &&& forall|i: int|
        0 <= i < s.nodes.len() ==> (#[trigger] s.nodes[i]).next == NO_NODE || is_node(
            s.nodes,
            s.nodes[i].next,
        )
}

/// The lock: the last node of its queue, and the lock word.
pub struct McsTasLockRaw {
    pub tail: usize,
    pub locked: bool,
}

pub open spec fn shared_of(lock: McsTasLockRaw, memory: NodeMemory) -> Shared {
    Shared { tail: lock.tail, locked: lock.locked, nodes: memory.nodes@ }
}

impl McsTasLockRaw {
    pub fn new() -> (r: Self)
        ensures
            r.tail == NO_NODE,
            !r.locked,
    {
        McsTasLockRaw { tail: NO_NODE, locked: false }
    }

    pub fn lock_step(&mut self, memory: &mut NodeMemory, node: usize, phase: LockPhase) -> (r:
        LockPhase)
        requires
            is_node(old(memory).nodes@, node),
            phase_fits(old(memory).nodes@, phase),
        ensures
            (shared_of(*final(self), *final(memory)), r) == lock_stepped(
                shared_of(*old(self), *old(memory)),
                node,
                phase,
            ),
    {
        match phase {
            LockPhase::Prepare => {
                memory.put(node, Node { next: NO_NODE, waiting: false });
                LockPhase::Enqueue
            },
            LockPhase::Enqueue => {
                let pred: usize = self.tail;
                self.tail = node;
                if pred == NO_NODE {
                    LockPhase::Front
                } else {
                    LockPhase::MarkWaiting { pred }
                }
            },
            LockPhase::MarkWaiting { pred } => {
                let mut own: Node = memory.get(node);
                own.waiting = true;
                memory.put(node, own);
                LockPhase::Link { pred }
            },
            LockPhase::Link { pred } => {
                let mut before: Node = memory.get(pred);
                before.next = node;
                memory.put(pred, before);
                LockPhase::SpinQueue
            },
            LockPhase::SpinQueue => if memory.get(node).waiting {
                LockPhase::SpinQueue
            } else {
                LockPhase::Front
            },
            LockPhase::Front => {
                let was_locked: bool = self.locked;
                self.locked = true;
                if was_locked {
                    LockPhase::Front
                } else {
                    LockPhase::ReadNext
                }
            },
            LockPhase::ReadNext => {
                let next: usize = memory.get(node).next;
                if next == NO_NODE {
                    LockPhase::CloseTail
                } else {
                    LockPhase::HandOver { successor: next }
                }
            },
            LockPhase::CloseTail => if self.tail == node {
                self.tail = NO_NODE;
                LockPhase::Held
            } else {
                LockPhase::AwaitSuccessor
            },
            LockPhase::AwaitSuccessor => {
                let next: usize = memory.get(node).next;
                if next == NO_NODE {
                    LockPhase::AwaitSuccessor
                } else {
                    LockPhase::HandOver { successor: next }
                }
            },
            LockPhase::HandOver { successor } => {
                let mut after: Node = memory.get(successor);
                after.waiting = false;
                memory.put(successor, after);
                LockPhase::Held
            },
            LockPhase::Held => LockPhase::Held,
        }
    }

    /// Goes on with taking the lock as far as the thread gets by itself, and
    /// shows the scheduler that the thread is about to queue, and that it has
    /// the lock. A free lock that nobody is queued for is held afterwards.
    pub fn lock(
        &mut self,
        memory: &mut NodeMemory,
        node: usize,
        phase: LockPhase,
        word: &mut UserAdmissionWord,
    ) -> (r: LockPhase)
        requires
            is_node(old(memory).nodes@, node),
            phase_fits(old(memory).nodes@, phase),
            links_fit(shared_of(*old(self), *old(memory))),
        ensures
            (shared_of(*final(self), *final(memory)), r) == settled(
                shared_of(*old(self), *old(memory)),
                node,
                phase,
            ),
            phase == LockPhase::Prepare && old(self).tail == NO_NODE && !old(self).locked ==> r
                == LockPhase::Held && final(self).locked && final(self).tail == NO_NODE,
            final(word)@ == word_after_lock(old(word)@, phase, r),
    {
        let ghost start = shared_of(*self, *memory);
        if phase == LockPhase::Prepare {
            admission::mark_slow_path_pending(word);
        }
        proof {
            if phase == LockPhase::Prepare && self.tail == NO_NODE && !self.locked {
                reveal_with_fuel(settled, 7);
            }
        }
        let mut current: LockPhase = phase;
        loop
            invariant
                is_node(memory.nodes@, node),
                phase_fits(memory.nodes@, current),
                links_fit(shared_of(*self, *memory)),
                settled(shared_of(*self, *memory), node, current) == settled(start, node, phase),
                start == shared_of(*old(self), *old(memory)),
            ensures
                (shared_of(*self, *memory), current) == settled(start, node, phase),
            decreases rank(current),
        {
            let next: LockPhase = self.lock_step(memory, node, current);
            if next == current {
                break;
            }
            current = next;
        }
        if current == LockPhase::Held && phase != LockPhase::Held {
            admission::mark_critical_section_entered(word);
        }
        current
    }

    /// Takes the lock word if it is free, past the queue.
    pub fn try_lock(&mut self) -> (r: bool)
        ensures
            r == !old(self).locked,
            final(self).locked,
            final(self).tail == old(self).tail,
    {
        if self.locked {
            false
        } else {
            self.locked = true;
            true
        }
    }

    pub fn unlock(&mut self, word: &mut UserAdmissionWord)
        ensures
            !final(self).locked,
            final(self).tail == old(self).tail,
            final(word)@ == (WordFlags { in_critical_section: false, ..old(word)@ }),
    {
        self.locked = false;
        admission::mark_critical_section_exit(word);
    }
}

/// What a thread shows once it went on with taking the lock from `phase` to
/// `reached`.
pub open spec fn word_after_lock(
    word: WordFlags,
    phase: LockPhase,
    reached: LockPhase,
) -> WordFlags {
    let shown = if phase == LockPhase::Prepare {
        WordFlags { slow_path_pending: true, ..word }
    } else {
        word
    };
    if reached == LockPhase::Held && phase != LockPhase::Held {
        WordFlags { in_critical_section: true, slow_path_pending: false, ..shown }
    } else {
        shown
    }
}

// All threads together.
#[derive(Clone, Copy, Debug, PartialEq, Eq, Structural)]
pub enum Use {
    Idle,
    Locking(LockPhase),
    /// Has the lock without having queued.
    Taken,
}

/// A lock with what every thread is doing about it. The thread of `uses[p]` has
/// node `p + 1`.
pub struct Lock {
    pub shared: Shared,
    pub uses: Seq<Use>,
}

pub enum Move {
    /// Set out for the lock.
    Begin,
    /// Try the lock word.
    TryLock,
    /// Advance towards the lock.
    Lock,
    /// Release the lock.
    Unlock,
}

/// The lock after the thread of node `p + 1` made a move. A move that is not
/// the thread's turn changes nothing.
pub open spec fn moved(l: Lock, p: int, m: Move) -> Lock {
    match (m, l.uses[p]) {
        (Move::Begin, Use::Idle) => Lock {
            uses: l.uses.update(p, Use::Locking(LockPhase::Prepare)),
            ..l
        },
        (Move::TryLock, Use::Idle) => if l.shared.locked {
            l
        } else {
            Lock {
                shared: Shared { locked: true, ..l.shared },
                uses: l.uses.update(p, Use::Taken),
            }
        },
        (Move::Lock, Use::Locking(phase)) => {
            let (shared, next) = lock_stepped(l.shared, (p + 1) as usize, phase);
            Lock { shared, uses: l.uses.update(p, Use::Locking(next)) }
        },
        (Move::Unlock, Use::Taken) => Lock {
            shared: Shared { locked: false, ..l.shared },
            uses: l.uses.update(p, Use::Idle),
        },
        (Move::Unlock, Use::Locking(LockPhase::Held)) => Lock {
            shared: Shared { locked: false, ..l.shared },
            uses: l.uses.update(p, Use::Idle),
        },
        _ => l,
    }
}

/// Whether a thread has the lock.
pub open spec fn owns(u: Use) -> bool {
    match u {
        Use::Idle => false,
        Use::Taken => true,
        Use::Locking(phase) => rank(phase) <= 4,
    }
}

/// The lock word is set exactly while some thread has the lock, and only one
/// ever has it.
pub open spec fn exclusive(l: Lock) -> bool {
    &&& l.shared.locked ==> exists|p: int| 0 <= p < l.uses.len() && owns(#[trigger] l.uses[p])
    &&& !l.shared.locked ==> forall|p: int|
        0 <= p < l.uses.len() ==> !owns(#[trigger] l.uses[p])
    &&& forall|a: int, b: int|
        0 <= a < l.uses.len() && 0 <= b < l.uses.len() && owns(#[trigger] l.uses[a]) && owns(
            #[trigger] l.uses[b],
        ) ==> a == b
}

/// Whatever thread moves, and whatever it does, at most one thread has the lock,
/// and the lock word says whether one has.
pub proof fn law_every_move_keeps_the_lock_exclusive(l: Lock, p: int, m: Move)
    requires
        exclusive(l),
        0 <= p < l.uses.len(),
    ensures
        exclusive(moved(l, p, m)),
{
    let after = moved(l, p, m);
    if after.shared.locked {
        if owns(after.uses[p]) {
            assert(owns(after.uses[p]));
        } else if l.shared.locked {
            let o = choose|o: int| 0 <= o < l.uses.len() && owns(#[trigger] l.uses[o]);
            assert(owns(after.uses[o]));
        }
    }
    assert forall|a: int, b: int|
        0 <= a < after.uses.len() && 0 <= b < after.uses.len() && owns(#[trigger] after.uses[a])
            && owns(#[trigger] after.uses[b]) implies a == b by {
        if a != b {
            if a != p {
                assert(owns(l.uses[a]));
            }
            if b != p {
                assert(owns(l.uses[b]));
            }
        }
    }
    if !after.shared.locked {
        assert forall|r: int| 0 <= r < after.uses.len() implies !owns(#[trigger] after.uses[r]) by {
            if owns(after.uses[r]) && r != p {
                assert(owns(l.uses[r]));
            }
        }
    }
}

/// A lock that nobody uses is exclusive.
pub proof fn law_an_unused_lock_is_exclusive(l: Lock)
    requires
        !l.shared.locked,
        forall|p: int| 0 <= p < l.uses.len() ==> #[trigger] l.uses[p] == Use::Idle,
    ensures
        exclusive(l),
{
}

/// Whether a node is in the queue.
pub open spec fn queued(u: Use) -> bool {
    match u {
        Use::Locking(phase) => 1 <= rank(phase) <= 8,
        _ => false,
    }
}

/// The node behind `before` in the order, `p`, waits: it is linked, or on the
/// way to linking itself.
pub open spec fn waits_behind(l: Lock, before: int, p: int) -> bool {
    let pred = (before + 1) as usize;
    ||| {
        &&& l.uses[p] == Use::Locking(LockPhase::MarkWaiting { pred })
        &&& l.shared.nodes[before].next == NO_NODE
    }
    ||| {
        &&& l.uses[p] == Use::Locking(LockPhase::Link { pred })
        &&& l.shared.nodes[p].waiting
        &&& l.shared.nodes[before].next == NO_NODE
    }
    ||| {
        &&& l.uses[p] == Use::Locking(LockPhase::SpinQueue)
        &&& l.shared.nodes[p].waiting
        &&& l.shared.nodes[before].next == p + 1
    }
}

/// The first node in the order is at the front, or is just let there.
pub open spec fn is_first(l: Lock, order: Seq<int>) -> bool {
    let p = order[0];
    match l.uses[p] {
        Use::Locking(LockPhase::SpinQueue) => !l.shared.nodes[p].waiting,
        Use::Locking(LockPhase::Front) => true,
        Use::Locking(LockPhase::ReadNext) => true,
        Use::Locking(LockPhase::CloseTail) => true,
        Use::Locking(LockPhase::AwaitSuccessor) => order.len() >= 2,
        Use::Locking(LockPhase::HandOver { successor }) => order.len() >= 2 && successor
            == order[1] + 1 && l.shared.nodes[p].next == successor,
        _ => false,
    }
}

/// `order` is the order in which the queued threads came, and every node is as
/// it should be for it.
pub open spec fn in_order(l: Lock, order: Seq<int>) -> bool {
    &&& l.shared.nodes.len() == l.uses.len()
    &&& l.uses.len() < usize::MAX
    &&& forall|k: int| 0 <= k < order.len() ==> 0 <= #[trigger] order[k] < l.uses.len()
    &&& forall|i: int, j: int|
        0 <= i < j < order.len() ==> #[trigger] order[i] != #[trigger] order[j]
    &&& forall|k: int| 0 <= k < order.len() ==> queued(l.uses[#[trigger] order[k]])
    &&& forall|p: int|
        0 <= p < l.uses.len() && queued(#[trigger] l.uses[p]) ==> order.contains(p)
    &&& l.shared.tail == if order.len() == 0 {
        0
    } else {
        order.last() + 1
    }
    &&& order.len() > 0 ==> is_first(l, order) && l.shared.nodes[order.last()].next == NO_NODE
    &&& forall|j: int, k: int|
        0 <= j && k == j + 1 && k < order.len() ==> waits_behind(
            l,
            #[trigger] order[j],
            #[trigger] order[k],
        )
    &&& forall|p: int|
        0 <= p < l.uses.len() && #[trigger] l.uses[p] == Use::Locking(LockPhase::Enqueue)
            ==> l.shared.nodes[p] == fresh_node()
}

/// The order after a move: threads join at the end and leave at the front.
pub open spec fn order_after(l: Lock, order: Seq<int>, p: int, m: Move) -> Seq<int> {
    match (m, l.uses[p]) {
        (Move::Lock, Use::Locking(LockPhase::Enqueue)) => order.push(p),
        (Move::Lock, Use::Locking(LockPhase::CloseTail)) => if l.shared.tail == p + 1 {
            order.subrange(1, order.len() as int)
        } else {
            order
        },
        (Move::Lock, Use::Locking(LockPhase::HandOver { .. })) => order.subrange(
            1,
            order.len() as int,
        ),
        _ => order,
    }
}

proof fn lemma_position(l: Lock, order: Seq<int>, p: int) -> (k: int)
    requires
        in_order(l, order),
        0 <= p < l.uses.len(),
        queued(l.uses[p]),
    ensures
        0 <= k < order.len(),
        order[k] == p,
{
    assert(order.contains(p));
    choose|k: int| 0 <= k < order.len() && order[k] == p
}

/// A queue that nobody uses is in order.
pub proof fn law_an_unused_queue_is_in_order(l: Lock)
    requires
        l.shared.tail == NO_NODE,
        l.shared.nodes.len() == l.uses.len(),
        l.uses.len() < usize::MAX,
        forall|p: int| 0 <= p < l.uses.len() ==> #[trigger] l.uses[p] == Use::Idle,
    ensures
        in_order(l, Seq::empty()),
{
}

proof fn lemma_outsider_changes(l: Lock, after: Lock, order: Seq<int>, p: int)
    requires
        in_order(l, order),
        0 <= p < l.uses.len(),
        !queued(l.uses[p]),
        after.shared.tail == l.shared.tail,
        after.shared.nodes == l.shared.nodes.update(p, after.shared.nodes[p]),
        after.uses == l.uses.update(p, after.uses[p]),
        !queued(after.uses[p]),
        after.uses[p] == Use::Locking(LockPhase::Enqueue) ==> after.shared.nodes[p]
            == fresh_node(),
    ensures
        in_order(after, order),
{
    assert forall|k: int| 0 <= k < order.len() implies #[trigger] order[k] != p by {
        assert(queued(l.uses[order[k]]));
    }
    assert forall|j: int, k: int| 0 <= j && k == j + 1 && k < order.len() implies waits_behind(
        after,
        #[trigger] order[j],
        #[trigger] order[k],
    ) by {
        assert(waits_behind(l, order[j], order[k]));
        assert(order[j] != p);
    }
    assert forall|r: int| 0 <= r < after.uses.len() && queued(
        #[trigger] after.uses[r],
    ) implies order.contains(r) by {
        assert(queued(l.uses[r]));
    }
    if order.len() > 0 {
        assert(order[0] != p);
        assert(order[order.len() - 1] != p);
    }
}

proof fn lemma_first_joins(l: Lock, after: Lock, order: Seq<int>, p: int)
    requires
        in_order(l, order),
        0 <= p < l.uses.len(),
        order.len() == 0,
        l.uses[p] == Use::Locking(LockPhase::Enqueue),
        after.shared.tail == p + 1,
        after.shared.nodes == l.shared.nodes,
        after.uses == l.uses.update(p, Use::Locking(LockPhase::Front)),
    ensures
        in_order(after, order.push(p)),
{
    let next = order.push(p);
    assert(l.shared.nodes[p] == fresh_node());
    assert(next[0] == p);
    assert forall|r: int| 0 <= r < after.uses.len() && queued(
        #[trigger] after.uses[r],
    ) implies next.contains(r) by {
        if r != p {
            assert(queued(l.uses[r]));
            assert(order.contains(r));
        }
    }
}

proof fn lemma_another_joins(l: Lock, after: Lock, order: Seq<int>, p: int)
    requires
        in_order(l, order),
        0 <= p < l.uses.len(),
        order.len() > 0,
        l.uses[p] == Use::Locking(LockPhase::Enqueue),
        after.shared.tail == p + 1,
        after.shared.nodes == l.shared.nodes,
        after.uses == l.uses.update(
            p,
            Use::Locking(LockPhase::MarkWaiting { pred: l.shared.tail }),
        ),
    ensures
        in_order(after, order.push(p)),
{
    let next = order.push(p);
    let n = order.len() as int;
    assert(l.shared.nodes[p] == fresh_node());
    assert forall|k: int| 0 <= k < n implies #[trigger] order[k] != p by {
        assert(queued(l.uses[order[k]]));
    }
    assert forall|i: int, j: int| 0 <= i < j < next.len() implies #[trigger] next[i]
        != #[trigger] next[j] by {
        assert(next[i] == order[i]);
        if j < n {
            assert(next[j] == order[j]);
        }
    }
    assert forall|k: int| 0 <= k < next.len() implies queued(after.uses[#[trigger] next[k]]) && 0
        <= next[k] < l.uses.len() by {
        if k < n {
            assert(next[k] == order[k]);
            assert(queued(l.uses[order[k]]));
        }
    }
    assert forall|r: int| 0 <= r < after.uses.len() && queued(
        #[trigger] after.uses[r],
    ) implies next.contains(r) by {
        if r != p {
            assert(queued(l.uses[r]));
            let k = lemma_position(l, order, r);
            assert(next[k] == r);
        } else {
            assert(next[n] == p);
        }
    }
    assert forall|j: int, k: int| 0 <= j && k == j + 1 && k < next.len() implies waits_behind(
        after,
        #[trigger] next[j],
        #[trigger] next[k],
    ) by {
        assert(next[j] == order[j]);
        if k < n {
            assert(next[k] == order[k]);
            assert(waits_behind(l, order[j], order[k]));
        }
    }
    assert(next[0] == order[0]);
    assert(order[0] != p);
    if n > 1 {
        assert(next[1] == order[1]);
    }
    assert(is_first(after, next));
}

/// A waiting node marks itself, or links itself to the node before it.
proof fn lemma_waiter_advances(l: Lock, after: Lock, order: Seq<int>, k: int)
    requires
        in_order(l, order),
        1 <= k < order.len(),
        waits_behind(after, order[k - 1], order[k]),
        after.shared.tail == l.shared.tail,
        after.uses == l.uses.update(order[k], after.uses[order[k]]),
        after.shared.nodes.len() == l.shared.nodes.len(),
        forall|r: int|
            0 <= r < l.uses.len() && r != order[k] ==> (#[trigger] after.shared.nodes[r]).waiting
                == l.shared.nodes[r].waiting,
        forall|r: int|
            0 <= r < l.uses.len() && r != order[k - 1] ==> (#[trigger] after.shared.nodes[r]).next
                == l.shared.nodes[r].next,
        l.shared.nodes[order[k - 1]].next == NO_NODE,
    ensures
        in_order(after, order),
{
    assert(order[k - 1] != order[k]);
    assert forall|i: int, j: int| 0 <= i && j == i + 1 && j < order.len() implies waits_behind(
        after,
        #[trigger] order[i],
        #[trigger] order[j],
    ) by {
        assert(waits_behind(l, order[i], order[j]));
        if j != k {
            assert(order[j] != order[k]);
            assert(order[i] != order[k - 1]);
        }
    }
    assert forall|r: int| 0 <= r < after.uses.len() && queued(
        #[trigger] after.uses[r],
    ) implies order.contains(r) by {
        if r == order[k] {
            assert(order.contains(order[k]));
        } else {
            assert(queued(l.uses[r]));
        }
    }
    assert(order[order.len() - 1] != order[k - 1]);
    assert(order[0] != order[k]);
    assert forall|r: int|
        0 <= r < l.uses.len() && #[trigger] after.uses[r] == Use::Locking(
            LockPhase::Enqueue,
        ) implies after.shared.nodes[r] == fresh_node() by {
        assert(l.uses[r] == Use::Locking(LockPhase::Enqueue));
        assert(l.shared.nodes[r] == fresh_node());
        assert(queued(l.uses[order[k - 1]]));
        assert(r != order[k - 1]);
    }
    assert forall|j: int| 0 <= j < order.len() implies queued(after.uses[#[trigger] order[j]]) by {
        assert(queued(l.uses[order[j]]));
    }
    if order.len() > 1 {
        assert(waits_behind(l, order[0], order[1]));
    }
    assert(is_first(after, order));
}

/// Where only the use of the first node changes, and it stays first, the order
/// stays.
proof fn lemma_only_first_changes(l: Lock, after: Lock, order: Seq<int>)
    requires
        in_order(l, order),
        order.len() > 0,
        after.shared.tail == l.shared.tail,
        after.shared.nodes == l.shared.nodes,
        after.uses == l.uses.update(order[0], after.uses[order[0]]),
        queued(after.uses[order[0]]),
        is_first(after, order),
    ensures
        in_order(after, order),
{
    assert forall|i: int, j: int| 0 <= i && j == i + 1 && j < order.len() implies waits_behind(
        after,
        #[trigger] order[i],
        #[trigger] order[j],
    ) by {
        assert(waits_behind(l, order[i], order[j]));
        assert(order[j] != order[0]);
    }
    assert forall|r: int| 0 <= r < after.uses.len() && queued(
        #[trigger] after.uses[r],
    ) implies order.contains(r) by {
        if r != order[0] {
            assert(queued(l.uses[r]));
        } else {
            assert(order.contains(order[0]));
        }
    }
}

proof fn lemma_hands_over(l: Lock, after: Lock, order: Seq<int>)
    requires
        in_order(l, order),
        order.len() >= 2,
        l.uses[order[0]] is Locking,
        l.uses[order[0]]->Locking_0 is HandOver,
        after.shared.tail == l.shared.tail,
        after.shared.nodes == l.shared.nodes.update(
            order[1],
            Node { waiting: false, ..l.shared.nodes[order[1]] },
        ),
        after.uses == l.uses.update(order[0], Use::Locking(LockPhase::Held)),
    ensures
        in_order(after, order.subrange(1, order.len() as int)),
{
    let next = order.subrange(1, order.len() as int);
    assert(waits_behind(l, order[0], order[1]));
    assert(order[0] != order[1]);
    assert forall|i: int, j: int| 0 <= i < j < next.len() implies #[trigger] next[i]
        != #[trigger] next[j] by {
        assert(next[i] == order[i + 1]);
        assert(next[j] == order[j + 1]);
    }
    assert forall|i: int, j: int| 0 <= i && j == i + 1 && j < next.len() implies waits_behind(
        after,
        #[trigger] next[i],
        #[trigger] next[j],
    ) by {
        assert(next[j] == order[j + 1]);
        assert(next[i] == order[i + 1]);
        assert(waits_behind(l, order[i + 1], order[j + 1]));
        assert(order[j + 1] != order[1]);
        assert(order[j + 1] != order[0]);
    }
    assert forall|r: int| 0 <= r < after.uses.len() && queued(
        #[trigger] after.uses[r],
    ) implies next.contains(r) by {
        assert(r != order[0]);
        assert(queued(l.uses[r]));
        let j = lemma_position(l, order, r);
        assert(next[j - 1] == r);
    }
    assert forall|j: int| 0 <= j < next.len() implies queued(after.uses[#[trigger] next[j]]) && 0
        <= next[j] < l.uses.len() by {
        assert(next[j] == order[j + 1]);
        assert(queued(l.uses[order[j + 1]]));
        assert(order[j + 1] != order[0]);
    }
    assert forall|r: int|
        0 <= r < l.uses.len() && #[trigger] after.uses[r] == Use::Locking(
            LockPhase::Enqueue,
        ) implies after.shared.nodes[r] == fresh_node() by {
        assert(l.uses[r] == Use::Locking(LockPhase::Enqueue));
        assert(queued(l.uses[order[1]]));
    }
    assert(next.last() == order[order.len() - 1]);
    assert(next[0] == order[1]);
    assert(is_first(after, next));
}

/// A node past waiting is the first one.
proof fn lemma_front_is_first(l: Lock, order: Seq<int>, k: int)
    requires
        in_order(l, order),
        0 <= k < order.len(),
        l.uses[order[k]] is Locking,
        rank(l.uses[order[k]]->Locking_0) <= 5,
    ensures
        k == 0,
{
    if k > 0 {
        assert(waits_behind(l, order[k - 1], order[k]));
    }
}

#[verifier::spinoff_prover]
proof fn lemma_waiting_moves(l: Lock, order: Seq<int>, p: int)
    requires
        in_order(l, order),
        0 <= p < l.uses.len(),
        l.uses[p] is Locking,
        6 <= rank(l.uses[p]->Locking_0) <= 8,
    ensures
        in_order(moved(l, p, Move::Lock), order_after(l, order, p, Move::Lock)),
{
    let after = moved(l, p, Move::Lock);
    let k = lemma_position(l, order, p);
    if k == 0 {
        lemma_only_first_changes(l, after, order);
    } else {
        assert(waits_behind(l, order[k - 1], order[k]));
        assert(order[k - 1] != order[k]);
        if l.uses[p] == Use::Locking(LockPhase::SpinQueue) {
            assert(after.uses =~= l.uses);
        } else {
            lemma_waiter_advances(l, after, order, k);
        }
    }
}

#[verifier::spinoff_prover]
proof fn lemma_front_moves(l: Lock, order: Seq<int>, p: int)
    requires
        in_order(l, order),
        0 <= p < l.uses.len(),
        l.uses[p] is Locking,
        1 <= rank(l.uses[p]->Locking_0) <= 5,
    ensures
        in_order(moved(l, p, Move::Lock), order_after(l, order, p, Move::Lock)),
{
    let after = moved(l, p, Move::Lock);
    let k = lemma_position(l, order, p);
    lemma_front_is_first(l, order, k);
    if order.len() > 1 {
        assert(waits_behind(l, order[0], order[1]));
    }
    match l.uses[p] {
        Use::Locking(LockPhase::CloseTail) => {
            if l.shared.tail == p + 1 {
                if order.len() > 1 {
                    assert(order[0] != order[order.len() - 1]);
                }
                assert forall|r: int| 0 <= r < after.uses.len() implies !queued(
                    #[trigger] after.uses[r],
                ) by {
                    if r != p && queued(l.uses[r]) {
                        let j = lemma_position(l, order, r);
                    }
                }
            } else {
                lemma_only_first_changes(l, after, order);
            }
        },
        Use::Locking(LockPhase::HandOver { successor }) => {
            lemma_hands_over(l, after, order);
        },
        _ => {
            lemma_only_first_changes(l, after, order);
        },
    }
}

/// Whatever thread moves, and whatever it does, the queue stays in order.
#[verifier::spinoff_prover]
pub proof fn law_every_move_keeps_the_order(l: Lock, order: Seq<int>, p: int, m: Move)
    requires
        in_order(l, order),
        0 <= p < l.uses.len(),
    ensures
        in_order(moved(l, p, m), order_after(l, order, p, m)),
{
    let after = moved(l, p, m);
    match (m, l.uses[p]) {
        (Move::Lock, Use::Locking(phase)) => {
            if phase == LockPhase::Prepare {
                lemma_outsider_changes(l, after, order, p);
            } else if phase == LockPhase::Enqueue {
                if order.len() == 0 {
                    lemma_first_joins(l, after, order, p);
                } else {
                    lemma_another_joins(l, after, order, p);
                }
            } else if phase == LockPhase::Held {
                assert(after.uses =~= l.uses);
            } else if rank(phase) >= 6 {
                lemma_waiting_moves(l, order, p);
            } else {
                lemma_front_moves(l, order, p);
            }
        },
        _ => {
            assert(after.uses =~= l.uses.update(p, after.uses[p]));
            assert(after.shared.nodes =~= l.shared.nodes.update(p, after.shared.nodes[p]));
            if !queued(l.uses[p]) {
                lemma_outsider_changes(l, after, order, p);
            } else {
                assert(after.uses =~= l.uses);
            }
        },
    }
}

/// Only one thread at a time, the first one in the queue, is at the lock word.
pub proof fn law_one_thread_at_the_front(l: Lock, order: Seq<int>, a: int, b: int)
    requires
        in_order(l, order),
        0 <= a < l.uses.len(),
        0 <= b < l.uses.len(),
        l.uses[a] == Use::Locking(LockPhase::Front),
        l.uses[b] == Use::Locking(LockPhase::Front),
    ensures
        a == b,
        order[0] == a,
{
    let i = lemma_position(l, order, a);
    let j = lemma_position(l, order, b);
    lemma_front_is_first(l, order, i);
    lemma_front_is_first(l, order, j);
}

// What the steps of one thread lead to.
/// A free lock that nobody is queued for is held after the thread's own steps, with nobody
/// queued for it still.
pub proof fn law_a_free_lock_is_taken(s: Shared, node: usize)
    requires
        1 <= node <= s.nodes.len(),
        s.tail == 0,
        !s.locked,
    ensures
        ({
            let (after, phase) = settled(s, node, LockPhase::Prepare);
            &&& phase == LockPhase::Held
            &&& after.locked
            &&& after.tail == 0
            &&& after.nodes.len() == s.nodes.len()
            &&& forall|i: int| 0 <= i < s.nodes.len() && i != node - 1 ==> #[trigger] after.nodes[i]
                == s.nodes[i]
        }),
{
    reveal_with_fuel(settled, 7);
}

/// A thread that comes to a queue is the last in it then, waits, and is known to the one
/// before it. It gets no further by itself, and takes nothing.
pub proof fn law_a_thread_queues_at_the_end(s: Shared, node: usize)
    requires
        1 <= node <= s.nodes.len(),
        1 <= s.tail <= s.nodes.len(),
        s.tail != node,
    ensures
        ({
            let (after, phase) = settled(s, node, LockPhase::Prepare);
            &&& phase == LockPhase::SpinQueue
            &&& after.tail == node
            &&& after.locked == s.locked
            &&& after.nodes[node - 1].waiting
            &&& after.nodes[node - 1].next == 0
            &&& after.nodes[s.tail - 1].next == node
            &&& after.nodes[s.tail - 1].waiting == s.nodes[s.tail - 1].waiting
        }),
{
    reveal_with_fuel(settled, 6);
}

/// The thread at the front takes the lock once it is free. Then it closes the queue where
/// nobody is behind, and lets the one behind to the front where there is one; only where
/// one is on its way in does it wait for that.
pub proof fn law_the_front_takes_the_lock_and_lets_the_next_one_on(
    s: Shared,
    node: usize,
    next: usize,
)
    requires
        1 <= node <= s.nodes.len(),
        1 <= next <= s.nodes.len(),
        next != node,
    ensures
        ({
            let (after, phase) = settled(s, node, LockPhase::Front);
            let own = s.nodes[node - 1];
            &&& after.locked
            &&& s.locked ==> phase == LockPhase::Front && after.tail == s.tail && after.nodes
                == s.nodes
            &&& !s.locked && own.next == 0 && s.tail == node ==> phase == LockPhase::Held
                && after.tail == 0
            &&& !s.locked && own.next == 0 && s.tail != node ==> phase
                == LockPhase::AwaitSuccessor && after.tail == s.tail
            &&& !s.locked && own.next == next ==> phase == LockPhase::Held && after.tail == s.tail
                && !after.nodes[next - 1].waiting && after.nodes[next - 1].next == s.nodes[next
                - 1].next
        }),
{
    reveal_with_fuel(settled, 6);
}

/// A waiting thread comes to the front once its node no longer waits, and one that waits
/// to learn who is behind it goes on once it is told.
pub proof fn law_a_waiting_thread_goes_on_once_it_is_told(s: Shared, node: usize, next: usize)
    requires
        1 <= node <= s.nodes.len(),
        1 <= next <= s.nodes.len(),
        next != node,
    ensures
        s.nodes[node - 1].waiting ==> settled(s, node, LockPhase::SpinQueue) == (
            s,
            LockPhase::SpinQueue,
        ),
        !s.nodes[node - 1].waiting ==> lock_stepped(s, node, LockPhase::SpinQueue) == (
            s,
            LockPhase::Front,
        ),
        s.nodes[node - 1].next == 0 ==> settled(s, node, LockPhase::AwaitSuccessor) == (
            s,
            LockPhase::AwaitSuccessor,
        ),
        s.nodes[node - 1].next == next ==> {
            let (after, phase) = settled(s, node, LockPhase::AwaitSuccessor);
            &&& phase == LockPhase::Held
            &&& !after.nodes[next - 1].waiting
            &&& after.tail == s.tail
            &&& after.locked == s.locked
        },
{
    reveal_with_fuel(settled, 4);
}

/// What a thread shows: that it is about to queue as it sets out, and that it is inside,
/// and no longer about to queue, just once it has the lock.
pub proof fn law_a_thread_shows_where_it_is(word: WordFlags, phase: LockPhase, reached: LockPhase)
    requires
        phase != LockPhase::Held,
    ensures
        ({
            let after = word_after_lock(word, phase, reached);
            &&& reached == LockPhase::Held ==> after.in_critical_section
                && !after.slow_path_pending
            &&& reached != LockPhase::Held ==> after.in_critical_section
                == word.in_critical_section
            &&& reached != LockPhase::Held && phase == LockPhase::Prepare
                ==> after.slow_path_pending
            &&& reached != LockPhase::Held && phase != LockPhase::Prepare
                ==> after.slow_path_pending == word.slow_path_pending
            &&& after.rest == word.rest
        }),
{
}

} // verus!
