//! The MCS queue lock, with a fixed number of queue nodes per thread.
//!
//! Every access that the algorithm makes to memory shared between threads is
//! one step. What holds after any interleaving of the steps of any number of
//! threads is proved of the steps alone: at most one thread is between taking
//! the lock and having handed it over, and the lock goes round in the order in
//! which the threads queued.
use vstd::prelude::*;

verus! {

/// Locks that a thread can hold at a time.
pub const MAX_THREAD_NODES: usize = 4;

/// The node that there is not.
pub const NO_NODE: usize = 0;

/// A queue node: the node queued behind it, and whether its thread still has to
/// wait.
#[derive(Clone, Copy, Debug, PartialEq, Eq, Structural)]
pub struct Node {
    pub next: usize,
    pub locked: bool,
}

pub open spec fn fresh_node(locked: bool) -> Node {
    Node { next: NO_NODE, locked }
}

impl Node {
    pub fn new() -> (r: Self)
        ensures
            r == fresh_node(false),
    {
        Node { next: NO_NODE, locked: false }
    }
}

/// The nodes of all threads. A node goes by its number, the first one by 1.
pub struct NodeMemory {
    pub nodes: Vec<Node>,
}

pub open spec fn is_node(nodes: Seq<Node>, node: usize) -> bool {
    1 <= node <= nodes.len()
}

pub open spec fn node_at(nodes: Seq<Node>, node: usize) -> Node {
    nodes[node - 1]
}

pub open spec fn node_set(nodes: Seq<Node>, node: usize, value: Node) -> Seq<Node> {
    nodes.update(node - 1, value)
}

impl NodeMemory {
    /// Memory for `count` nodes.
    pub fn with_nodes(count: usize) -> (r: Self)
        ensures
            r.nodes@.len() == count,
            forall|i: int| 0 <= i < count ==> #[trigger] r.nodes@[i] == fresh_node(false),
    {
        let mut nodes: Vec<Node> = Vec::new();
        let mut i: usize = 0;
        while i < count
            invariant
                i <= count,
                nodes@.len() == i,
                forall|k: int| 0 <= k < i ==> #[trigger] nodes@[k] == fresh_node(false),
            decreases count - i,
        {
            nodes.push(Node::new());
            i += 1;
        }
        NodeMemory { nodes }
    }

    pub fn get(&self, node: usize) -> (r: Node)
        requires
            is_node(self.nodes@, node),
        ensures
            r == node_at(self.nodes@, node),
    {
        self.nodes[node - 1]
    }

    pub fn put(&mut self, node: usize, value: Node)
        requires
            is_node(old(self).nodes@, node),
        ensures
            final(self).nodes@ == node_set(old(self).nodes@, node, value),
    {
        self.nodes.set(node - 1, value);
    }
}

// The steps.
/// How far a thread got in taking the lock.
#[derive(Clone, Copy, Debug, PartialEq, Eq, Structural)]
pub enum LockPhase {
    /// About to queue its node.
    Enqueue,
    /// Queued behind `pred`, which does not know yet.
    Link { pred: usize },
    /// Waiting for the node before it to hand over.
    Spin,
    /// Holding the lock.
    Held,
}

/// How far a thread got in releasing the lock.
#[derive(Clone, Copy, Debug, PartialEq, Eq, Structural)]
pub enum UnlockPhase {
    /// About to look for a successor.
    ReadNext,
    /// None was seen: about to close the queue.
    CloseTail,
    /// Somebody queued meanwhile: waiting to learn who.
    AwaitSuccessor,
    /// About to hand the lock to `successor`.
    HandOver { successor: usize },
    /// Released.
    Done,
}

/// One step of taking the lock, on the tail of the queue and the nodes.
pub open spec fn lock_stepped(
    tail: usize,
    nodes: Seq<Node>,
    node: usize,
    phase: LockPhase,
) -> (usize, Seq<Node>, LockPhase) {
    match phase {
        LockPhase::Enqueue => (
            node,
            nodes,
            if tail == NO_NODE {
                LockPhase::Held
            } else {
                LockPhase::Link { pred: tail }
            },
        ),
        LockPhase::Link { pred } => (
            tail,
            node_set(nodes, pred, Node { next: node, ..node_at(nodes, pred) }),
            LockPhase::Spin,
        ),
        LockPhase::Spin => (
            tail,
            nodes,
            if node_at(nodes, node).locked {
                LockPhase::Spin
            } else {
                LockPhase::Held
            },
        ),
        LockPhase::Held => (tail, nodes, LockPhase::Held),
    }
}

/// One step of releasing the lock.
pub open spec fn unlock_stepped(
    tail: usize,
    nodes: Seq<Node>,
    node: usize,
    phase: UnlockPhase,
) -> (usize, Seq<Node>, UnlockPhase) {
    let next = node_at(nodes, node).next;
    match phase {
        UnlockPhase::ReadNext => (
            tail,
            nodes,
            if next == NO_NODE {
                UnlockPhase::CloseTail
            } else {
                UnlockPhase::HandOver { successor: next }
            },
        ),
        UnlockPhase::CloseTail => if tail == node {
            (NO_NODE, nodes, UnlockPhase::Done)
        } else {
            (tail, nodes, UnlockPhase::AwaitSuccessor)
        },
        UnlockPhase::AwaitSuccessor => (
            tail,
            nodes,
            if next == NO_NODE {
                UnlockPhase::AwaitSuccessor
            } else {
                UnlockPhase::HandOver { successor: next }
            },
        ),
        UnlockPhase::HandOver { successor } => (
            tail,
            node_set(nodes, successor, Node { locked: false, ..node_at(nodes, successor) }),
            UnlockPhase::Done,
        ),
        UnlockPhase::Done => (tail, nodes, UnlockPhase::Done),
    }
}

/// The lock: where it lives, by which threads tell locks apart, and the last
/// node of its queue.
pub struct McsLockRaw {
    pub address: usize,
    pub tail: usize,
}

impl McsLockRaw {
    pub fn new(address: usize) -> (r: Self)
        ensures
            r.address == address,
            r.tail == NO_NODE,
    {
        McsLockRaw { address, tail: NO_NODE }
    }

    pub fn lock_step(&mut self, memory: &mut NodeMemory, node: usize, phase: LockPhase) -> (r:
        LockPhase)
        requires
            is_node(old(memory).nodes@, node),
            phase matches LockPhase::Link { pred } ==> is_node(old(memory).nodes@, pred),
        ensures
            (final(self).tail, final(memory).nodes@, r) == lock_stepped(
                old(self).tail,
                old(memory).nodes@,
                node,
                phase,
            ),
            final(self).address == old(self).address,
    {
        match phase {
            LockPhase::Enqueue => {
                let pred: usize = self.tail;
                self.tail = node;
                if pred == NO_NODE {
                    LockPhase::Held
                } else {
                    LockPhase::Link { pred }
                }
            },
            LockPhase::Link { pred } => {
                let mut before: Node = memory.get(pred);
                before.next = node;
                memory.put(pred, before);
                LockPhase::Spin
            },
            LockPhase::Spin => if memory.get(node).locked {
                LockPhase::Spin
            } else {
                LockPhase::Held
            },
            LockPhase::Held => LockPhase::Held,
        }
    }

    pub fn unlock_step(&mut self, memory: &mut NodeMemory, node: usize, phase: UnlockPhase) -> (r:
        UnlockPhase)
        requires
            is_node(old(memory).nodes@, node),
            phase matches UnlockPhase::HandOver { successor } ==> is_node(
                old(memory).nodes@,
                successor,
            ),
        ensures
            (final(self).tail, final(memory).nodes@, r) == unlock_stepped(
                old(self).tail,
                old(memory).nodes@,
                node,
                phase,
            ),
            final(self).address == old(self).address,
    {
        match phase {
            UnlockPhase::ReadNext => {
                let next: usize = memory.get(node).next;
                if next == NO_NODE {
                    UnlockPhase::CloseTail
                } else {
                    UnlockPhase::HandOver { successor: next }
                }
            },
            UnlockPhase::CloseTail => if self.tail == node {
                self.tail = NO_NODE;
                UnlockPhase::Done
            } else {
                UnlockPhase::AwaitSuccessor
            },
            UnlockPhase::AwaitSuccessor => {
                let next: usize = memory.get(node).next;
                if next == NO_NODE {
                    UnlockPhase::AwaitSuccessor
                } else {
                    UnlockPhase::HandOver { successor: next }
                }
            },
            UnlockPhase::HandOver { successor } => {
                let mut after: Node = memory.get(successor);
                after.locked = false;
                memory.put(successor, after);
                UnlockPhase::Done
            },
            UnlockPhase::Done => UnlockPhase::Done,
        }
    }
}

// All threads together.
/// What a queue node is being used for.
#[derive(Clone, Copy, Debug, PartialEq, Eq, Structural)]
pub enum Use {
    Idle,
    Locking(LockPhase),
    Unlocking(UnlockPhase),
}

/// The queue of a lock, with what every node is used for. Node `p + 1` is that
/// of `uses[p]`.
pub struct Queue {
    pub tail: usize,
    pub nodes: Seq<Node>,
    pub uses: Seq<Use>,
}

/// What a thread does next.
pub enum Move {
    /// Prepare the node and set out for the lock.
    Begin,
    /// Take the lock if nobody is queued.
    TryLock,
    /// Advance towards the lock.
    Lock,
    /// Set out to release the lock.
    BeginUnlock,
    /// Advance towards having released the lock.
    Unlock,
    /// Give the node back.
    Release,
}

/// The queue after the thread of node `p + 1` made a move. A move that is not
/// the thread's turn changes nothing.
pub open spec fn moved(q: Queue, p: int, m: Move) -> Queue {
    let node = (p + 1) as usize;
    match (m, q.uses[p]) {
        (Move::Begin, Use::Idle) => Queue {
            nodes: node_set(q.nodes, node, fresh_node(true)),
            uses: q.uses.update(p, Use::Locking(LockPhase::Enqueue)),
            ..q
        },
        (Move::TryLock, Use::Idle) => if q.tail == NO_NODE {
            Queue {
                tail: node,
                nodes: node_set(q.nodes, node, fresh_node(false)),
                uses: q.uses.update(p, Use::Locking(LockPhase::Held)),
            }
        } else {
            Queue { nodes: node_set(q.nodes, node, fresh_node(false)), ..q }
        },
        (Move::Lock, Use::Locking(phase)) => {
            let (tail, nodes, next) = lock_stepped(q.tail, q.nodes, node, phase);
            Queue { tail, nodes, uses: q.uses.update(p, Use::Locking(next)) }
        },
        (Move::BeginUnlock, Use::Locking(LockPhase::Held)) => Queue {
            uses: q.uses.update(p, Use::Unlocking(UnlockPhase::ReadNext)),
            ..q
        },
        (Move::Unlock, Use::Unlocking(phase)) => {
            let (tail, nodes, next) = unlock_stepped(q.tail, q.nodes, node, phase);
            Queue { tail, nodes, uses: q.uses.update(p, Use::Unlocking(next)) }
        },
        (Move::Release, Use::Unlocking(UnlockPhase::Done)) => Queue {
            nodes: node_set(q.nodes, node, fresh_node(false)),
            uses: q.uses.update(p, Use::Idle),
            ..q
        },
        _ => q,
    }
}

/// Whether a node is in the queue.
pub open spec fn queued(u: Use) -> bool {
    match u {
        Use::Idle => false,
        Use::Locking(phase) => phase != LockPhase::Enqueue,
        Use::Unlocking(phase) => phase != UnlockPhase::Done,
    }
}

/// Whether a thread has the lock to itself: it holds it, or is on the way to
/// handing it over.
pub open spec fn owns(u: Use) -> bool {
    match u {
        Use::Idle => false,
        Use::Locking(phase) => phase == LockPhase::Held,
        Use::Unlocking(phase) => phase != UnlockPhase::Done,
    }
}

/// The node behind `before` in the order, `p`, waits: it is linked, or about
/// to link itself.
pub open spec fn waits_behind(q: Queue, before: int, p: int) -> bool {
    &&& q.nodes[p].locked
    &&& {
        ||| q.uses[p] == Use::Locking(LockPhase::Link { pred: (before + 1) as usize })
            && q.nodes[before].next == NO_NODE
        ||| q.uses[p] == Use::Locking(LockPhase::Spin) && q.nodes[before].next == p + 1
    }
}

/// The first node in the order owns the lock, or is just being handed it.
pub open spec fn is_first(q: Queue, order: Seq<int>) -> bool {
    let p = order[0];
    match q.uses[p] {
        Use::Idle => false,
        Use::Locking(LockPhase::Held) => true,
        Use::Locking(LockPhase::Spin) => !q.nodes[p].locked,
        Use::Locking(_) => false,
        Use::Unlocking(UnlockPhase::ReadNext) => true,
        Use::Unlocking(UnlockPhase::CloseTail) => true,
        Use::Unlocking(UnlockPhase::AwaitSuccessor) => order.len() >= 2,
        Use::Unlocking(UnlockPhase::HandOver { successor }) => order.len() >= 2 && successor
            == order[1] + 1 && q.nodes[p].next == successor,
        Use::Unlocking(UnlockPhase::Done) => false,
    }
}

/// `order` is the order in which the queued threads came, and every node is as
/// it should be for it.
pub open spec fn in_order(q: Queue, order: Seq<int>) -> bool {
    &&& q.nodes.len() == q.uses.len()
    &&& q.nodes.len() < usize::MAX
    &&& forall|k: int| 0 <= k < order.len() ==> 0 <= #[trigger] order[k] < q.uses.len()
    &&& forall|i: int, j: int|
        0 <= i < j < order.len() ==> #[trigger] order[i] != #[trigger] order[j]
    &&& forall|k: int| 0 <= k < order.len() ==> queued(q.uses[#[trigger] order[k]])
    &&& forall|p: int|
        0 <= p < q.uses.len() && queued(#[trigger] q.uses[p]) ==> order.contains(p)
    &&& q.tail == if order.len() == 0 {
        0
    } else {
        order.last() + 1
    }
    &&& order.len() > 0 ==> is_first(q, order) && q.nodes[order.last()].next == NO_NODE
    &&& forall|j: int, k: int|
        0 <= j && k == j + 1 && k < order.len() ==> waits_behind(
            q,
            #[trigger] order[j],
            #[trigger] order[k],
        )
    &&& forall|p: int|
        0 <= p < q.uses.len() && #[trigger] q.uses[p] == Use::Locking(LockPhase::Enqueue)
            ==> q.nodes[p] == fresh_node(true)
}

/// The order after a move: threads join at the end and leave at the front.
pub open spec fn order_after(q: Queue, order: Seq<int>, p: int, m: Move) -> Seq<int> {
    match (m, q.uses[p]) {
        (Move::TryLock, Use::Idle) => if q.tail == NO_NODE {
            order.push(p)
        } else {
            order
        },
        (Move::Lock, Use::Locking(LockPhase::Enqueue)) => order.push(p),
        (Move::Unlock, Use::Unlocking(UnlockPhase::CloseTail)) => if q.tail == p + 1 {
            order.subrange(1, order.len() as int)
        } else {
            order
        },
        (Move::Unlock, Use::Unlocking(UnlockPhase::HandOver { .. })) => order.subrange(
            1,
            order.len() as int,
        ),
        _ => order,
    }
}

proof fn lemma_position(q: Queue, order: Seq<int>, p: int) -> (k: int)
    requires
        in_order(q, order),
        0 <= p < q.uses.len(),
        queued(q.uses[p]),
    ensures
        0 <= k < order.len(),
        order[k] == p,
{
    assert(order.contains(p));
    choose|k: int| 0 <= k < order.len() && order[k] == p
}

/// A queue that nobody uses is in order.
pub proof fn law_an_unused_queue_is_in_order(q: Queue)
    requires
        q.tail == NO_NODE,
        q.nodes.len() == q.uses.len(),
        q.nodes.len() < usize::MAX,
        forall|p: int| 0 <= p < q.uses.len() ==> #[trigger] q.uses[p] == Use::Idle,
    ensures
        in_order(q, Seq::empty()),
{
}

/// A node that is not in the queue can change without the order noticing.
proof fn lemma_outsider_changes(q: Queue, after: Queue, order: Seq<int>, p: int)
    requires
        in_order(q, order),
        0 <= p < q.uses.len(),
        !queued(q.uses[p]),
        after.tail == q.tail,
        after.nodes == q.nodes.update(p, after.nodes[p]),
        after.uses == q.uses.update(p, after.uses[p]),
        !queued(after.uses[p]),
        after.uses[p] == Use::Locking(LockPhase::Enqueue) ==> after.nodes[p] == fresh_node(true),
    ensures
        in_order(after, order),
{
    assert forall|k: int| 0 <= k < order.len() implies #[trigger] order[k] != p by {
        assert(queued(q.uses[order[k]]));
    }
    assert forall|j: int, k: int| 0 <= j && k == j + 1 && k < order.len() implies waits_behind(
        after,
        #[trigger] order[j],
        #[trigger] order[k],
    ) by {
        assert(waits_behind(q, order[j], order[k]));
        assert(order[j] != p);
    }
    assert forall|r: int| 0 <= r < after.uses.len() && queued(
        #[trigger] after.uses[r],
    ) implies order.contains(r) by {
        assert(queued(q.uses[r]));
    }
    if order.len() > 0 {
        assert(order[0] != p);
        assert(order[order.len() - 1] != p);
    }
}

proof fn lemma_first_joins(q: Queue, after: Queue, order: Seq<int>, p: int)
    requires
        in_order(q, order),
        0 <= p < q.uses.len(),
        order.len() == 0,
        after.tail == p + 1,
        after.nodes == q.nodes.update(p, after.nodes[p]),
        after.nodes[p].next == NO_NODE,
        after.uses == q.uses.update(p, Use::Locking(LockPhase::Held)),
    ensures
        in_order(after, order.push(p)),
{
    let next = order.push(p);
    assert(next[0] == p);
    assert forall|r: int| 0 <= r < after.uses.len() && queued(
        #[trigger] after.uses[r],
    ) implies next.contains(r) by {
        if r != p {
            assert(queued(q.uses[r]));
            assert(order.contains(r));
        }
    }
}

proof fn lemma_another_joins(q: Queue, after: Queue, order: Seq<int>, p: int)
    requires
        in_order(q, order),
        0 <= p < q.uses.len(),
        order.len() > 0,
        q.uses[p] == Use::Locking(LockPhase::Enqueue),
        after.tail == p + 1,
        after.nodes == q.nodes,
        after.uses == q.uses.update(p, Use::Locking(LockPhase::Link { pred: q.tail })),
    ensures
        in_order(after, order.push(p)),
{
    let next = order.push(p);
    let n = order.len() as int;
    assert(q.nodes[p] == fresh_node(true));
    assert forall|k: int| 0 <= k < n implies #[trigger] order[k] != p by {
        assert(queued(q.uses[order[k]]));
    }
    assert forall|i: int, j: int| 0 <= i < j < next.len() implies #[trigger] next[i]
        != #[trigger] next[j] by {
        assert(next[i] == order[i]);
        if j < n {
            assert(next[j] == order[j]);
        }
    }
    assert forall|k: int| 0 <= k < next.len() implies queued(
        after.uses[#[trigger] next[k]],
    ) && 0 <= next[k] < q.uses.len() by {
        if k < n {
            assert(next[k] == order[k]);
            assert(queued(q.uses[order[k]]));
        }
    }
    assert forall|r: int| 0 <= r < after.uses.len() && queued(
        #[trigger] after.uses[r],
    ) implies next.contains(r) by {
        if r != p {
            assert(queued(q.uses[r]));
            let k = lemma_position(q, order, r);
            assert(next[k] == r);
        } else {
            assert(next[n] == p);
        }
    }
    assert forall|j: int, k: int| 0 <= j && k == j + 1 && k < next.len() implies waits_behind(
        after,
        #[trigger] next[j],
        #[trigger] next[k],
    ) by {
        assert(next[j] == order[j]);
        if k < n {
            assert(next[k] == order[k]);
            assert(waits_behind(q, order[j], order[k]));
        }
    }
    assert(next[0] == order[0]);
    assert(order[0] != p);
    if n > 1 {
        assert(next[1] == order[1]);
    }
    assert(is_first(after, next));
}

proof fn lemma_links(q: Queue, after: Queue, order: Seq<int>, k: int)
    requires
        in_order(q, order),
        1 <= k < order.len(),
        q.uses[order[k]] == Use::Locking(LockPhase::Link { pred: (order[k - 1] + 1) as usize }),
        after.tail == q.tail,
        after.nodes == q.nodes.update(
            order[k - 1],
            Node { next: (order[k] + 1) as usize, ..q.nodes[order[k - 1]] },
        ),
        after.uses == q.uses.update(order[k], Use::Locking(LockPhase::Spin)),
    ensures
        in_order(after, order),
{
    let p = order[k];
    assert(waits_behind(q, order[k - 1], order[k]));
    assert(order[k - 1] != order[k]);
    assert forall|i: int, j: int| 0 <= i && j == i + 1 && j < order.len() implies waits_behind(
        after,
        #[trigger] order[i],
        #[trigger] order[j],
    ) by {
        assert(waits_behind(q, order[i], order[j]));
        if j != k {
            assert(order[j] != order[k]);
            assert(order[i] != order[k - 1]);
        }
    }
    assert forall|r: int| 0 <= r < after.uses.len() && queued(
        #[trigger] after.uses[r],
    ) implies order.contains(r) by {
        assert(queued(q.uses[r]));
    }
    assert(order[order.len() - 1] != order[k - 1]);
    assert(order[0] != order[k]);
    if order.len() > 1 {
        assert(waits_behind(q, order[0], order[1]));
    }
    assert(is_first(after, order));
}

proof fn lemma_hands_over(q: Queue, after: Queue, order: Seq<int>, successor: usize)
    requires
        in_order(q, order),
        order.len() >= 2,
        q.uses[order[0]] == Use::Unlocking(UnlockPhase::HandOver { successor }),
        after.tail == q.tail,
        after.nodes == q.nodes.update(
            order[1],
            Node { locked: false, ..q.nodes[order[1]] },
        ),
        after.uses == q.uses.update(order[0], Use::Unlocking(UnlockPhase::Done)),
    ensures
        in_order(after, order.subrange(1, order.len() as int)),
{
    let next = order.subrange(1, order.len() as int);
    assert(waits_behind(q, order[0], order[1]));
    assert(order[0] != order[1]);
    assert forall|i: int, j: int| 0 <= i < j < next.len() implies #[trigger] next[i]
        != #[trigger] next[j] by {
        assert(next[i] == order[i + 1]);
        assert(next[j] == order[j + 1]);
    }
    assert forall|i: int, j: int| 0 <= i && j == i + 1 && j < next.len() implies waits_behind(
        after,
        #[trigger] next[i],
        #[trigger] next[j],
    ) by {
        assert(next[j] == order[j + 1]);
        assert(next[i] == order[i + 1]);
        assert(waits_behind(q, order[i + 1], order[j + 1]));
        assert(order[j + 1] != order[1]);
        assert(order[j + 1] != order[0]);
    }
    assert forall|r: int| 0 <= r < after.uses.len() && queued(
        #[trigger] after.uses[r],
    ) implies next.contains(r) by {
        assert(r != order[0]);
        assert(queued(q.uses[r]));
        let j = lemma_position(q, order, r);
        assert(next[j - 1] == r);
    }
    assert forall|j: int| 0 <= j < next.len() implies queued(
        after.uses[#[trigger] next[j]],
    ) && 0 <= next[j] < q.uses.len() by {
        assert(next[j] == order[j + 1]);
        assert(queued(q.uses[order[j + 1]]));
        assert(order[j + 1] != order[0]);
    }
    assert(next.last() == order[order.len() - 1]);
    assert(next[0] == order[1]);
    assert(is_first(after, next));
}

#[verifier::spinoff_prover]
proof fn lemma_lock_moves(q: Queue, order: Seq<int>, p: int)
    requires
        in_order(q, order),
        0 <= p < q.uses.len(),
        q.uses[p] is Locking,
    ensures
        in_order(moved(q, p, Move::Lock), order_after(q, order, p, Move::Lock)),
{
    let after = moved(q, p, Move::Lock);
    match q.uses[p] {
        Use::Locking(LockPhase::Enqueue) => {
            if order.len() == 0 {
                assert(q.nodes[p] == fresh_node(true));
                assert(after.nodes =~= q.nodes.update(p, after.nodes[p]));
                lemma_first_joins(q, after, order, p);
            } else {
                lemma_another_joins(q, after, order, p);
            }
        },
        Use::Locking(LockPhase::Link { pred }) => {
            let k = lemma_position(q, order, p);
            if k > 0 {
                assert(waits_behind(q, order[k - 1], order[k]));
            }
            lemma_links(q, after, order, k);
        },
        Use::Locking(LockPhase::Spin) => {
            let k = lemma_position(q, order, p);
            if k > 0 {
                assert(waits_behind(q, order[k - 1], order[k]));
                assert(after.uses =~= q.uses);
            } else {
                lemma_only_first_changes(q, after, order);
            }
        },
        _ => {
            assert(after.uses =~= q.uses);
        },
    }
}

#[verifier::spinoff_prover]
proof fn lemma_unlock_moves(q: Queue, order: Seq<int>, p: int)
    requires
        in_order(q, order),
        0 <= p < q.uses.len(),
        q.uses[p] is Unlocking,
        q.uses[p] != Use::Unlocking(UnlockPhase::Done),
    ensures
        in_order(moved(q, p, Move::Unlock), order_after(q, order, p, Move::Unlock)),
{
    let after = moved(q, p, Move::Unlock);
    let k = lemma_position(q, order, p);
    lemma_owner_is_first(q, order, k);
    if order.len() > 1 {
        assert(waits_behind(q, order[0], order[1]));
    }
    match q.uses[p] {
        Use::Unlocking(UnlockPhase::CloseTail) => {
            if q.tail == p + 1 {
                if order.len() > 1 {
                    assert(order[0] != order[order.len() - 1]);
                }
                assert forall|r: int| 0 <= r < after.uses.len() implies !queued(
                    #[trigger] after.uses[r],
                ) by {
                    if r != p && queued(q.uses[r]) {
                        let j = lemma_position(q, order, r);
                    }
                }
            } else {
                lemma_only_first_changes(q, after, order);
            }
        },
        Use::Unlocking(UnlockPhase::HandOver { successor }) => {
            lemma_hands_over(q, after, order, successor);
        },
        _ => {
            lemma_only_first_changes(q, after, order);
        },
    }
}

/// Whatever thread moves, and whatever it does, the queue stays in order.
#[verifier::spinoff_prover]
pub proof fn law_every_move_keeps_the_order(q: Queue, order: Seq<int>, p: int, m: Move)
    requires
        in_order(q, order),
        0 <= p < q.uses.len(),
    ensures
        in_order(moved(q, p, m), order_after(q, order, p, m)),
{
    let after = moved(q, p, m);
    match (m, q.uses[p]) {
        (Move::Begin, Use::Idle) => {
            lemma_outsider_changes(q, after, order, p);
        },
        (Move::TryLock, Use::Idle) => {
            if q.tail == NO_NODE {
                lemma_first_joins(q, after, order, p);
            } else {
                assert(after.uses =~= q.uses.update(p, after.uses[p]));
                lemma_outsider_changes(q, after, order, p);
            }
        },
        (Move::Lock, Use::Locking(_)) => {
            lemma_lock_moves(q, order, p);
        },
        (Move::BeginUnlock, Use::Locking(LockPhase::Held)) => {
            let k = lemma_position(q, order, p);
            lemma_owner_is_first(q, order, k);
            lemma_only_first_changes(q, after, order);
        },
        (Move::Unlock, Use::Unlocking(phase)) => {
            if phase == UnlockPhase::Done {
                assert(after.uses =~= q.uses);
            } else {
                lemma_unlock_moves(q, order, p);
            }
        },
        (Move::Release, Use::Unlocking(UnlockPhase::Done)) => {
            lemma_outsider_changes(q, after, order, p);
        },
        _ => {},
    }
}

/// A thread that owns the lock is the first one.
proof fn lemma_owner_is_first(q: Queue, order: Seq<int>, k: int)
    requires
        in_order(q, order),
        0 <= k < order.len(),
        owns(q.uses[order[k]]),
    ensures
        k == 0,
{
    if k > 0 {
        assert(waits_behind(q, order[k - 1], order[k]));
    }
}

/// Where only the use of the first node changes, and it stays first, the order
/// stays.
proof fn lemma_only_first_changes(q: Queue, after: Queue, order: Seq<int>)
    requires
        in_order(q, order),
        order.len() > 0,
        after.tail == q.tail,
        after.nodes == q.nodes,
        after.uses == q.uses.update(order[0], after.uses[order[0]]),
        queued(after.uses[order[0]]),
        is_first(after, order),
        after.uses[order[0]] != Use::Locking(LockPhase::Enqueue),
    ensures
        in_order(after, order),
{
    assert forall|i: int, j: int| 0 <= i && j == i + 1 && j < order.len() implies waits_behind(
        after,
        #[trigger] order[i],
        #[trigger] order[j],
    ) by {
        assert(waits_behind(q, order[i], order[j]));
        assert(order[j] != order[0]);
    }
    assert forall|r: int| 0 <= r < after.uses.len() && queued(
        #[trigger] after.uses[r],
    ) implies order.contains(r) by {
        if r != order[0] {
            assert(queued(q.uses[r]));
        } else {
            assert(order.contains(order[0]));
        }
    }
}

/// The lock excludes: two threads never own it at once.
pub proof fn law_one_owner_at_a_time(q: Queue, order: Seq<int>, a: int, b: int)
    requires
        in_order(q, order),
        0 <= a < q.uses.len(),
        0 <= b < q.uses.len(),
        owns(q.uses[a]),
        owns(q.uses[b]),
    ensures
        a == b,
{
    let i = lemma_position(q, order, a);
    let j = lemma_position(q, order, b);
    lemma_owner_is_first(q, order, i);
    lemma_owner_is_first(q, order, j);
}

/// The lock is fair: a thread that is ahead of another stays ahead of it until
/// it leaves, and owns the lock only once nobody is ahead of it.
pub proof fn law_threads_are_served_in_order(
    q: Queue,
    order: Seq<int>,
    p: int,
    m: Move,
    i: int,
    j: int,
)
    requires
        in_order(q, order),
        0 <= p < q.uses.len(),
        0 <= i < j < order.len(),
    ensures
        !owns(q.uses[order[j]]),
        ({
            let next = order_after(q, order, p, m);
            ||| i == 0 && next == order.subrange(1, order.len() as int)
            ||| i < next.len() && j < next.len() && next[i] == order[i] && next[j] == order[j]
            ||| i > 0 && next[i - 1] == order[i] && next[j - 1] == order[j]
        }),
{
    if owns(q.uses[order[j]]) {
        lemma_owner_is_first(q, order, j);
    }
}

// The nodes of one thread.
/// Which of a thread's nodes are in use, and for which lock. The thread's nodes
/// are `first_node` and those that follow it.
pub struct ThreadNodes {
    pub first_node: usize,
    pub lock_owners: [usize; MAX_THREAD_NODES],
    pub in_use: [bool; MAX_THREAD_NODES],
    pub depth: usize,
}

/// How many of the first `n` slots are in use.
pub open spec fn used(in_use: Seq<bool>, n: int) -> int
    decreases n,
{
    if n <= 0 {
        0
    } else {
        used(in_use, n - 1) + if in_use[n - 1] {
            1int
        } else {
            0
        }
    }
}

/// The first slot from `from` on that is free.
pub open spec fn first_free(in_use: Seq<bool>, from: int) -> int
    decreases in_use.len() - from,
{
    if from < 0 || from >= in_use.len() {
        in_use.len() as int
    } else if !in_use[from] {
        from
    } else {
        first_free(in_use, from + 1)
    }
}

/// The first slot from `from` on that is in use for the lock at `lock`.
pub open spec fn slot_of(threads: ThreadNodes, lock: usize, from: int) -> int
    decreases MAX_THREAD_NODES - from,
{
    if from < 0 || from >= MAX_THREAD_NODES {
        MAX_THREAD_NODES as int
    } else if threads.in_use@[from] && threads.lock_owners@[from] == lock {
        from
    } else {
        slot_of(threads, lock, from + 1)
    }
}

proof fn lemma_used(in_use: Seq<bool>, n: int)
    requires
        0 <= n <= in_use.len(),
    ensures
        0 <= used(in_use, n) <= n,
        used(in_use, n) < n ==> exists|i: int| 0 <= i < n && !#[trigger] in_use[i],
        forall|i: int| 0 <= i < n && #[trigger] in_use[i] ==> used(in_use, n) > 0,
    decreases n,
{
    if n > 0 {
        lemma_used(in_use, n - 1);
    }
}

proof fn lemma_used_update(in_use: Seq<bool>, slot: int, value: bool, n: int)
    requires
        0 <= slot < in_use.len(),
        0 <= n <= in_use.len(),
        in_use[slot] != value,
    ensures
        used(in_use.update(slot, value), n) == used(in_use, n) + if slot < n {
            if value {
                1int
            } else {
                -1
            }
        } else {
            0
        },
    decreases n,
{
    if n > 0 {
        lemma_used_update(in_use, slot, value, n - 1);
    }
}

proof fn lemma_first_free(in_use: Seq<bool>, from: int)
    requires
        0 <= from <= in_use.len(),
    ensures
        from <= first_free(in_use, from) <= in_use.len(),
        first_free(in_use, from) < in_use.len() ==> !in_use[first_free(in_use, from)],
        forall|i: int| from <= i < first_free(in_use, from) ==> #[trigger] in_use[i],
    decreases in_use.len() - from,
{
    if from < in_use.len() && in_use[from] {
        lemma_first_free(in_use, from + 1);
    }
}

impl ThreadNodes {
    pub open spec fn wf(self) -> bool {
        &&& self.depth == used(self.in_use@, MAX_THREAD_NODES as int)
        &&& 1 <= self.first_node
        &&& self.first_node <= usize::MAX - MAX_THREAD_NODES
    }

    /// Whether the thread's nodes are among those of `nodes`.
    pub open spec fn fits(self, nodes: Seq<Node>) -> bool {
        self.first_node + MAX_THREAD_NODES <= nodes.len() + 1
    }

    /// Whether the thread has a node in use for the lock at `lock`.
    pub open spec fn holds(self, lock: usize) -> bool {
        slot_of(self, lock, 0) < MAX_THREAD_NODES
    }

    pub fn new(first_node: usize) -> (r: Self)
        requires
            1 <= first_node <= usize::MAX - MAX_THREAD_NODES,
        ensures
            r.wf(),
            r.first_node == first_node,
            r.depth == 0,
            forall|i: int| 0 <= i < MAX_THREAD_NODES ==> !#[trigger] r.in_use@[i],
            forall|i: int| 0 <= i < MAX_THREAD_NODES ==> #[trigger] r.lock_owners@[i] == 0,
    {
        let in_use: [bool; MAX_THREAD_NODES] = [false;MAX_THREAD_NODES];
        proof {
            reveal_with_fuel(used, 5);
        }
        ThreadNodes {
            first_node,
            lock_owners: [0;MAX_THREAD_NODES],
            in_use,
            depth: 0,
        }
    }

    /// Takes the first free node for the lock at `lock`.
    pub fn acquire_thread_node(&mut self, lock: usize) -> (r: usize)
        requires
            old(self).wf(),
            old(self).depth < MAX_THREAD_NODES,
        ensures
            final(self).wf(),
            r == first_free(old(self).in_use@, 0),
            r < MAX_THREAD_NODES,
            final(self).in_use@ == old(self).in_use@.update(r as int, true),
            final(self).lock_owners@ == old(self).lock_owners@.update(r as int, lock),
            final(self).depth == old(self).depth + 1,
            final(self).first_node == old(self).first_node,
    {
        let mut slot: usize = 0;
        proof {
            lemma_used(self.in_use@, MAX_THREAD_NODES as int);
            lemma_first_free(self.in_use@, 0);
        }
        while slot < MAX_THREAD_NODES && self.in_use[slot]
            invariant
                slot <= MAX_THREAD_NODES,
                first_free(self.in_use@, 0) == first_free(self.in_use@, slot as int),
            decreases MAX_THREAD_NODES - slot,
        {
            slot += 1;
        }
        proof {
            lemma_used_update(self.in_use@, slot as int, true, MAX_THREAD_NODES as int);
        }
        self.in_use[slot] = true;
        self.lock_owners[slot] = lock;
        self.depth += 1;
        slot
    }

    /// The slot that is in use for the lock at `lock`.
    pub fn locked_thread_node(&self, lock: usize) -> (r: usize)
        requires
            self.holds(lock),
        ensures
            r == slot_of(*self, lock, 0),
            r < MAX_THREAD_NODES,
            self.in_use@[r as int],
            self.lock_owners@[r as int] == lock,
    {
        let mut slot: usize = 0;
        while slot < MAX_THREAD_NODES && !(self.in_use[slot] && self.lock_owners[slot] == lock)
            invariant
                slot <= MAX_THREAD_NODES,
                slot_of(*self, lock, 0) == slot_of(*self, lock, slot as int),
                slot_of(*self, lock, 0) < MAX_THREAD_NODES,
            decreases MAX_THREAD_NODES - slot,
        {
            slot += 1;
        }
        slot
    }

    /// Gives a node back.
    pub fn release_thread_node(&mut self, slot: usize)
        requires
            old(self).wf(),
            slot < MAX_THREAD_NODES,
            old(self).in_use@[slot as int],
        ensures
            final(self).wf(),
            final(self).in_use@ == old(self).in_use@.update(slot as int, false),
            final(self).lock_owners@ == old(self).lock_owners@.update(slot as int, 0),
            final(self).depth == old(self).depth - 1,
            final(self).first_node == old(self).first_node,
    {
        proof {
            lemma_used(self.in_use@, MAX_THREAD_NODES as int);
            lemma_used_update(self.in_use@, slot as int, false, MAX_THREAD_NODES as int);
        }
        self.in_use[slot] = false;
        self.lock_owners[slot] = 0;
        self.depth -= 1;
    }
}

impl McsLockRaw {
    /// Queues for the lock with a free node of the thread, up to where the
    /// lock is held or the node before has to hand over first.
    pub fn lock(&mut self, memory: &mut NodeMemory, thread: &mut ThreadNodes) -> (r: (
        usize,
        LockPhase,
    ))
        requires
            old(thread).wf(),
            old(thread).fits(old(memory).nodes@),
            old(thread).depth < MAX_THREAD_NODES,
            old(self).tail == NO_NODE || is_node(old(memory).nodes@, old(self).tail),
        ensures
            final(thread).wf(),
            final(thread).first_node == old(thread).first_node,
            final(thread).depth == old(thread).depth + 1,
            ({
                let slot = first_free(old(thread).in_use@, 0);
                &&& final(thread).in_use@ == old(thread).in_use@.update(slot, true)
                &&& final(thread).lock_owners@ == old(thread).lock_owners@.update(
                    slot,
                    old(self).address,
                )
                &&& r.0 == old(thread).first_node + slot
            }),
            final(self).address == old(self).address,
            final(self).tail == r.0,
            r.1 == if old(self).tail == NO_NODE {
                LockPhase::Held
            } else {
                LockPhase::Spin
            },
            ({
                let prepared = node_set(old(memory).nodes@, r.0, fresh_node(true));
                final(memory).nodes@ == if old(self).tail == NO_NODE {
                    prepared
                } else {
                    node_set(
                        prepared,
                        old(self).tail,
                        Node { next: r.0, ..node_at(prepared, old(self).tail) },
                    )
                }
            }),
    {
        proof {
            lemma_used(thread.in_use@, MAX_THREAD_NODES as int);
            lemma_first_free(thread.in_use@, 0);
        }
        let slot: usize = thread.acquire_thread_node(self.address);
        let node: usize = thread.first_node + slot;
        memory.put(node, Node { next: NO_NODE, locked: true });
        let phase: LockPhase = self.lock_step(memory, node, LockPhase::Enqueue);
        let phase: LockPhase = match phase {
            LockPhase::Link { pred } => self.lock_step(memory, node, LockPhase::Link { pred }),
            other => other,
        };
        (node, phase)
    }

    /// Takes the lock if nobody is queued for it. A thread that has no node
    /// left does not get it either.
    pub fn try_lock(&mut self, memory: &mut NodeMemory, thread: &mut ThreadNodes) -> (r: bool)
        requires
            old(thread).wf(),
            old(thread).fits(old(memory).nodes@),
        ensures
            final(thread).wf(),
            final(thread).first_node == old(thread).first_node,
            final(self).address == old(self).address,
            r == (old(self).tail == NO_NODE && old(thread).depth < MAX_THREAD_NODES),
            r ==> {
                let slot = first_free(old(thread).in_use@, 0);
                &&& final(self).tail != NO_NODE
                &&& final(self).tail == old(thread).first_node + slot
                &&& final(thread).in_use@ == old(thread).in_use@.update(slot, true)
                &&& final(thread).lock_owners@ == old(thread).lock_owners@.update(
                    slot,
                    old(self).address,
                )
                &&& final(thread).depth == old(thread).depth + 1
                &&& final(memory).nodes@ == node_set(
                    old(memory).nodes@,
                    final(self).tail,
                    fresh_node(false),
                )
            },
            !r ==> {
                &&& final(self).tail == old(self).tail
                &&& final(thread).in_use@ == old(thread).in_use@
                &&& final(thread).depth == old(thread).depth
            },
            !r && old(thread).depth == MAX_THREAD_NODES ==> {
                &&& *final(thread) == *old(thread)
                &&& final(memory).nodes@ == old(memory).nodes@
            },
            !r && old(thread).depth < MAX_THREAD_NODES ==> {
                // The node that was tried with is fresh, and no lock's again.
                let slot = first_free(old(thread).in_use@, 0);
                &&& final(thread).lock_owners@ == old(thread).lock_owners@.update(slot, 0)
                &&& final(memory).nodes@ == node_set(
                    old(memory).nodes@,
                    (old(thread).first_node + slot) as usize,
                    fresh_node(false),
                )
            },
    {
        if thread.depth == MAX_THREAD_NODES {
            return false;
        }
        let ghost before = thread.in_use@;
        let ghost owners = thread.lock_owners@;
        proof {
            lemma_used(thread.in_use@, MAX_THREAD_NODES as int);
            lemma_first_free(thread.in_use@, 0);
        }
        let slot: usize = thread.acquire_thread_node(self.address);
        let node: usize = thread.first_node + slot;
        memory.put(node, Node { next: NO_NODE, locked: false });
        if self.tail == NO_NODE {
            self.tail = node;
            true
        } else {
            thread.release_thread_node(slot);
            assert(thread.in_use@ =~= before);
            assert(thread.lock_owners@ =~= owners.update(slot as int, 0));
            false
        }
    }

    /// Releases the lock, up to where it is released or the successor is not
    /// known yet.
    pub fn unlock(&mut self, memory: &mut NodeMemory, thread: &mut ThreadNodes) -> (r: (
        usize,
        UnlockPhase,
    ))
        requires
            old(thread).wf(),
            old(thread).fits(old(memory).nodes@),
            old(thread).holds(old(self).address),
            ({
                let node = (old(thread).first_node + slot_of(
                    *old(thread),
                    old(self).address,
                    0,
                )) as usize;
                let next = node_at(old(memory).nodes@, node).next;
                next == NO_NODE || is_node(old(memory).nodes@, next)
            }),
        ensures
            final(thread).wf(),
            final(thread).first_node == old(thread).first_node,
            final(self).address == old(self).address,
            ({
                let slot = slot_of(*old(thread), old(self).address, 0);
                let node = (old(thread).first_node + slot) as usize;
                let nodes = old(memory).nodes@;
                let next = node_at(nodes, node).next;
                &&& r.0 == node
                &&& r.1 == if next == NO_NODE && old(self).tail != node {
                    UnlockPhase::AwaitSuccessor
                } else {
                    UnlockPhase::Done
                }
                &&& final(self).tail == if next == NO_NODE && old(self).tail == node {
                    NO_NODE
                } else {
                    old(self).tail
                }
                &&& final(memory).nodes@ == released_nodes(nodes, node, next, r.1)
                &&& final(thread).in_use@ == if r.1 == UnlockPhase::Done {
                    old(thread).in_use@.update(slot, false)
                } else {
                    old(thread).in_use@
                }
                &&& final(thread).lock_owners@ == if r.1 == UnlockPhase::Done {
                    old(thread).lock_owners@.update(slot, 0)
                } else {
                    old(thread).lock_owners@
                }
                &&& final(thread).depth == if r.1 == UnlockPhase::Done {
                    old(thread).depth - 1
                } else {
                    old(thread).depth as int
                }
            }),
    {
        let slot: usize = thread.locked_thread_node(self.address);
        let node: usize = thread.first_node + slot;
        let mut phase: UnlockPhase = self.unlock_step(memory, node, UnlockPhase::ReadNext);
        if phase == UnlockPhase::CloseTail {
            phase = self.unlock_step(memory, node, phase);
        }
        self.finish_unlock(memory, thread, node, slot, phase)
    }

    /// Goes on with a release that waits for the successor to be known.
    pub fn unlock_await(&mut self, memory: &mut NodeMemory, thread: &mut ThreadNodes) -> (r: (
        usize,
        UnlockPhase,
    ))
        requires
            old(thread).wf(),
            old(thread).fits(old(memory).nodes@),
            old(thread).holds(old(self).address),
            ({
                let node = (old(thread).first_node + slot_of(
                    *old(thread),
                    old(self).address,
                    0,
                )) as usize;
                let next = node_at(old(memory).nodes@, node).next;
                next == NO_NODE || is_node(old(memory).nodes@, next)
            }),
        ensures
            final(thread).wf(),
            final(thread).first_node == old(thread).first_node,
            *final(self) == *old(self),
            ({
                let slot = slot_of(*old(thread), old(self).address, 0);
                let node = (old(thread).first_node + slot) as usize;
                let nodes = old(memory).nodes@;
                let next = node_at(nodes, node).next;
                &&& r.0 == node
                &&& r.1 == if next == NO_NODE {
                    UnlockPhase::AwaitSuccessor
                } else {
                    UnlockPhase::Done
                }
                &&& final(memory).nodes@ == released_nodes(nodes, node, next, r.1)
                &&& final(thread).in_use@ == if r.1 == UnlockPhase::Done {
                    old(thread).in_use@.update(slot, false)
                } else {
                    old(thread).in_use@
                }
                &&& final(thread).lock_owners@ == if r.1 == UnlockPhase::Done {
                    old(thread).lock_owners@.update(slot, 0)
                } else {
                    old(thread).lock_owners@
                }
                &&& final(thread).depth == if r.1 == UnlockPhase::Done {
                    old(thread).depth - 1
                } else {
                    old(thread).depth as int
                }
            }),
    {
        let slot: usize = thread.locked_thread_node(self.address);
        let node: usize = thread.first_node + slot;
        let phase: UnlockPhase = self.unlock_step(memory, node, UnlockPhase::AwaitSuccessor);
        self.finish_unlock(memory, thread, node, slot, phase)
    }

    fn finish_unlock(
        &mut self,
        memory: &mut NodeMemory,
        thread: &mut ThreadNodes,
        node: usize,
        slot: usize,
        phase: UnlockPhase,
    ) -> (r: (usize, UnlockPhase))
        requires
            old(thread).wf(),
            slot < MAX_THREAD_NODES,
            old(thread).in_use@[slot as int],
            is_node(old(memory).nodes@, node),
            match phase {
                UnlockPhase::HandOver { successor } => is_node(old(memory).nodes@, successor),
                UnlockPhase::AwaitSuccessor => true,
                UnlockPhase::Done => true,
                _ => false,
            },
        ensures
            final(thread).wf(),
            final(thread).first_node == old(thread).first_node,
            *final(self) == *old(self),
            r.0 == node,
            r.1 == if phase == UnlockPhase::AwaitSuccessor {
                UnlockPhase::AwaitSuccessor
            } else {
                UnlockPhase::Done
            },
            final(memory).nodes@ == match phase {
                UnlockPhase::HandOver { successor } => released_nodes(
                    old(memory).nodes@,
                    node,
                    successor,
                    UnlockPhase::Done,
                ),
                UnlockPhase::Done => node_set(old(memory).nodes@, node, fresh_node(false)),
                _ => old(memory).nodes@,
            },
            final(thread).in_use@ == if r.1 == UnlockPhase::Done {
                old(thread).in_use@.update(slot as int, false)
            } else {
                old(thread).in_use@
            },
            final(thread).lock_owners@ == if r.1 == UnlockPhase::Done {
                old(thread).lock_owners@.update(slot as int, 0)
            } else {
                old(thread).lock_owners@
            },
            final(thread).depth == if r.1 == UnlockPhase::Done {
                old(thread).depth - 1
            } else {
                old(thread).depth as int
            },
    {
        match phase {
            UnlockPhase::HandOver { successor } => {
                let _done: UnlockPhase = self.unlock_step(
                    memory,
                    node,
                    UnlockPhase::HandOver { successor },
                );
            },
            UnlockPhase::AwaitSuccessor => {
                return (node, phase);
            },
            _ => {},
        }
        memory.put(node, Node { next: NO_NODE, locked: false });
        thread.release_thread_node(slot);
        (node, UnlockPhase::Done)
    }
}

/// The nodes once a release got as far as `phase`: the successor, if there is
/// one, no longer waits, and the thread's own node is fresh again.
pub open spec fn released_nodes(
    nodes: Seq<Node>,
    node: usize,
    next: usize,
    phase: UnlockPhase,
) -> Seq<Node> {
    if phase != UnlockPhase::Done {
        nodes
    } else {
        let handed = if next == NO_NODE {
            nodes
        } else {
            node_set(nodes, next, Node { locked: false, ..node_at(nodes, next) })
        };
        node_set(handed, node, fresh_node(false))
    }
}

// What the steps of one thread lead to.
/// A thread that finds nobody queued has the lock at once. Any other one lets the last in
/// the queue know of itself, and then waits.
pub proof fn law_a_thread_queues_at_the_end(tail: usize, nodes: Seq<Node>, node: usize)
    requires
        1 <= node <= nodes.len(),
        tail <= nodes.len(),
        tail != node,
    ensures
        ({
            let (joined, same, phase) = lock_stepped(tail, nodes, node, LockPhase::Enqueue);
            &&& joined == node
            &&& same == nodes
            &&& tail == 0 ==> phase == LockPhase::Held
            &&& tail != 0 ==> {
                let (last, linked, waiting) = lock_stepped(joined, nodes, node, phase);
                &&& last == node
                &&& waiting == LockPhase::Spin
                &&& linked[tail - 1].next == node
                &&& linked[tail - 1].locked == nodes[tail - 1].locked
                &&& linked.len() == nodes.len()
                &&& forall|i: int| 0 <= i < nodes.len() && i != tail - 1 ==> #[trigger] linked[i]
                    == nodes[i]
            }
        }),
{
}

/// A thread waits just as long as its node is locked, and has the lock then.
pub proof fn law_a_waiting_thread_has_the_lock_once_its_node_is_free(
    tail: usize,
    nodes: Seq<Node>,
    node: usize,
)
    requires
        1 <= node <= nodes.len(),
    ensures
        nodes[node - 1].locked ==> lock_stepped(tail, nodes, node, LockPhase::Spin) == (
            tail,
            nodes,
            LockPhase::Spin,
        ),
        !nodes[node - 1].locked ==> lock_stepped(tail, nodes, node, LockPhase::Spin) == (
            tail,
            nodes,
            LockPhase::Held,
        ),
{
}

/// A release with nobody behind leaves an empty queue. With a thread behind, that one's
/// node is free then, so that its next step has the lock. Where one is on its way into
/// the queue, the release waits until it knows which, and hands over to it.
pub proof fn law_a_release_hands_over(tail: usize, nodes: Seq<Node>, node: usize, next: usize)
    requires
        1 <= node <= nodes.len(),
        1 <= next <= nodes.len(),
        next != node,
    ensures
        nodes[node - 1].next == 0 && tail == node ==> {
            let (t1, n1, p1) = unlock_stepped(tail, nodes, node, UnlockPhase::ReadNext);
            unlock_stepped(t1, n1, node, p1) == (0usize, nodes, UnlockPhase::Done)
        },
        nodes[node - 1].next == 0 && tail != node ==> {
            let (t1, n1, p1) = unlock_stepped(tail, nodes, node, UnlockPhase::ReadNext);
            let (t2, n2, p2) = unlock_stepped(t1, n1, node, p1);
            &&& (t2, n2) == (tail, nodes)
            &&& p2 == UnlockPhase::AwaitSuccessor
            &&& unlock_stepped(tail, nodes, node, p2) == (tail, nodes, p2)
        },
        nodes[node - 1].next == next ==> {
            let (t1, n1, p1) = unlock_stepped(tail, nodes, node, UnlockPhase::ReadNext);
            let (t2, n2, p2) = unlock_stepped(t1, n1, node, p1);
            &&& unlock_stepped(tail, nodes, node, UnlockPhase::AwaitSuccessor) == (t1, n1, p1)
            &&& t2 == tail
            &&& p2 == UnlockPhase::Done
            &&& !n2[next - 1].locked
            &&& n2[next - 1].next == nodes[next - 1].next
            &&& lock_stepped(t2, n2, next, LockPhase::Spin).2 == LockPhase::Held
            &&& forall|i: int| 0 <= i < nodes.len() && i != next - 1 ==> #[trigger] n2[i]
                == nodes[i]
        },
{
}

/// A finished release has freed the node behind and made the thread's own fresh; one that
/// is not finished has changed no node.
pub proof fn law_a_finished_release_frees_the_node_behind(
    nodes: Seq<Node>,
    node: usize,
    next: usize,
)
    requires
        1 <= node <= nodes.len(),
        next <= nodes.len(),
        next != node,
    ensures
        ({
            let after = released_nodes(nodes, node, next, UnlockPhase::Done);
            &&& after.len() == nodes.len()
            &&& after[node - 1].next == 0 && !after[node - 1].locked
            &&& next != 0 ==> !after[next - 1].locked && after[next - 1].next == nodes[next
                - 1].next
            &&& forall|i: int|
                0 <= i < nodes.len() && i != node - 1 && i != next - 1 ==> #[trigger] after[i]
                    == nodes[i]
        }),
        released_nodes(nodes, node, next, UnlockPhase::AwaitSuccessor) == nodes,
{
}

/// A thread's nodes are found by their lock: the first one that is in use for it, and none
/// just where there is none.
pub proof fn law_a_node_is_found_by_its_lock(threads: ThreadNodes, lock: usize, from: int)
    requires
        0 <= from <= MAX_THREAD_NODES,
    ensures
        ({
            let slot = slot_of(threads, lock, from);
            &&& from <= slot <= MAX_THREAD_NODES
            &&& slot < MAX_THREAD_NODES ==> threads.in_use@[slot] && threads.lock_owners@[slot]
                == lock
            &&& forall|i: int|
                from <= i < slot ==> !(#[trigger] threads.in_use@[i] && threads.lock_owners@[i]
                    == lock)
        }),
    decreases MAX_THREAD_NODES - from,
{
    if from < MAX_THREAD_NODES && !(threads.in_use@[from] && threads.lock_owners@[from] == lock) {
        law_a_node_is_found_by_its_lock(threads, lock, from + 1);
    }
}

} // verus!
