//! A futex condition variable.
//!
//! The module has the wait protocol: the accounting of waiters, the sleep loop,
//! and what a waiter shows the scheduler while its mutex is released. The mutex
//! itself, the sleeping and the waking are the caller's, which is told what to do
//! and reports back.
//!
//! A broadcast either wakes its waiters or moves them to the staging of the mutex
//! that they will take again. There they stay parked until unlocks of that mutex
//! release them one at a time. A signal always wakes.
use vstd::prelude::*;

use crate::accordin_shared::mutex_hook;
use crate::accordin_shared::mutex_hook::HookCounters;
use crate::errno::{EAGAIN, EINTR, ETIMEDOUT};
use crate::text;

verus! {

/// How often moving the waiters of a broadcast is tried, before they are woken.
pub const REQUEUE_ATTEMPTS: u32 = 3;

// Switches.
/// What a run chose.
#[derive(Clone, Copy, Debug, PartialEq, Eq, Structural)]
pub struct CvSwitches {
    /// A waiter leaves a hint for its re-acquisition.
    pub hint: bool,
    /// A waiter hands its wakeup to the scheduler.
    pub route: bool,
    /// A broadcast moves its waiters.
    pub requeue: bool,
    /// Some thread may have decided about that for itself.
    pub requeue_overridden: bool,
    /// What this thread decided.
    pub requeue_forced: Option<bool>,
}

pub open spec fn truthy(value: Option<&str>) -> bool {
    value matches Some(value) && text::is_truthy(value@)
}

/// The switches from the environment: one that disables the hint, and those of
/// routing and of moving waiters.
pub fn cv_switches(disable_hint: Option<&str>, route: Option<&str>, requeue: Option<&str>) -> (r:
    CvSwitches)
    ensures
        r == (CvSwitches {
            hint: !truthy(disable_hint),
            route: truthy(route),
            requeue: truthy(requeue),
            requeue_overridden: false,
            requeue_forced: None,
        }),
{
    CvSwitches {
        hint: !text::flag(disable_hint),
        route: text::flag(route),
        requeue: text::flag(requeue),
        requeue_overridden: false,
        requeue_forced: None,
    }
}

impl CvSwitches {
    /// Whether a broadcast of this thread moves its waiters.
    pub open spec fn requeues(self) -> bool {
        if self.requeue_overridden && self.requeue_forced is Some {
            self.requeue_forced->0
        } else {
            self.requeue
        }
    }

    /// Whether any broadcast of the process can.
    pub open spec fn may_requeue(self) -> bool {
        self.requeue || self.requeue_overridden
    }

    pub fn cv_requeue_enabled(&self) -> (r: bool)
        ensures
            r == self.requeues(),
    {
        if !self.requeue_overridden {
            return self.requeue;
        }
        match self.requeue_forced {
            Some(forced) => forced,
            None => self.requeue,
        }
    }

    pub fn cv_requeue_possible(&self) -> (r: bool)
        ensures
            r == self.may_requeue(),
    {
        self.requeue || self.requeue_overridden
    }
}

/// Decides for this thread whether its broadcasts move their waiters.
pub fn force_cv_requeue_for_thread(switches: &mut CvSwitches, forced: Option<bool>)
    ensures
        *final(switches) == decided(*old(switches), forced),
        final(switches).requeues() == if forced is Some {
            forced->0
        } else {
            old(switches).requeue
        },
{
    announce_cv_requeue_override(switches);
    switches.requeue_forced = forced;
}

/// Announces that some thread may turn moving on, without deciding for any.
pub fn announce_cv_requeue_override(switches: &mut CvSwitches)
    ensures
        *final(switches) == announced(*old(switches)),
        final(switches).may_requeue(),
{
    switches.requeue_overridden = true;
}

/// A thread whose broadcasts move their waiters belongs to a process that can.
pub proof fn law_requeueing_is_announced(switches: CvSwitches)
    ensures
        switches.requeues() ==> switches.may_requeue(),
{
}

/// What threads of one process have of the switches: the run's choices and the
/// announcement are the same for all, and a thread decides only after announcing.
pub open spec fn one_process(threads: Seq<CvSwitches>) -> bool {
    &&& forall|i: int, j: int|
        0 <= i < threads.len() && 0 <= j < threads.len() ==> (#[trigger] threads[i]).requeue == (
        #[trigger] threads[j]).requeue && threads[i].requeue_overridden
            == threads[j].requeue_overridden && threads[i].hint == threads[j].hint
            && threads[i].route == threads[j].route
    &&& forall|i: int|
        0 <= i < threads.len() && (#[trigger] threads[i]).requeue_forced is Some
            ==> threads[i].requeue_overridden
}

/// A thread's switches once some thread announced a decision.
pub open spec fn announced(switches: CvSwitches) -> CvSwitches {
    CvSwitches { requeue_overridden: true, ..switches }
}

/// A thread's switches once it decided for itself.
pub open spec fn decided(switches: CvSwitches, forced: Option<bool>) -> CvSwitches {
    CvSwitches { requeue_overridden: true, requeue_forced: forced, ..switches }
}

/// The threads after the one at `thread` decided: its decision is its own, and its
/// announcement everybody's.
pub open spec fn decided_by(
    threads: Seq<CvSwitches>,
    thread: int,
    forced: Option<bool>,
) -> Seq<CvSwitches> {
    Seq::new(
        threads.len(),
        |i: int|
            if i == thread {
                decided(threads[i], forced)
            } else {
                announced(threads[i])
            },
    )
}

/// The threads after a row of decisions, each with the thread that made it.
pub open spec fn decided_in_turn(
    threads: Seq<CvSwitches>,
    decisions: Seq<(int, Option<bool>)>,
) -> Seq<CvSwitches>
    decreases decisions.len(),
{
    if decisions.len() == 0 {
        threads
    } else {
        let (thread, forced) = decisions.last();
        decided_by(decided_in_turn(threads, decisions.drop_last()), thread, forced)
    }
}

/// What a thread decided last, or what it had decided before.
pub open spec fn last_decision(
    before: Option<bool>,
    decisions: Seq<(int, Option<bool>)>,
    thread: int,
) -> Option<bool>
    decreases decisions.len(),
{
    if decisions.len() == 0 {
        before
    } else if decisions.last().0 == thread {
        decisions.last().1
    } else {
        last_decision(before, decisions.drop_last(), thread)
    }
}

/// A thread that decides whether its broadcasts move their waiters decides for itself
/// alone: the others go on as before. From then on moving is possible for all.
pub proof fn law_a_thread_decides_for_itself(
    threads: Seq<CvSwitches>,
    thread: int,
    forced: Option<bool>,
)
    requires
        one_process(threads),
        0 <= thread < threads.len(),
    ensures
        ({
            let after = decided_by(threads, thread, forced);
            &&& one_process(after)
            &&& after[thread].requeues() == (if forced is Some {
                forced->0
            } else {
                threads[thread].requeue
            })
            &&& forall|i: int|
                0 <= i < threads.len() && i != thread ==> (#[trigger] after[i]).requeues()
                    == threads[i].requeues()
            &&& forall|i: int| 0 <= i < threads.len() ==> (#[trigger] after[i]).may_requeue()
        }),
{
    let after = decided_by(threads, thread, forced);
    assert forall|i: int| 0 <= i < threads.len() && i != thread implies (
    #[trigger] after[i]).requeues() == threads[i].requeues() by {
        assert(threads[i].requeue_forced is Some ==> threads[i].requeue_overridden);
    }
    assert forall|i: int, j: int| 0 <= i < after.len() && 0 <= j < after.len() implies (
    #[trigger] after[i]).requeue == (#[trigger] after[j]).requeue && after[i].requeue_overridden
        == after[j].requeue_overridden && after[i].hint == after[j].hint && after[i].route
        == after[j].route by {
        assert(threads[i].requeue == threads[j].requeue);
    }
}

/// After any row of decisions each thread goes by its own last one, and by the run's
/// choice where that was to decide nothing. Moving stays possible for all, also after
/// decisions were taken back.
pub proof fn law_decisions_last_until_the_next(
    threads: Seq<CvSwitches>,
    decisions: Seq<(int, Option<bool>)>,
)
    requires
        one_process(threads),
        forall|k: int|
            0 <= k < decisions.len() ==> 0 <= (#[trigger] decisions[k]).0 < threads.len(),
    ensures
        ({
            let after = decided_in_turn(threads, decisions);
            &&& after.len() == threads.len()
            &&& one_process(after)
            &&& forall|i: int|
                0 <= i < threads.len() ==> {
                    let last = last_decision(threads[i].requeue_forced, decisions, i);
                    &&& (#[trigger] after[i]).requeue_forced == last
                    &&& after[i].requeue == threads[i].requeue
                    &&& after[i].requeues() == if last is Some {
                        last->0
                    } else {
                        threads[i].requeue
                    }
                    &&& decisions.len() > 0 ==> after[i].may_requeue()
                }
        }),
    decreases decisions.len(),
{
    if decisions.len() > 0 {
        let before = decisions.drop_last();
        let (thread, forced) = decisions.last();
        assert(decisions[decisions.len() - 1] == decisions.last());
        assert forall|k: int| 0 <= k < before.len() implies 0 <= (#[trigger] before[k]).0
            < threads.len() by {
            assert(before[k] == decisions[k]);
        }
        law_decisions_last_until_the_next(threads, before);
        law_a_thread_decides_for_itself(decided_in_turn(threads, before), thread, forced);
        let middle = decided_in_turn(threads, before);
        let after = decided_in_turn(threads, decisions);
        assert forall|i: int| 0 <= i < threads.len() implies ({
            let last = last_decision(threads[i].requeue_forced, decisions, i);
            &&& (#[trigger] after[i]).requeue_forced == last
            &&& after[i].requeue == threads[i].requeue
            &&& after[i].requeues() == if last is Some {
                last->0
            } else {
                threads[i].requeue
            }
            &&& after[i].may_requeue()
        }) by {
            assert(middle[i].requeue_forced == last_decision(
                threads[i].requeue_forced,
                before,
                i,
            ));
        }
    } else {
        assert forall|i: int| 0 <= i < threads.len() implies (#[trigger] threads[i]).requeues()
            == (if threads[i].requeue_forced is Some {
            threads[i].requeue_forced->0
        } else {
            threads[i].requeue
        }) by {}
    }
}

/// Takes one release out of a counter of releases still owed, and reports whether
/// this call took it. A release that is not there is never handed out.
pub fn claim_one(counter: &mut u32) -> (r: bool)
    ensures
        r == (*old(counter) != 0),
        *final(counter) == if r {
            (*old(counter) - 1) as u32
        } else {
            0
        },
{
    if *counter == 0 {
        return false;
    }
    *counter = *counter - 1;
    true
}

// Staging.
/// Where a broadcast parks waiters, one block per lock.
///
/// The block is shared: the lock owns it, and so does every cond whose waits
/// release that lock, so that a cond may outlive its mutex.
#[derive(Clone, Copy, Debug, PartialEq, Eq, Structural)]
pub struct CondStagingBlock {
    /// Waiters parked here that no unlock has released yet.
    pub staged: u32,
    /// Whether the lock still exists.
    pub alive: bool,
    /// How many own the block.
    pub references: usize,
}

pub open spec fn retired_block() -> CondStagingBlock {
    CondStagingBlock { staged: 0, alive: false, references: 0 }
}

impl CondStagingBlock {
    /// A block with one owner.
    pub fn new() -> (r: Self)
        ensures
            r == (CondStagingBlock { staged: 0, alive: true, references: 1 }),
    {
        CondStagingBlock { staged: 0, alive: true, references: 1 }
    }

    /// The block that every destroyed lock names: it parks nothing and nobody
    /// has to own it.
    pub fn retired() -> (r: Self)
        ensures
            r == retired_block(),
    {
        CondStagingBlock { staged: 0, alive: false, references: 0 }
    }

    pub fn alive(&self) -> (r: bool)
        ensures
            r == self.alive,
    {
        self.alive
    }

    /// Claims one staged waiter, which the caller then wakes.
    pub fn release_staged_waiter(&mut self) -> (r: bool)
        ensures
            r == (old(self).staged != 0),
            *final(self) == with_claim(*old(self)),
    {
        claim_one(&mut self.staged)
    }

    /// Releases one staged waiter on behalf of an unlock.
    pub fn drain_one(&mut self, counters: &mut HookCounters) -> (r: bool)
        ensures
            r == (old(self).staged != 0),
            *final(self) == with_claim(*old(self)),
            *final(counters) == if r {
                mutex_hook::with_cv_drain_wake(*old(counters))
            } else {
                *old(counters)
            },
    {
        if self.staged == 0 {
            return false;
        }
        let released: bool = self.release_staged_waiter();
        if released {
            mutex_hook::record_cv_drain_wake(counters);
        }
        released
    }

    /// Gives up the pacing: reports whether all that are parked are to be woken.
    pub fn release_all(&mut self) -> (r: bool)
        ensures
            r == (old(self).staged != 0),
            *final(self) == (CondStagingBlock { staged: 0, ..*old(self) }),
    {
        let any: bool = self.staged != 0;
        self.staged = 0;
        any
    }

    /// Marks the block dead, and reports whether all that are parked are to be
    /// woken, so that nobody waits for an unlock that never comes.
    pub fn retire(&mut self) -> (r: bool)
        ensures
            r == (old(self).staged != 0),
            *final(self) == (CondStagingBlock { staged: 0, alive: false, ..*old(self) }),
    {
        self.alive = false;
        self.release_all()
    }

    /// Accounts waiters that were moved here. Nothing but a claim ever lowers the
    /// count: too high costs an empty wake, too low would leave a waiter parked.
    pub fn stage_waiters(&mut self, moved: u32, counters: &mut HookCounters)
        ensures
            *final(self) == (CondStagingBlock {
                staged: old(self).staged.wrapping_add(moved),
                ..*old(self)
            }),
            *final(counters) == with_staged(*old(counters), old(self).staged, moved),
    {
        if moved == 0 {
            return ;
        }
        let previous: u32 = self.staged;
        self.staged = previous.wrapping_add(moved);
        mutex_hook::record_cv_requeued(counters, moved as u64);
        mutex_hook::record_cv_staged_high_water(counters, previous as u64 + moved as u64);
    }

    pub fn staged_count(&self) -> (r: u32)
        ensures
            r == self.staged,
    {
        self.staged
    }
}

/// A block after one attempt to claim a staged waiter.
pub open spec fn with_claim(block: CondStagingBlock) -> CondStagingBlock {
    CondStagingBlock {
        staged: if block.staged == 0 {
            0
        } else {
            (block.staged - 1) as u32
        },
        ..block
    }
}

/// The counters after `moved` waiters came to `staged` others.
pub open spec fn with_staged(counters: HookCounters, staged: u32, moved: u32) -> HookCounters {
    if moved == 0 {
        counters
    } else {
        mutex_hook::with_cv_staged_high_water(
            mutex_hook::with_cv_requeued(counters, moved as u64),
            (staged + moved) as u64,
        )
    }
}

/// The names of blocks. They are even: the lowest bit of the word in which a cond
/// keeps one says something else.
pub const NO_BLOCK: usize = 0;

pub const RETIRED_BLOCK: usize = 2;

/// All blocks of a process, the retired one first.
pub struct StagingArena {
    pub blocks: Vec<CondStagingBlock>,
}

/// The name of the block at an index.
pub open spec fn name_of(index: int) -> int {
    2 * (index + 1)
}

/// The index of the block of a name.
pub open spec fn index_of(name: usize) -> int {
    name / 2 - 1
}

pub open spec fn names_block(blocks: Seq<CondStagingBlock>, name: usize) -> bool {
    name % 2 == 0 && 0 <= index_of(name) < blocks.len()
}

/// A name of nothing, or of a block.
pub open spec fn is_name(blocks: Seq<CondStagingBlock>, name: usize) -> bool {
    name == NO_BLOCK || names_block(blocks, name)
}

impl StagingArena {
    pub open spec fn wf(self) -> bool {
        &&& 1 <= self.blocks@.len() <= usize::MAX / 2 - 1
        &&& self.blocks@[0] == retired_block()
    }

    /// Whether another block can be made.
    pub open spec fn room(self) -> bool {
        self.blocks@.len() < usize::MAX / 2 - 1
    }

    pub open spec fn block(self, name: usize) -> CondStagingBlock {
        self.blocks@[index_of(name)]
    }

    pub fn new() -> (r: Self)
        ensures
            r.wf(),
            r.blocks@ == seq![retired_block()],
            r.room(),
    {
        let mut blocks: Vec<CondStagingBlock> = Vec::new();
        blocks.push(CondStagingBlock::retired());
        StagingArena { blocks }
    }

    pub fn has_room(&self) -> (r: bool)
        ensures
            r == self.room(),
    {
        self.blocks.len() < usize::MAX / 2 - 1
    }

    /// The block of a name.
    pub fn get(&self, name: usize) -> (r: CondStagingBlock)
        requires
            names_block(self.blocks@, name),
        ensures
            r == self.block(name),
    {
        self.blocks[name / 2 - 1]
    }

    fn put(&mut self, name: usize, block: CondStagingBlock)
        requires
            names_block(old(self).blocks@, name),
        ensures
            final(self).blocks@ == old(self).blocks@.update(index_of(name), block),
    {
        self.blocks.set(name / 2 - 1, block);
    }

    /// Makes a block with one owner.
    fn allocate(&mut self) -> (r: usize)
        requires
            old(self).wf(),
            old(self).room(),
        ensures
            final(self).wf(),
            r == name_of(old(self).blocks@.len() as int),
            names_block(final(self).blocks@, r),
            final(self).blocks@ == old(self).blocks@.push(
                CondStagingBlock { staged: 0, alive: true, references: 1 },
            ),
    {
        let name: usize = 2 * (self.blocks.len() + 1);
        self.blocks.push(CondStagingBlock::new());
        name
    }
}

/// The blocks after one of them changed.
pub open spec fn with_block(
    blocks: Seq<CondStagingBlock>,
    name: usize,
    block: CondStagingBlock,
) -> Seq<CondStagingBlock> {
    blocks.update(index_of(name), block)
}

/// A name that a binding may use: a retired lock has none.
pub open spec fn usable(name: usize) -> usize {
    if name == RETIRED_BLOCK {
        NO_BLOCK
    } else {
        name
    }
}

fn usable_block(name: usize) -> (r: usize)
    ensures
        r == usable(name),
{
    if name == RETIRED_BLOCK {
        NO_BLOCK
    } else {
        name
    }
}

/// The staging that a lock owns.
///
/// It has no block until a first cond wait reaches the lock, and none at all where
/// no broadcast can ever park anything. Destroying the lock leaves the retired
/// block behind, so that a late first wait does not make a new one.
#[derive(Clone, Copy, Debug, PartialEq, Eq, Structural)]
pub struct CondStaging {
    pub block: usize,
}

impl CondStaging {
    pub open spec fn fits(self, arena: StagingArena) -> bool {
        is_name(arena.blocks@, self.block)
    }

    pub fn new() -> (r: Self)
        ensures
            r.block == NO_BLOCK,
    {
        CondStaging { block: NO_BLOCK }
    }

    /// The handle that the lock's brackets carry.
    pub fn handle(&self) -> (r: CondStagingRef)
        ensures
            r.block == self.block,
    {
        CondStagingRef { block: self.block }
    }

    /// The handle that a cond wait binds to. It makes the block on the first wait,
    /// if the run can park waiters at all.
    pub fn binding_handle(&mut self, arena: &mut StagingArena, switches: &CvSwitches) -> (r:
        CondStagingRef)
        requires
            old(arena).wf(),
            switches.may_requeue() && old(self).block == NO_BLOCK ==> old(arena).room(),
            old(self).fits(*old(arena)),
        ensures
            final(arena).wf(),
            final(self).fits(*final(arena)),
            is_name(final(arena).blocks@, r.block),
            ensured(
                switches.may_requeue(),
                old(self).block,
                old(arena).blocks@,
                final(self).block,
                final(arena).blocks@,
                r.block,
            ),
    {
        CondStagingRef { block: self.ensure_block(arena, switches.cv_requeue_possible()) }
    }

    pub fn ensure_block(&mut self, arena: &mut StagingArena, requeue_possible: bool) -> (r: usize)
        requires
            old(arena).wf(),
            requeue_possible && old(self).block == NO_BLOCK ==> old(arena).room(),
            old(self).fits(*old(arena)),
        ensures
            final(arena).wf(),
            final(self).fits(*final(arena)),
            is_name(final(arena).blocks@, r),
            ensured(
                requeue_possible,
                old(self).block,
                old(arena).blocks@,
                final(self).block,
                final(arena).blocks@,
                r,
            ),
    {
        if !requeue_possible {
            return NO_BLOCK;
        }
        if self.block != NO_BLOCK {
            return usable_block(self.block);
        }
        self.install_block(arena)
    }

    /// Publishes a new block, unless something was published meanwhile.
    pub fn install_block(&mut self, arena: &mut StagingArena) -> (r: usize)
        requires
            old(arena).wf(),
            old(self).block == NO_BLOCK ==> old(arena).room(),
            old(self).fits(*old(arena)),
        ensures
            final(arena).wf(),
            final(self).fits(*final(arena)),
            is_name(final(arena).blocks@, r),
            ensured(
                true,
                old(self).block,
                old(arena).blocks@,
                final(self).block,
                final(arena).blocks@,
                r,
            ),
    {
        if self.block != NO_BLOCK {
            return usable_block(self.block);
        }
        let name: usize = arena.allocate();
        self.block = name;
        name
    }

    /// Whether a cond has bound to the lock, and the lock still exists.
    pub fn block_created(&self) -> (r: bool)
        ensures
            r == (usable(self.block) != NO_BLOCK),
    {
        usable_block(self.block) != NO_BLOCK
    }

    /// Waiters parked on the stage that no release has claimed yet.
    pub fn staged_count(&self, arena: &StagingArena) -> (r: u32)
        requires
            self.fits(*arena),
        ensures
            r == if usable(self.block) == NO_BLOCK {
                0
            } else {
                arena.block(self.block).staged
            },
    {
        if usable_block(self.block) == NO_BLOCK {
            0
        } else {
            arena.get(self.block).staged_count()
        }
    }

    /// Destroys the staging with its lock, and reports whether all that are parked
    /// are to be woken. The lock gives up its part in the block.
    pub fn destroy(&mut self, arena: &mut StagingArena) -> (r: bool)
        requires
            old(arena).wf(),
            old(self).fits(*old(arena)),
            usable(old(self).block) != NO_BLOCK ==> old(arena).block(old(self).block).references
                >= 1,
        ensures
            final(arena).wf(),
            final(self).block == RETIRED_BLOCK,
            usable(old(self).block) == NO_BLOCK ==> !r && final(arena).blocks@ == old(
                arena,
            ).blocks@,
            usable(old(self).block) != NO_BLOCK ==> {
                let block = old(arena).block(old(self).block);
                &&& r == (block.staged != 0)
                &&& final(arena).blocks@ == with_block(
                    old(arena).blocks@,
                    old(self).block,
                    CondStagingBlock {
                        staged: 0,
                        alive: false,
                        references: (block.references - 1) as usize,
                    },
                )
            },
    {
        let name: usize = self.block;
        self.block = RETIRED_BLOCK;
        if usable_block(name) == NO_BLOCK {
            return false;
        }
        let mut block: CondStagingBlock = arena.get(name);
        let wake: bool = block.retire();
        block.references = block.references - 1;
        arena.put(name, block);
        wake
    }
}

impl Default for CondStaging {
    fn default() -> (r: Self)
        ensures
            r.block == NO_BLOCK,
    {
        CondStaging::new()
    }
}

/// What asking for the block to bind to gives, and leaves behind.
pub open spec fn ensured(
    possible: bool,
    block: usize,
    blocks: Seq<CondStagingBlock>,
    block_after: usize,
    blocks_after: Seq<CondStagingBlock>,
    result: usize,
) -> bool {
    if possible && block == NO_BLOCK {
        &&& block_after == name_of(blocks.len() as int)
        &&& result == block_after
        &&& blocks_after == blocks.push(
            CondStagingBlock { staged: 0, alive: true, references: 1 },
        )
    } else {
        &&& block_after == block
        &&& blocks_after == blocks
        &&& result == if possible {
            usable(block)
        } else {
            NO_BLOCK
        }
    }
}

/// Where waiters can be parked at all, every wait that releases a live lock binds to the
/// one block that the first of them made, whatever became of the blocks in between.
/// Where they cannot, no block is made and none is named.
pub proof fn law_every_wait_binds_to_one_block(
    possible: bool,
    block: usize,
    blocks: Seq<CondStagingBlock>,
    block_after: usize,
    blocks_after: Seq<CondStagingBlock>,
    first: usize,
    later: Seq<CondStagingBlock>,
    block_later: usize,
    blocks_later: Seq<CondStagingBlock>,
    second: usize,
)
    requires
        block != RETIRED_BLOCK,
        1 <= blocks.len(),
        name_of(blocks.len() as int) <= usize::MAX,
        ensured(possible, block, blocks, block_after, blocks_after, first),
        ensured(possible, block_after, later, block_later, blocks_later, second),
    ensures
        possible ==> {
            &&& first != NO_BLOCK
            &&& usable(block_after) == first
            &&& second == first
            &&& block_later == block_after
            &&& blocks_later == later
        },
        !possible ==> {
            &&& first == NO_BLOCK
            &&& second == NO_BLOCK
            &&& block_later == block
            &&& blocks_after == blocks
            &&& blocks_later == later
        },
{
}

/// How a wait names the staging of the mutex that it releases, and how the
/// brackets of a lock name theirs.
#[derive(Clone, Copy, Debug, PartialEq, Eq, Structural)]
pub struct CondStagingRef {
    pub block: usize,
}

impl CondStagingRef {
    /// A mutex without staging: nothing is ever parked.
    pub fn none() -> (r: Self)
        ensures
            r.block == NO_BLOCK,
    {
        CondStagingRef { block: NO_BLOCK }
    }

    /// Notes the lock as the one that the thread holds, unless it noted an outer
    /// one. `held` is the thread's note.
    pub fn publish_hold(&self, held: &mut usize, switches: &CvSwitches)
        ensures
            *final(held) == held_after_lock(*old(held), self.block, switches.may_requeue()),
    {
        if switches.cv_requeue_possible() && self.block != NO_BLOCK && *held == NO_BLOCK {
            *held = self.block;
        }
    }

    /// Drops the note on the release of the lock that it names.
    pub fn clear_hold(&self, held: &mut usize, switches: &CvSwitches)
        ensures
            *final(held) == held_after_unlock(*old(held), self.block, switches.may_requeue()),
    {
        if switches.cv_requeue_possible() && self.block != NO_BLOCK && *held == self.block {
            *held = NO_BLOCK;
        }
    }

    /// Claims one staged waiter of a released lock, which the caller then wakes.
    pub fn drain_one(
        &self,
        arena: &mut StagingArena,
        counters: &mut HookCounters,
        switches: &CvSwitches,
    ) -> (r: bool)
        requires
            old(arena).wf(),
            is_name(old(arena).blocks@, self.block),
        ensures
            final(arena).wf(),
            ({
                let drains = switches.may_requeue() && self.block != NO_BLOCK;
                &&& r == (drains && old(arena).block(self.block).staged != 0)
                &&& final(arena).blocks@ == if drains {
                    with_block(
                        old(arena).blocks@,
                        self.block,
                        with_claim(old(arena).block(self.block)),
                    )
                } else {
                    old(arena).blocks@
                }
                &&& *final(counters) == if r {
                    mutex_hook::with_cv_drain_wake(*old(counters))
                } else {
                    *old(counters)
                }
            }),
    {
        if !switches.cv_requeue_possible() || self.block == NO_BLOCK {
            return false;
        }
        let mut block: CondStagingBlock = arena.get(self.block);
        let wake: bool = block.drain_one(counters);
        arena.put(self.block, block);
        wake
    }
}

/// The note of a thread that took a lock.
pub open spec fn held_after_lock(held: usize, block: usize, possible: bool) -> usize {
    if possible && held == NO_BLOCK {
        block
    } else {
        held
    }
}

/// The note of a thread that released a lock.
pub open spec fn held_after_unlock(held: usize, block: usize, possible: bool) -> usize {
    if possible && held == block {
        NO_BLOCK
    } else {
        held
    }
}

/// A lock that a thread takes and releases inside another one leaves the note of
/// the other alone, and the release of the other drops it.
pub proof fn law_the_outer_lock_keeps_the_note(outer: usize, inner: usize)
    requires
        outer != NO_BLOCK,
        inner != outer,
    ensures
        held_after_lock(NO_BLOCK, outer, true) == outer,
        held_after_unlock(held_after_lock(outer, inner, true), inner, true) == outer,
        held_after_unlock(outer, outer, true) == NO_BLOCK,
{
}

// Binding.
/// The word in which a cond keeps the staging of the mutex that its waits
/// release. Its lowest bit marks a cond that was waited on with two mutexes: no
/// waiter is parked any more, and what is parked already is still released.
#[derive(Clone, Copy, Debug, PartialEq, Eq, Structural)]
pub struct BoundStaging {
    pub word: usize,
}

pub open spec fn is_conflicting(word: usize) -> bool {
    word % 2 == 1
}

/// The block that a word names, whatever its mark.
pub open spec fn bound_block(word: usize) -> usize {
    (word - word % 2) as usize
}

/// The word with the mark.
pub open spec fn marked(word: usize) -> usize {
    (bound_block(word) + 1) as usize
}

/// The block that a cond parks new waiters on: none after a conflict.
pub open spec fn parking_of(word: usize) -> usize {
    if is_conflicting(word) {
        NO_BLOCK
    } else {
        word
    }
}

impl BoundStaging {
    pub open spec fn fits(self, arena: StagingArena) -> bool {
        is_name(arena.blocks@, bound_block(self.word))
    }

    pub fn new() -> (r: Self)
        ensures
            r.word == 0,
    {
        BoundStaging { word: 0 }
    }

    /// The block that new waiters may be parked on.
    pub fn parking_target(&self) -> (r: usize)
        ensures
            r == parking_of(self.word),
    {
        if self.word % 2 == 1 {
            NO_BLOCK
        } else {
            self.word
        }
    }

    /// The block that parked waiters are released from.
    pub fn block(&self) -> (r: usize)
        ensures
            r == bound_block(self.word),
    {
        self.word - self.word % 2
    }

    fn mark_conflicting(&mut self)
        ensures
            final(self).word == marked(old(self).word),
    {
        self.word = self.word - self.word % 2 + 1;
    }

    /// Publishes a binding, which gives the cond a part in the block. A racer that
    /// published another lock first costs the cond its binding.
    pub fn publish(&mut self, arena: &mut StagingArena, block: usize, counters: &mut HookCounters)
        requires
            old(arena).wf(),
            names_block(old(arena).blocks@, block),
            old(self).word == 0 ==> old(arena).block(block).references < usize::MAX,
            block != RETIRED_BLOCK,
        ensures
            final(arena).wf(),
            published(
                old(self).word,
                old(arena).blocks@,
                *old(counters),
                block,
                final(self).word,
                final(arena).blocks@,
                *final(counters),
            ),
    {
        let word: usize = self.word;
        if word == 0 {
            let mut shared: CondStagingBlock = arena.get(block);
            shared.references = shared.references + 1;
            arena.put(block, shared);
            self.word = block;
        } else if word - word % 2 != block {
            mutex_hook::record_cv_binding_conflict(counters);
            self.mark_conflicting();
        }
    }

    /// Gives up the cond's part in its block.
    pub fn destroy(&mut self, arena: &mut StagingArena)
        requires
            old(arena).wf(),
            old(self).fits(*old(arena)),
            bound_block(old(self).word) != RETIRED_BLOCK,
            bound_block(old(self).word) != NO_BLOCK ==> old(arena).block(
                bound_block(old(self).word),
            ).references >= 1,
        ensures
            final(arena).wf(),
            final(self).word == 0,
            bound_block(old(self).word) == NO_BLOCK ==> final(arena).blocks@ == old(arena).blocks@,
            bound_block(old(self).word) != NO_BLOCK ==> {
                let name = bound_block(old(self).word);
                let block = old(arena).block(name);
                final(arena).blocks@ == with_block(
                    old(arena).blocks@,
                    name,
                    CondStagingBlock {
                        references: (block.references - 1) as usize,
                        ..block
                    },
                )
            },
    {
        let name: usize = self.block();
        self.word = 0;
        if name != NO_BLOCK {
            let mut block: CondStagingBlock = arena.get(name);
            block.references = block.references - 1;
            arena.put(name, block);
        }
    }
}

/// What publishing the binding to `block` does.
pub open spec fn published(
    word: usize,
    blocks: Seq<CondStagingBlock>,
    counters: HookCounters,
    block: usize,
    word_after: usize,
    blocks_after: Seq<CondStagingBlock>,
    counters_after: HookCounters,
) -> bool {
    if word == 0 {
        let shared = blocks[index_of(block)];
        &&& word_after == block
        &&& blocks_after == with_block(
            blocks,
            block,
            CondStagingBlock { references: (shared.references + 1) as usize, ..shared },
        )
        &&& counters_after == counters
    } else if bound_block(word) != block {
        &&& word_after == marked(word)
        &&& blocks_after == blocks
        &&& counters_after == mutex_hook::with_cv_binding_conflict(counters)
    } else {
        &&& word_after == word
        &&& blocks_after == blocks
        &&& counters_after == counters
    }
}

// The condition variable.
/// The futex state of a condition variable: the word that waiters sleep on, the
/// waiters that a signal may hand a wakeup to, and the binding.
#[derive(Clone, Copy, Debug, PartialEq, Eq, Structural)]
pub struct CondState {
    pub seq: u32,
    pub waiters: u32,
    pub bound: BoundStaging,
}

/// A cond whose waiters' sleep condition was ended.
pub open spec fn bumped(cond: CondState) -> CondState {
    CondState { seq: cond.seq.wrapping_add(1), ..cond }
}

/// A cond with one registration less.
pub open spec fn one_less(cond: CondState) -> CondState {
    CondState { waiters: (cond.waiters - 1) as u32, ..cond }
}

/// Who is to be woken on the word of a cond, or moved off it.
#[derive(Clone, Copy, Debug, PartialEq, Eq, Structural)]
pub enum CondAction {
    Nothing,
    WakeOne,
    WakeAll,
    /// Move all waiters to the stage of a block, if the cond's word is `expected`,
    /// and report the outcome.
    Requeue { block: usize, expected: u32, attempt: u32 },
}

/// Who is to be woken on the stage of a block.
#[derive(Clone, Copy, Debug, PartialEq, Eq, Structural)]
pub enum StageWake {
    Nobody,
    One,
    All,
}

/// What follows an attempt to move the waiters of a broadcast.
#[derive(Clone, Copy, Debug, PartialEq, Eq, Structural)]
pub enum RequeueStep {
    /// They are moved; the stage may owe a wake.
    Done { wake: StageWake },
    /// They are not: the broadcast goes on.
    Again { action: CondAction },
}

/// Whom a broadcast that staged its waiters wakes: on a block whose lock is gone
/// all of them, else none where an unlock of its own is still to come, else one.
pub open spec fn chain_wake(block: CondStagingBlock, holds: bool) -> StageWake {
    if block.staged == 0 || (block.alive && holds) {
        StageWake::Nobody
    } else if block.alive {
        StageWake::One
    } else {
        StageWake::All
    }
}

pub open spec fn after_chain(block: CondStagingBlock, holds: bool) -> CondStagingBlock {
    match chain_wake(block, holds) {
        StageWake::Nobody => block,
        StageWake::One => with_claim(block),
        StageWake::All => CondStagingBlock { staged: 0, ..block },
    }
}

/// Releases the first of the waiters that a broadcast staged, unless an unlock of
/// the broadcaster's own is still to come. `holds`: the broadcaster's note names
/// this block.
pub fn start_drain_chain(block: &mut CondStagingBlock, holds: bool, counters: &mut HookCounters) -> (
r: StageWake)
    ensures
        r == chain_wake(*old(block), holds),
        *final(block) == after_chain(*old(block), holds),
        *final(counters) == if r == StageWake::One {
            mutex_hook::with_cv_stranding_wake(*old(counters))
        } else {
            *old(counters)
        },
{
    if !block.alive() {
        return if block.release_all() {
            StageWake::All
        } else {
            StageWake::Nobody
        };
    }
    if holds {
        return StageWake::Nobody;
    }
    if block.release_staged_waiter() {
        mutex_hook::record_cv_stranding_wake(counters);
        StageWake::One
    } else {
        StageWake::Nobody
    }
}

impl CondState {
    pub open spec fn fits(self, arena: StagingArena) -> bool {
        self.bound.fits(arena)
    }

    /// What a broadcast does with the waiters that it released.
    pub open spec fn release(self, arena: StagingArena, switches: CvSwitches) -> CondAction {
        let block = if is_conflicting(self.bound.word) {
            NO_BLOCK
        } else {
            self.bound.word
        };
        if switches.requeues() && block != NO_BLOCK && arena.block(block).alive {
            CondAction::Requeue { block, expected: self.seq, attempt: 0 }
        } else {
            CondAction::WakeAll
        }
    }

    pub fn new() -> (r: Self)
        ensures
            r.seq == 0,
            r.waiters == 0,
            r.bound.word == 0,
    {
        CondState { seq: 0, waiters: 0, bound: BoundStaging::new() }
    }

    /// Releases one waiter, if any is registered.
    pub fn signal(&mut self) -> (r: CondAction)
        ensures
            old(self).waiters == 0 ==> r == CondAction::Nothing && *final(self) == *old(self),
            old(self).waiters != 0 ==> r == CondAction::WakeOne && *final(self) == bumped(
                one_less(*old(self)),
            ),
    {
        if self.take_waiter() {
            CondAction::WakeOne
        } else {
            CondAction::Nothing
        }
    }

    /// Releases every registered waiter.
    pub fn broadcast(&mut self, arena: &StagingArena, switches: &CvSwitches) -> (r: CondAction)
        requires
            arena.wf(),
            old(self).fits(*arena),
        ensures
            old(self).waiters == 0 ==> r == CondAction::Nothing && *final(self) == *old(self),
            old(self).waiters != 0 ==> {
                &&& *final(self) == bumped(CondState { waiters: 0, ..*old(self) })
                &&& r == final(self).release(*arena, *switches)
            },
    {
        if self.waiters == 0 {
            return CondAction::Nothing;
        }
        self.waiters = 0;
        self.seq = self.seq.wrapping_add(1);
        if !switches.cv_requeue_enabled() {
            return CondAction::WakeAll;
        }
        let block: usize = self.bound.parking_target();
        if block == NO_BLOCK || !arena.get(block).alive() {
            return CondAction::WakeAll;
        }
        CondAction::Requeue { block, expected: self.seq, attempt: 0 }
    }

    /// Goes on with a broadcast that tried to move its waiters to `block`. The
    /// outcome is how many were moved, or the error. `held` is the thread's note
    /// of the lock that it holds.
    pub fn requeue_waiters(
        &self,
        arena: &mut StagingArena,
        counters: &mut HookCounters,
        held: usize,
        block: usize,
        attempt: u32,
        outcome: Result<u32, i32>,
    ) -> (r: RequeueStep)
        requires
            old(arena).wf(),
            names_block(old(arena).blocks@, block),
            attempt < REQUEUE_ATTEMPTS,
        ensures
            final(arena).blocks@.len() == old(arena).blocks@.len(),
            block != RETIRED_BLOCK ==> final(arena).wf(),
            match outcome {
                Ok(moved) => {
                    let before = old(arena).block(block);
                    let staged = CondStagingBlock {
                        staged: before.staged.wrapping_add(moved),
                        ..before
                    };
                    let wake = chain_wake(staged, held == block);
                    let counted = with_staged(*old(counters), before.staged, moved);
                    &&& r == (RequeueStep::Done { wake })
                    &&& final(arena).blocks@ == with_block(
                        old(arena).blocks@,
                        block,
                        after_chain(staged, held == block),
                    )
                    &&& *final(counters) == if wake == StageWake::One {
                        mutex_hook::with_cv_stranding_wake(counted)
                    } else {
                        counted
                    }
                },
                Err(errno) => {
                    let again = errno == EAGAIN && attempt + 1 < REQUEUE_ATTEMPTS;
                    &&& final(arena).blocks@ == old(arena).blocks@
                    &&& r == (RequeueStep::Again {
                        action: if again {
                            CondAction::Requeue {
                                block,
                                expected: self.seq,
                                attempt: (attempt + 1) as u32,
                            }
                        } else {
                            CondAction::WakeAll
                        },
                    })
                    &&& *final(counters) == if again {
                        *old(counters)
                    } else {
                        mutex_hook::with_cv_requeue_fallback(*old(counters))
                    }
                },
            },
    {
        match outcome {
            Ok(moved) => {
                let mut staging: CondStagingBlock = arena.get(block);
                staging.stage_waiters(moved, counters);
                let wake: StageWake = start_drain_chain(&mut staging, held == block, counters);
                arena.put(block, staging);
                RequeueStep::Done { wake }
            },
            Err(errno) => if errno == EAGAIN && attempt + 1 < REQUEUE_ATTEMPTS {
                RequeueStep::Again {
                    action: CondAction::Requeue {
                        block,
                        expected: self.seq,
                        attempt: attempt + 1,
                    },
                }
            } else {
                mutex_hook::record_cv_requeue_fallback(counters);
                RequeueStep::Again { action: CondAction::WakeAll }
            },
        }
    }

    /// Binds the cond to the staging of the mutex that a wait releases. The first
    /// wait decides; a wait with another mutex costs the cond its binding.
    pub fn bind_staging(
        &mut self,
        arena: &mut StagingArena,
        staging: CondStagingRef,
        counters: &mut HookCounters,
    )
        requires
            old(arena).wf(),
            is_name(old(arena).blocks@, staging.block),
            staging.block != RETIRED_BLOCK,
            staging.block != NO_BLOCK && old(self).bound.word == 0 ==> old(arena).block(
                staging.block,
            ).references < usize::MAX,
        ensures
            final(arena).wf(),
            final(self).seq == old(self).seq,
            final(self).waiters == old(self).waiters,
            bound_by(
                old(self).bound.word,
                old(arena).blocks@,
                *old(counters),
                staging.block,
                final(self).bound.word,
                final(arena).blocks@,
                *final(counters),
            ),
    {
        if staging.block == NO_BLOCK {
            return ;
        }
        let word: usize = self.bound.word;
        if word != 0 {
            if word == staging.block || word % 2 == 1 {
                return ;
            }
            mutex_hook::record_cv_binding_conflict(counters);
            self.bound.mark_conflicting();
            return ;
        }
        self.bound.publish(arena, staging.block, counters);
    }

    /// Passes on a release that this waiter consumed without its wait ending, so
    /// that whoever is parked behind it is not left. True: a staged waiter is to
    /// be woken.
    pub fn hand_on_stale_release(&self, arena: &mut StagingArena, counters: &mut HookCounters) -> (r:
        bool)
        requires
            old(arena).wf(),
            self.fits(*old(arena)),
        ensures
            final(arena).wf(),
            ({
                let name = bound_block(self.bound.word);
                &&& r == (name != NO_BLOCK && old(arena).block(name).staged != 0)
                &&& final(arena).blocks@ == if name != NO_BLOCK {
                    with_block(old(arena).blocks@, name, with_claim(old(arena).block(name)))
                } else {
                    old(arena).blocks@
                }
                &&& *final(counters) == if r {
                    mutex_hook::with_cv_drain_wake(*old(counters))
                } else {
                    *old(counters)
                }
            }),
    {
        let name: usize = self.bound.block();
        if name == NO_BLOCK {
            return false;
        }
        let mut block: CondStagingBlock = arena.get(name);
        let wake: bool = block.drain_one(counters);
        arena.put(name, block);
        wake
    }

    /// Takes one registration, and ends the sleep condition of whoever has it.
    fn take_waiter(&mut self) -> (r: bool)
        ensures
            r == (old(self).waiters != 0),
            *final(self) == if r {
                bumped(one_less(*old(self)))
            } else {
                *old(self)
            },
    {
        if !self.cancel_waiter() {
            return false;
        }
        self.seq = self.seq.wrapping_add(1);
        true
    }

    /// Takes one registration.
    fn cancel_waiter(&mut self) -> (r: bool)
        ensures
            r == (old(self).waiters != 0),
            *final(self) == if r {
                one_less(*old(self))
            } else {
                *old(self)
            },
    {
        claim_one(&mut self.waiters)
    }

    /// Withdraws the registration of a waiter whose deadline passed. Returns what
    /// the wait returns, and whether a waiter is to be woken.
    ///
    /// Registrations have no names: where a signal ran since the waiter registered
    /// under `seq`, the one that is withdrawn may be another waiter's, and a
    /// wakeup is handed on for it.
    pub fn retire_expired_waiter(&mut self, seq: u32) -> (r: (i32, bool))
        ensures
            old(self).waiters == 0 ==> r == (0i32, false) && *final(self) == *old(self),
            old(self).waiters != 0 && old(self).seq == seq ==> {
                &&& r == (ETIMEDOUT, false)
                &&& *final(self) == one_less(*old(self))
            },
            old(self).waiters != 0 && old(self).seq != seq ==> {
                &&& r == (0i32, true)
                &&& *final(self) == bumped(one_less(*old(self)))
            },
    {
        if !self.cancel_waiter() {
            return (0, false);
        }
        if self.seq == seq {
            return (ETIMEDOUT, false);
        }
        self.seq = self.seq.wrapping_add(1);
        (0, true)
    }
}

impl Default for CondState {
    fn default() -> (r: Self)
        ensures
            r.seq == 0,
            r.waiters == 0,
            r.bound.word == 0,
    {
        CondState::new()
    }
}

// Waiting.
/// How a waiter re-acquires its mutex once its wait ends.
#[derive(Clone, Copy, Debug, PartialEq, Eq, Structural)]
pub enum CondRelock {
    /// Asks admission for a slot like any contender.
    Normal,
    /// A hint may be in the admission word, which lets it enter without asking.
    TakeHint,
    /// The scheduler admitted it as it routed the wakeup.
    AlreadyAdmitted,
}

/// The mutex that a wait releases: its class, whether that class goes through
/// admission, and its staging.
#[derive(Clone, Copy, Debug, PartialEq, Eq, Structural)]
pub struct CondMutex {
    pub lock_id: u32,
    pub admission_scoped: bool,
    pub staging: CondStagingRef,
}

impl CondMutex {
    pub fn new(lock_id: u32, admission_scoped: bool, staging: CondStagingRef) -> (r: Self)
        ensures
            r == (CondMutex { lock_id, admission_scoped, staging }),
    {
        CondMutex { lock_id, admission_scoped, staging }
    }
}

/// What a waiter tries to show in its admission word before it sleeps.
#[derive(Clone, Copy, Debug, PartialEq, Eq, Structural)]
pub enum SleepPublication {
    /// That it sleeps, so that the scheduler routes its wakeup.
    Arm,
    /// That it will take its mutex again.
    Hint,
    /// Nothing more. `routed`: the scheduler routes the wakeup.
    Done { routed: bool },
}

pub open spec fn hint_or_nothing(switches: CvSwitches) -> SleepPublication {
    if switches.hint {
        SleepPublication::Hint
    } else {
        SleepPublication::Done { routed: false }
    }
}

pub open spec fn first_publication(mutex: CondMutex, switches: CvSwitches) -> SleepPublication {
    if !mutex.admission_scoped {
        SleepPublication::Done { routed: false }
    } else if switches.route {
        SleepPublication::Arm
    } else {
        hint_or_nothing(switches)
    }
}

pub open spec fn next_publication(
    switches: CvSwitches,
    tried: SleepPublication,
    worked: bool,
) -> SleepPublication {
    match tried {
        SleepPublication::Arm => if worked {
            SleepPublication::Done { routed: true }
        } else {
            hint_or_nothing(switches)
        },
        SleepPublication::Hint => SleepPublication::Done { routed: false },
        SleepPublication::Done { routed } => tried,
    }
}

/// What a waiter tries to show first.
pub fn publish_sleep_state(mutex: CondMutex, switches: &CvSwitches) -> (r: SleepPublication)
    ensures
        r == first_publication(mutex, *switches),
{
    if !mutex.admission_scoped {
        SleepPublication::Done { routed: false }
    } else if switches.route {
        SleepPublication::Arm
    } else if switches.hint {
        SleepPublication::Hint
    } else {
        SleepPublication::Done { routed: false }
    }
}

/// What follows once that was tried.
pub fn publish_sleep_next(
    switches: &CvSwitches,
    tried: SleepPublication,
    worked: bool,
    counters: &mut HookCounters,
) -> (r: SleepPublication)
    ensures
        r == next_publication(*switches, tried, worked),
        *final(counters) == if tried == SleepPublication::Hint && worked {
            mutex_hook::with_cv_hint_published(*old(counters))
        } else {
            *old(counters)
        },
{
    match tried {
        SleepPublication::Arm => if worked {
            SleepPublication::Done { routed: true }
        } else if switches.hint {
            SleepPublication::Hint
        } else {
            SleepPublication::Done { routed: false }
        },
        SleepPublication::Hint => {
            if worked {
                mutex_hook::record_cv_hint_published(counters);
            }
            SleepPublication::Done { routed: false }
        },
        SleepPublication::Done { routed } => SleepPublication::Done { routed },
    }
}

/// A waiter is routed exactly where routing is on, its mutex goes through
/// admission, and the word could be armed.
pub proof fn law_only_an_armed_waiter_is_routed(
    mutex: CondMutex,
    switches: CvSwitches,
    armed: bool,
    hinted: bool,
)
    ensures
        ({
            let first = first_publication(mutex, switches);
            let second = next_publication(switches, first, if first == SleepPublication::Arm {
                armed
            } else {
                hinted
            });
            let last = next_publication(switches, second, hinted);
            last == (SleepPublication::Done {
                routed: mutex.admission_scoped && switches.route && armed,
            })
        }),
{
}

/// A waiter that never slept was never routed and found no hint, so it is an
/// ordinary contender.
pub open spec fn relock_for(routed: bool, slept: bool) -> CondRelock {
    if !slept {
        CondRelock::Normal
    } else if routed {
        CondRelock::AlreadyAdmitted
    } else {
        CondRelock::TakeHint
    }
}

pub fn relock_mode(routed: bool, slept: bool, counters: &mut HookCounters) -> (r: CondRelock)
    ensures
        r == relock_for(routed, slept),
        *final(counters) == if r == CondRelock::AlreadyAdmitted {
            mutex_hook::with_cv_route_relock(*old(counters))
        } else {
            *old(counters)
        },
{
    if !slept {
        return CondRelock::Normal;
    }
    if routed {
        mutex_hook::record_cv_route_relock(counters);
        return CondRelock::AlreadyAdmitted;
    }
    CondRelock::TakeHint
}

/// A wait on its way.
#[derive(Clone, Copy, Debug, PartialEq, Eq, Structural)]
pub struct CondWait {
    /// The cond's word when the waiter registered.
    pub seq: u32,
    /// Whether it ever slept.
    pub slept: bool,
    /// What the wait will return.
    pub ret: i32,
}

/// What a waiter does next.
#[derive(Clone, Copy, Debug, PartialEq, Eq, Structural)]
pub enum WaitStep {
    /// Sleep while the cond's word is `expected`, and report how that ended.
    Block { expected: u32 },
    /// The deadline passed: withdraw a registration.
    Withdraw,
    /// Stop sleeping, and take the mutex again.
    End,
}

/// Whom a waiter wakes on its way.
#[derive(Clone, Copy, Debug, PartialEq, Eq, Structural)]
pub enum WaitWake {
    Nobody,
    /// One waiter on the cond's word.
    Cond,
    /// One waiter on the stage of a block.
    Stage { block: usize },
}

/// Whether a waiter sleeps that finds the cond's word at `seq`.
pub open spec fn checked_step(seq: u32, wait: CondWait) -> WaitStep {
    if seq == wait.seq {
        WaitStep::Block { expected: wait.seq }
    } else {
        WaitStep::End
    }
}

/// Whether a sleep that ended with `rc` was one: 0 stands for a wake.
pub open spec fn was_sleep(rc: i32) -> bool {
    rc == 0 || rc == EINTR || rc == ETIMEDOUT
}

/// What follows a sleep that ended with `rc`, where the cond's word is `seq` by then.
pub open spec fn woken_step(seq: u32, wait: CondWait, rc: i32) -> WaitStep {
    if seq != wait.seq {
        WaitStep::End
    } else if rc == ETIMEDOUT {
        WaitStep::Withdraw
    } else {
        WaitStep::Block { expected: wait.seq }
    }
}

/// What a wait returns whose deadline passed, where the cond has that word and that
/// many registrations by then.
pub open spec fn expired_ret(seq: u32, waiters: u32, wait: CondWait) -> i32 {
    if waiters != 0 && seq == wait.seq {
        ETIMEDOUT
    } else {
        0
    }
}

/// What the first part of a wait does to the binding of its cond: a mutex without
/// a staging changes nothing, nor does one after a conflict.
pub open spec fn bound_by(
    word: usize,
    blocks: Seq<CondStagingBlock>,
    counters: HookCounters,
    block: usize,
    word_after: usize,
    blocks_after: Seq<CondStagingBlock>,
    counters_after: HookCounters,
) -> bool {
    if block == NO_BLOCK || is_conflicting(word) {
        word_after == word && blocks_after == blocks && counters_after == counters
    } else {
        published(word, blocks, counters, block, word_after, blocks_after, counters_after)
    }
}

/// Registers a waiter, which still holds its mutex. It releases the mutex next,
/// and shows that it sleeps.
pub fn wait_begin(
    cond: &mut CondState,
    arena: &mut StagingArena,
    counters: &mut HookCounters,
    mutex: CondMutex,
) -> (r: CondWait)
    requires
        old(arena).wf(),
        is_name(old(arena).blocks@, mutex.staging.block),
        mutex.staging.block != RETIRED_BLOCK,
        mutex.staging.block != NO_BLOCK && old(cond).bound.word == 0 ==> old(arena).block(
            mutex.staging.block,
        ).references < usize::MAX,
    ensures
        final(arena).wf(),
        r == (CondWait { seq: old(cond).seq, slept: false, ret: 0 }),
        final(cond).seq == old(cond).seq,
        final(cond).waiters == old(cond).waiters.wrapping_add(1),
        bound_by(
            old(cond).bound.word,
            old(arena).blocks@,
            *old(counters),
            mutex.staging.block,
            final(cond).bound.word,
            final(arena).blocks@,
            *final(counters),
        ),
{
    cond.bind_staging(arena, mutex.staging, counters);
    let seq: u32 = cond.seq;
    cond.waiters = cond.waiters.wrapping_add(1);
    CondWait { seq, slept: false, ret: 0 }
}

/// Whether a waiter that released its mutex sleeps.
pub fn wait_check(cond: &CondState, wait: &CondWait) -> (r: WaitStep)
    ensures
        r == checked_step(cond.seq, *wait),
{
    if cond.seq == wait.seq {
        WaitStep::Block { expected: wait.seq }
    } else {
        WaitStep::End
    }
}

/// Goes on with a waiter whose sleep ended with `rc`: 0 for a wake, or an error.
pub fn wait_woken(
    cond: &CondState,
    arena: &mut StagingArena,
    counters: &mut HookCounters,
    wait: &mut CondWait,
    rc: i32,
) -> (r: (WaitStep, WaitWake))
    requires
        old(arena).wf(),
        cond.fits(*old(arena)),
    ensures
        final(arena).wf(),
        final(wait).seq == old(wait).seq,
        final(wait).slept == (old(wait).slept || was_sleep(rc)),
        ({
            let pending = cond.seq == old(wait).seq;
            let name = bound_block(cond.bound.word);
            let hands_on = rc != ETIMEDOUT && pending && name != NO_BLOCK;
            let released = hands_on && old(arena).block(name).staged != 0;
            &&& r.0 == woken_step(cond.seq, *old(wait), rc)
            &&& r.1 == if released {
                WaitWake::Stage { block: name }
            } else {
                WaitWake::Nobody
            }
            &&& final(arena).blocks@ == if hands_on {
                with_block(old(arena).blocks@, name, with_claim(old(arena).block(name)))
            } else {
                old(arena).blocks@
            }
            &&& *final(counters) == if released {
                mutex_hook::with_cv_drain_wake(*old(counters))
            } else {
                *old(counters)
            }
        }),
        final(wait).ret == old(wait).ret,
{
    if rc == 0 || rc == EINTR || rc == ETIMEDOUT {
        wait.slept = true;
    }
    if cond.seq != wait.seq {
        return (WaitStep::End, WaitWake::Nobody);
    }
    if rc == ETIMEDOUT {
        return (WaitStep::Withdraw, WaitWake::Nobody);
    }
    let block: usize = cond.bound.block();
    if cond.hand_on_stale_release(arena, counters) {
        (WaitStep::Block { expected: wait.seq }, WaitWake::Stage { block })
    } else {
        (WaitStep::Block { expected: wait.seq }, WaitWake::Nobody)
    }
}

/// Goes on with a waiter whose deadline passed while the cond's word had not moved.
/// By now it may have: the wait then ends as a wakeup, and one is handed on.
pub fn wait_expired(cond: &mut CondState, wait: &mut CondWait) -> (r: WaitWake)
    ensures
        final(wait).seq == old(wait).seq,
        final(wait).slept == old(wait).slept,
        final(wait).ret == expired_ret(old(cond).seq, old(cond).waiters, *old(wait)),
        old(cond).waiters == 0 ==> {
            &&& r == WaitWake::Nobody
            &&& *final(cond) == *old(cond)
        },
        old(cond).waiters != 0 && old(cond).seq == old(wait).seq ==> {
            &&& r == WaitWake::Nobody
            &&& *final(cond) == one_less(*old(cond))
        },
        old(cond).waiters != 0 && old(cond).seq != old(wait).seq ==> {
            &&& r == WaitWake::Cond
            &&& *final(cond) == bumped(one_less(*old(cond)))
        },
{
    let (ret, wake): (i32, bool) = cond.retire_expired_waiter(wait.seq);
    wait.ret = ret;
    if wake {
        WaitWake::Cond
    } else {
        WaitWake::Nobody
    }
}

/// Ends a wait: how the mutex is taken again, and what the wait returns.
pub fn wait_end(wait: &CondWait, routed: bool, counters: &mut HookCounters) -> (r: (CondRelock, i32))
    ensures
        r == (relock_for(routed, wait.slept), wait.ret),
        *final(counters) == if r.0 == CondRelock::AlreadyAdmitted {
            mutex_hook::with_cv_route_relock(*old(counters))
        } else {
            *old(counters)
        },
{
    (relock_mode(routed, wait.slept, counters), wait.ret)
}

// The course of a wait.
/// What a waiter does, from when it is registered to when it has its mutex again.
#[derive(Clone, Copy, Debug, PartialEq, Eq, Structural)]
pub enum WaitAction {
    /// Release the mutex.
    Unlock,
    /// Show the scheduler that it sleeps. The answer is whether it is routed.
    Publish,
    /// Open the bracket around the sleep in the statistics.
    BeginSleep,
    /// Sleep while the cond's word is `expected`.
    Block { expected: u32 },
    /// Withdraw a registration.
    Withdraw,
    /// Take the routed sleep back: from here on the thread contends for the mutex.
    Retire { slept: bool },
    /// Close the bracket.
    EndSleep,
    /// Take the mutex again.
    Relock { relock: CondRelock },
    /// Nothing: the wait is over.
    Done,
}

/// What follows the last sleep of a wait.
pub open spec fn action_at_end(routed: bool, slept: bool) -> WaitAction {
    if routed {
        WaitAction::Retire { slept }
    } else {
        WaitAction::EndSleep
    }
}

pub open spec fn action_of_step(step: WaitStep, routed: bool, slept: bool) -> WaitAction {
    match step {
        WaitStep::Block { expected } => WaitAction::Block { expected },
        WaitStep::Withdraw => WaitAction::Withdraw,
        WaitStep::End => action_at_end(routed, slept),
    }
}

/// What follows `done`. `step` is what looking at the cond came to, before the first
/// sleep and after each of them.
pub open spec fn action_after(
    done: WaitAction,
    step: WaitStep,
    routed: bool,
    slept: bool,
) -> WaitAction {
    match done {
        WaitAction::Unlock => WaitAction::Publish,
        WaitAction::Publish => WaitAction::BeginSleep,
        WaitAction::BeginSleep => action_of_step(step, routed, slept),
        WaitAction::Block { .. } => action_of_step(step, routed, slept),
        WaitAction::Withdraw => action_at_end(routed, slept),
        WaitAction::Retire { .. } => WaitAction::EndSleep,
        WaitAction::EndSleep => WaitAction::Relock { relock: relock_for(routed, slept) },
        WaitAction::Relock { .. } => WaitAction::Done,
        WaitAction::Done => WaitAction::Done,
    }
}

/// What a waiter does next. It begins with releasing the mutex.
pub fn wait_next(done: WaitAction, step: WaitStep, routed: bool, slept: bool) -> (r: WaitAction)
    ensures
        r == action_after(done, step, routed, slept),
{
    match done {
        WaitAction::Unlock => WaitAction::Publish,
        WaitAction::Publish => WaitAction::BeginSleep,
        WaitAction::BeginSleep | WaitAction::Block { .. } => match step {
            WaitStep::Block { expected } => WaitAction::Block { expected },
            WaitStep::Withdraw => WaitAction::Withdraw,
            WaitStep::End => wait_end_action(routed, slept),
        },
        WaitAction::Withdraw => wait_end_action(routed, slept),
        WaitAction::Retire { .. } => WaitAction::EndSleep,
        WaitAction::EndSleep => if !slept {
            WaitAction::Relock { relock: CondRelock::Normal }
        } else if routed {
            WaitAction::Relock { relock: CondRelock::AlreadyAdmitted }
        } else {
            WaitAction::Relock { relock: CondRelock::TakeHint }
        },
        WaitAction::Relock { .. } => WaitAction::Done,
        WaitAction::Done => WaitAction::Done,
    }
}

fn wait_end_action(routed: bool, slept: bool) -> (r: WaitAction)
    ensures
        r == action_at_end(routed, slept),
{
    if routed {
        WaitAction::Retire { slept }
    } else {
        WaitAction::EndSleep
    }
}

/// A wait on its way, with what its thread does next.
pub struct WaitRun {
    pub action: WaitAction,
    pub wait: CondWait,
    pub routed: bool,
}

/// What a thread meets while it does something: the cond's word and registrations at
/// the end of it, how a sleep ended, and whether the scheduler routes its wakeup.
pub struct WaitInput {
    pub seq: u32,
    pub waiters: u32,
    pub rc: i32,
    pub routed: bool,
}

/// A wait that was just registered, with the cond's word at `seq`.
pub open spec fn run_begun(seq: u32) -> WaitRun {
    WaitRun {
        action: WaitAction::Unlock,
        wait: CondWait { seq, slept: false, ret: 0 },
        routed: false,
    }
}

/// A wait after one action.
pub open spec fn run_moved(run: WaitRun, input: WaitInput) -> WaitRun {
    let wait = run.wait;
    match run.action {
        WaitAction::Publish => WaitRun {
            routed: input.routed,
            action: action_after(run.action, WaitStep::End, input.routed, wait.slept),
            ..run
        },
        WaitAction::BeginSleep => WaitRun {
            action: action_after(
                run.action,
                checked_step(input.seq, wait),
                run.routed,
                wait.slept,
            ),
            ..run
        },
        WaitAction::Block { .. } => {
            let slept = wait.slept || was_sleep(input.rc);
            WaitRun {
                wait: CondWait { slept, ..wait },
                action: action_after(
                    run.action,
                    woken_step(input.seq, wait, input.rc),
                    run.routed,
                    slept,
                ),
                ..run
            }
        },
        WaitAction::Withdraw => WaitRun {
            wait: CondWait { ret: expired_ret(input.seq, input.waiters, wait), ..wait },
            action: action_after(run.action, WaitStep::End, run.routed, wait.slept),
            ..run
        },
        _ => WaitRun {
            action: action_after(run.action, WaitStep::End, run.routed, wait.slept),
            ..run
        },
    }
}

/// A wait after as many actions as there are inputs.
pub open spec fn run_of(seq: u32, inputs: Seq<WaitInput>) -> WaitRun
    decreases inputs.len(),
{
    if inputs.len() == 0 {
        run_begun(seq)
    } else {
        run_moved(run_of(seq, inputs.drop_last()), inputs.last())
    }
}

/// What the thread does at `k`, which meets `inputs[k]`.
pub open spec fn action_at(seq: u32, inputs: Seq<WaitInput>, k: int) -> WaitAction {
    run_of(seq, inputs.take(k)).action
}

/// How far along an action is.
pub open spec fn action_rank(action: WaitAction) -> int {
    match action {
        WaitAction::Unlock => 0,
        WaitAction::Publish => 1,
        WaitAction::BeginSleep => 2,
        WaitAction::Block { .. } => 3,
        WaitAction::Withdraw => 4,
        WaitAction::Retire { .. } => 5,
        WaitAction::EndSleep => 6,
        WaitAction::Relock { .. } => 7,
        WaitAction::Done => 8,
    }
}

/// Whether the thread really slept in any of its actions.
pub open spec fn slept_in(seq: u32, inputs: Seq<WaitInput>) -> bool {
    exists|k: int|
        0 <= k < inputs.len() && #[trigger] action_at(seq, inputs, k) is Block && was_sleep(
            inputs[k].rc,
        )
}

/// Whether the last sleep passed its deadline with the cond's word unmoved, and the
/// registration was then withdrawn with the word still unmoved.
pub open spec fn expired_at(seq: u32, inputs: Seq<WaitInput>, k: int) -> bool {
    &&& 0 <= k
    &&& k + 1 < inputs.len()
    &&& action_at(seq, inputs, k) is Block
    &&& inputs[k].rc == ETIMEDOUT
    &&& inputs[k].seq == seq
    &&& action_at(seq, inputs, k + 1) is Withdraw
    &&& inputs[k + 1].seq == seq
}

proof fn lemma_same_actions(seq: u32, inputs: Seq<WaitInput>, k: int)
    requires
        0 <= k < inputs.len(),
    ensures
        action_at(seq, inputs.drop_last(), k) == action_at(seq, inputs, k),
        action_at(seq, inputs, inputs.len() - 1) == run_of(seq, inputs.drop_last()).action,
{
    assert(inputs.drop_last().take(k) =~= inputs.take(k));
    assert(inputs.take(inputs.len() - 1) =~= inputs.drop_last());
}

/// Actions only go forward, and only sleeping is done again.
proof fn lemma_actions_go_forward(seq: u32, inputs: Seq<WaitInput>, j: int, k: int)
    requires
        0 <= j < k <= inputs.len(),
    ensures
        action_rank(action_at(seq, inputs, j)) <= action_rank(action_at(seq, inputs, k)),
        action_rank(action_at(seq, inputs, j)) == action_rank(action_at(seq, inputs, k))
            ==> action_at(seq, inputs, j) is Block || action_at(seq, inputs, j) is Done,
    decreases k,
{
    let before = inputs.take(k);
    assert(before.drop_last() =~= inputs.take(k - 1));
    if j < k - 1 {
        lemma_actions_go_forward(seq, inputs, j, k - 1);
    }
}

proof fn lemma_run_facts(seq: u32, inputs: Seq<WaitInput>)
    ensures
        ({
            let run = run_of(seq, inputs);
            let n = inputs.len() as int;
            &&& run.wait.seq == seq
            &&& run.action == WaitAction::Unlock <==> n == 0
            &&& run.action == WaitAction::Publish <==> n == 1
            &&& run.routed == (n >= 2 && inputs[1].routed)
            &&& run.wait.slept == slept_in(seq, inputs)
            &&& run.wait.ret == 0 || run.wait.ret == ETIMEDOUT
            &&& run.wait.ret == ETIMEDOUT ==> exists|k: int| #[trigger] expired_at(seq, inputs, k)
            &&& run.action is Withdraw ==> {
                &&& n >= 1
                &&& action_at(seq, inputs, n - 1) is Block
                &&& inputs[n - 1].rc == ETIMEDOUT
                &&& inputs[n - 1].seq == seq
            }
            &&& run.action is Retire ==> run.routed && run.action == (WaitAction::Retire {
                slept: run.wait.slept,
            })
            &&& run.action is EndSleep ==> n >= 1 && run.routed == (action_at(
                seq,
                inputs,
                n - 1,
            ) is Retire)
            &&& run.action is Relock ==> n >= 2 && run.action == (WaitAction::Relock {
                relock: relock_for(run.routed, run.wait.slept),
            }) && action_at(seq, inputs, n - 1) is EndSleep && run.routed == (action_at(
                seq,
                inputs,
                n - 2,
            ) is Retire)
        }),
    decreases inputs.len(),
{
    let n = inputs.len() as int;
    if n > 0 {
        let before = inputs.drop_last();
        lemma_run_facts(seq, before);
        lemma_same_actions(seq, inputs, n - 1);
        if n >= 2 {
            lemma_same_actions(seq, inputs, n - 2);
            assert(before[1] == inputs[1] || n == 2);
        }
        let was = run_of(seq, before);
        let run = run_of(seq, inputs);
        assert(run == run_moved(was, inputs[n - 1]));
        assert(was.wait.slept ==> slept_in(seq, inputs)) by {
            if was.wait.slept {
                let k = choose|k: int|
                    0 <= k < before.len() && #[trigger] action_at(seq, before, k) is Block
                        && was_sleep(before[k].rc);
                lemma_same_actions(seq, inputs, k);
                assert(before[k] == inputs[k]);
            }
        }
        assert(slept_in(seq, inputs) ==> was.wait.slept || (was.action is Block && was_sleep(
            inputs[n - 1].rc,
        ))) by {
            if slept_in(seq, inputs) {
                let k = choose|k: int|
                    0 <= k < inputs.len() && #[trigger] action_at(seq, inputs, k) is Block
                        && was_sleep(inputs[k].rc);
                if k < n - 1 {
                    lemma_same_actions(seq, inputs, k);
                    assert(before[k] == inputs[k]);
                    assert(action_at(seq, before, k) is Block);
                }
            }
        }
        if was.action is Withdraw {
            assert(before[n - 2] == inputs[n - 2]);
            if run.wait.ret == ETIMEDOUT {
                assert(expired_at(seq, inputs, n - 2));
            }
        } else if run.wait.ret == ETIMEDOUT {
            let k = choose|k: int| #[trigger] expired_at(seq, before, k);
            lemma_same_actions(seq, inputs, k);
            lemma_same_actions(seq, inputs, k + 1);
            assert(before[k] == inputs[k]);
            assert(before[k + 1] == inputs[k + 1]);
            assert(expired_at(seq, inputs, k));
        }
    }
}

/// How a finished wait ends.
proof fn lemma_run_ends(seq: u32, inputs: Seq<WaitInput>)
    requires
        run_of(seq, inputs).action == WaitAction::Done,
        inputs.len() > 0,
        action_at(seq, inputs, inputs.len() - 1) != WaitAction::Done,
    ensures
        inputs.len() >= 5,
        action_at(seq, inputs, 0) == WaitAction::Unlock,
        action_at(seq, inputs, inputs.len() - 1) == (WaitAction::Relock {
            relock: relock_for(inputs[1].routed, slept_in(seq, inputs)),
        }),
        action_at(seq, inputs, inputs.len() - 2) is EndSleep,
        action_at(seq, inputs, inputs.len() - 3) is Retire == inputs[1].routed,
{
    let n = inputs.len() as int;
    let before = inputs.drop_last();
    lemma_same_actions(seq, inputs, n - 1);
    lemma_run_facts(seq, inputs);
    lemma_run_facts(seq, before);
    let was = run_of(seq, before);
    assert(was.action is Relock);
    lemma_same_actions(seq, inputs, n - 2);
    lemma_same_actions(seq, inputs, n - 3);
    assert(before[1] == inputs[1]);
    assert(inputs.take(0) =~= Seq::<WaitInput>::empty());
    lemma_run_facts(seq, inputs.take(1));
    lemma_run_facts(seq, inputs.take(n - 2));
    assert(inputs.take(2).drop_last() =~= inputs.take(1));
    assert(run_of(seq, inputs.take(2)).action is BeginSleep);
}

/// A finished wait took its routed sleep back at most once, after its last sleep.
proof fn lemma_retires_once(seq: u32, inputs: Seq<WaitInput>, k: int)
    requires
        inputs.len() >= 5,
        action_at(seq, inputs, inputs.len() - 1) is Relock,
        action_at(seq, inputs, inputs.len() - 2) is EndSleep,
        0 <= k < inputs.len(),
        action_at(seq, inputs, k) is Retire,
    ensures
        k == inputs.len() - 3,
        action_at(seq, inputs, k) == (WaitAction::Retire { slept: slept_in(seq, inputs) }),
{
    let n = inputs.len() as int;
    lemma_run_facts(seq, inputs.take(k));
    lemma_slept_stays(seq, inputs, k);
    assert(inputs.take(k + 1).drop_last() =~= inputs.take(k));
    assert(action_at(seq, inputs, k + 1) is EndSleep);
    if k + 1 < n - 2 {
        lemma_actions_go_forward(seq, inputs, k + 1, n - 2);
    }
}

/// However a wait goes, its thread releases the mutex once, first of all, and takes it
/// again once, last of all, so that it sleeps only in between. A routed sleep is taken
/// back once, after the last sleep. The mutex is taken again as an ordinary contender
/// where the thread never slept, as one already admitted where it slept and was routed,
/// and with its hint otherwise. The wait returns 0, or a timeout where its last sleep
/// passed the deadline with the cond's word unmoved.
pub proof fn law_a_wait_unlocks_and_relocks_once(seq: u32, inputs: Seq<WaitInput>)
    requires
        run_of(seq, inputs).action == WaitAction::Done,
        inputs.len() > 0,
        action_at(seq, inputs, inputs.len() - 1) != WaitAction::Done,
    ensures
        ({
            let n = inputs.len() as int;
            let routed = inputs[1].routed;
            let slept = slept_in(seq, inputs);
            let ret = run_of(seq, inputs).wait.ret;
            &&& n >= 5
            &&& action_at(seq, inputs, 0) == WaitAction::Unlock
            &&& forall|k: int| 0 < k < n ==> #[trigger] action_at(seq, inputs, k)
                != WaitAction::Unlock
            &&& action_at(seq, inputs, n - 1) == (WaitAction::Relock {
                relock: relock_for(routed, slept),
            })
            &&& forall|k: int| 0 <= k < n - 1 ==> !(#[trigger] action_at(seq, inputs, k) is Relock)
            &&& forall|k: int|
                0 <= k < n && #[trigger] action_at(seq, inputs, k) is Block ==> 0 < k < n - 1
            &&& action_at(seq, inputs, n - 3) is Retire == routed
            &&& forall|k: int|
                0 <= k < n && #[trigger] action_at(seq, inputs, k) is Retire ==> k == n - 3
                    && action_at(seq, inputs, k) == (WaitAction::Retire { slept })
            &&& ret == 0 || ret == ETIMEDOUT
            &&& ret == ETIMEDOUT ==> exists|k: int|
                #[trigger] expired_at(seq, inputs, k) && forall|j: int|
                    k < j < n ==> !(#[trigger] action_at(seq, inputs, j) is Block)
        }),
{
    let n = inputs.len() as int;
    lemma_run_ends(seq, inputs);
    lemma_run_facts(seq, inputs);
    assert forall|k: int| 0 < k < n implies #[trigger] action_at(seq, inputs, k)
        != WaitAction::Unlock by {
        lemma_actions_go_forward(seq, inputs, 0, k);
    }
    assert forall|k: int| 0 <= k < n - 1 implies !(#[trigger] action_at(seq, inputs, k)
        is Relock) by {
        lemma_actions_go_forward(seq, inputs, k, n - 1);
    }
    assert forall|k: int| 0 <= k < n && #[trigger] action_at(seq, inputs, k) is Retire implies k
        == n - 3 && action_at(seq, inputs, k) == (WaitAction::Retire {
        slept: slept_in(seq, inputs),
    }) by {
        lemma_retires_once(seq, inputs, k);
    }
    if run_of(seq, inputs).wait.ret == ETIMEDOUT {
        let k = choose|k: int| #[trigger] expired_at(seq, inputs, k);
        assert forall|j: int| k < j < n implies !(#[trigger] action_at(seq, inputs, j) is Block) by {
            if j > k + 1 {
                lemma_actions_go_forward(seq, inputs, k + 1, j);
            }
        }
    }
}

/// Once the thread sleeps no more, what is known of its sleeping stays.
proof fn lemma_slept_stays(seq: u32, inputs: Seq<WaitInput>, k: int)
    requires
        0 <= k <= inputs.len(),
        action_rank(action_at(seq, inputs, k)) > 3,
    ensures
        run_of(seq, inputs.take(k)).wait.slept == slept_in(seq, inputs),
{
    let short = inputs.take(k);
    lemma_run_facts(seq, short);
    if slept_in(seq, inputs) {
        let i = choose|i: int|
            0 <= i < inputs.len() && #[trigger] action_at(seq, inputs, i) is Block && was_sleep(
                inputs[i].rc,
            );
        if i > k {
            lemma_actions_go_forward(seq, inputs, k, i);
        }
        assert(i < k);
        assert(short.take(i) =~= inputs.take(i));
        assert(short[i] == inputs[i]);
        assert(action_at(seq, short, i) is Block);
    }
    if slept_in(seq, short) {
        let i = choose|i: int|
            0 <= i < short.len() && #[trigger] action_at(seq, short, i) is Block && was_sleep(
                short[i].rc,
            );
        assert(short.take(i) =~= inputs.take(i));
        assert(action_at(seq, inputs, i) is Block);
    }
}

/// The word of a cond after a wait that releases a mutex with the block `block`.
pub open spec fn bound_word(word: usize, block: usize) -> usize {
    if block == NO_BLOCK || is_conflicting(word) {
        word
    } else if word == 0 {
        block
    } else if bound_block(word) != block {
        marked(word)
    } else {
        word
    }
}

/// Whether such a wait costs the cond its binding.
pub open spec fn costs_the_binding(word: usize, block: usize) -> bool {
    block != NO_BLOCK && !is_conflicting(word) && word != 0 && bound_block(word) != block
}

/// A wait leaves the word that its block makes, and counts a conflict where it makes
/// one.
pub proof fn law_a_wait_binds_by_its_block(
    word: usize,
    blocks: Seq<CondStagingBlock>,
    counters: HookCounters,
    block: usize,
    word_after: usize,
    blocks_after: Seq<CondStagingBlock>,
    counters_after: HookCounters,
)
    requires
        bound_by(word, blocks, counters, block, word_after, blocks_after, counters_after),
    ensures
        word_after == bound_word(word, block),
        counters_after == if costs_the_binding(word, block) {
            mutex_hook::with_cv_binding_conflict(counters)
        } else {
            counters
        },
{
}

/// The word of a new cond after waits with these blocks, in turn.
pub open spec fn bound_in_turn(blocks: Seq<usize>) -> usize
    decreases blocks.len(),
{
    if blocks.len() == 0 {
        0
    } else {
        bound_word(bound_in_turn(blocks.drop_last()), blocks.last())
    }
}

/// How many of the waits cost the cond its binding.
pub open spec fn conflicts_in_turn(blocks: Seq<usize>) -> nat
    decreases blocks.len(),
{
    if blocks.len() == 0 {
        0
    } else {
        conflicts_in_turn(blocks.drop_last()) + if costs_the_binding(
            bound_in_turn(blocks.drop_last()),
            blocks.last(),
        ) {
            1nat
        } else {
            0
        }
    }
}

/// A cond is bound to the block of the first wait that has one, for as long as no wait
/// comes with another. One that does leaves it without a parking target for good, and
/// is counted once, whatever waits follow. Waits without a block change nothing.
pub proof fn law_two_mutexes_end_the_binding(blocks: Seq<usize>, first: usize)
    requires
        forall|k: int| 0 <= k < blocks.len() ==> (#[trigger] blocks[k]) % 2 == 0,
        first != NO_BLOCK,
        first % 2 == 0,
        exists|k: int|
            0 <= k < blocks.len() && #[trigger] blocks[k] == first && forall|j: int|
                0 <= j < k ==> #[trigger] blocks[j] == NO_BLOCK,
    ensures
        ({
            let another = exists|k: int|
                0 <= k < blocks.len() && #[trigger] blocks[k] != NO_BLOCK && blocks[k] != first;
            &&& parking_of(bound_in_turn(blocks)) == if another {
                NO_BLOCK
            } else {
                first
            }
            &&& bound_block(bound_in_turn(blocks)) == first
            &&& conflicts_in_turn(blocks) == if another {
                1nat
            } else {
                0
            }
        }),
    decreases blocks.len(),
{
    let before = blocks.drop_last();
    let n = blocks.len() as int;
    let at = choose|k: int|
        0 <= k < blocks.len() && #[trigger] blocks[k] == first && forall|j: int|
            0 <= j < k ==> #[trigger] blocks[j] == NO_BLOCK;
    assert forall|k: int| 0 <= k < before.len() implies (#[trigger] before[k]) % 2 == 0 by {
        assert(before[k] == blocks[k]);
    }
    if at == n - 1 {
        assert forall|k: int| 0 <= k < before.len() implies #[trigger] before[k] == NO_BLOCK by {
            assert(before[k] == blocks[k]);
        }
        lemma_waits_without_a_block(before);
    } else {
        assert(before[at] == first);
        assert forall|j: int| 0 <= j < at implies #[trigger] before[j] == NO_BLOCK by {
            assert(before[j] == blocks[j]);
        }
        law_two_mutexes_end_the_binding(before, first);
        assert(blocks[n - 1] % 2 == 0);
        let was_another = exists|k: int|
            0 <= k < before.len() && #[trigger] before[k] != NO_BLOCK && before[k] != first;
        if was_another {
            let k = choose|k: int|
                0 <= k < before.len() && #[trigger] before[k] != NO_BLOCK && before[k] != first;
            assert(blocks[k] == before[k]);
        } else {
            assert forall|k: int| 0 <= k < n - 1 implies #[trigger] blocks[k] == NO_BLOCK
                || blocks[k] == first by {
                assert(before[k] == blocks[k]);
            }
            if blocks.last() != NO_BLOCK && blocks.last() != first {
                assert(blocks[n - 1] == blocks.last());
            }
        }
    }
}

proof fn lemma_waits_without_a_block(blocks: Seq<usize>)
    requires
        forall|k: int| 0 <= k < blocks.len() ==> #[trigger] blocks[k] == NO_BLOCK,
    ensures
        bound_in_turn(blocks) == 0,
        conflicts_in_turn(blocks) == 0,
    decreases blocks.len(),
{
    if blocks.len() > 0 {
        let before = blocks.drop_last();
        assert forall|k: int| 0 <= k < before.len() implies #[trigger] before[k] == NO_BLOCK by {
            assert(before[k] == blocks[k]);
        }
        lemma_waits_without_a_block(before);
        assert(blocks[blocks.len() - 1] == NO_BLOCK);
    }
}

/// A cond that gave its binding up never gets it back.
pub proof fn law_a_conflict_is_never_undone(
    word: usize,
    blocks: Seq<CondStagingBlock>,
    counters: HookCounters,
    block: usize,
    word_after: usize,
    blocks_after: Seq<CondStagingBlock>,
    counters_after: HookCounters,
)
    requires
        published(word, blocks, counters, block, word_after, blocks_after, counters_after),
        is_conflicting(word),
    ensures
        is_conflicting(word_after),
        bound_block(word_after) == bound_block(word),
{
}

// Who owns the blocks.
/// All blocks, with the words of all locks and of all conds.
#[verifier::ext_equal]
pub struct Owners {
    pub blocks: Seq<CondStagingBlock>,
    pub locks: Seq<usize>,
    pub conds: Seq<usize>,
}

/// How many of the words name a block.
pub open spec fn owning(words: Seq<usize>, name: int) -> int
    decreases words.len(),
{
    if words.len() == 0 {
        0
    } else {
        owning(words.drop_last(), name) + if bound_block(words.last()) == name {
            1int
        } else {
            0
        }
    }
}

/// Every word names nothing or a block, no cond names the retired one, and every
/// other block has as many references as there are words that name it.
pub open spec fn accounted(o: Owners) -> bool {
    &&& 1 <= o.blocks.len() <= usize::MAX / 2 - 1
    &&& o.locks.len() + o.conds.len() < usize::MAX
    &&& forall|i: int|
        0 <= i < o.locks.len() ==> is_name(o.blocks, #[trigger] o.locks[i]) && !is_conflicting(
            o.locks[i],
        )
    &&& forall|i: int|
        0 <= i < o.conds.len() ==> is_name(o.blocks, bound_block(#[trigger] o.conds[i]))
            && bound_block(o.conds[i]) != RETIRED_BLOCK
    &&& forall|k: int|
        1 <= k < o.blocks.len() ==> (#[trigger] o.blocks[k]).references == owning(
            o.locks,
            name_of(k),
        ) + owning(o.conds, name_of(k))
}

proof fn lemma_owning_update(words: Seq<usize>, i: int, word: usize, name: int)
    requires
        0 <= i < words.len(),
    ensures
        owning(words.update(i, word), name) == owning(words, name) - (if bound_block(words[i])
            == name {
            1int
        } else {
            0
        }) + (if bound_block(word) == name {
            1int
        } else {
            0
        }),
    decreases words.len(),
{
    let after = words.update(i, word);
    if i == words.len() - 1 {
        assert(after.drop_last() =~= words.drop_last());
    } else {
        assert(after.drop_last() =~= words.drop_last().update(i, word));
        assert(words.drop_last()[i] == words[i]);
        lemma_owning_update(words.drop_last(), i, word, name);
        assert(after.last() == words.last());
    }
}

proof fn lemma_owning_bounds(words: Seq<usize>, name: int)
    ensures
        0 <= owning(words, name) <= words.len(),
    decreases words.len(),
{
    if words.len() > 0 {
        lemma_owning_bounds(words.drop_last(), name);
    }
}

proof fn lemma_owning_some(words: Seq<usize>, i: int, name: int)
    requires
        0 <= i < words.len(),
        bound_block(words[i]) == name,
    ensures
        owning(words, name) >= 1,
    decreases words.len(),
{
    if i == words.len() - 1 {
        lemma_owning_bounds(words.drop_last(), name);
    } else {
        assert(words.drop_last()[i] == words[i]);
        lemma_owning_some(words.drop_last(), i, name);
    }
}

proof fn lemma_owning_nobody(words: Seq<usize>, name: int)
    requires
        forall|i: int| 0 <= i < words.len() ==> bound_block(#[trigger] words[i]) != name,
    ensures
        owning(words, name) == 0,
    decreases words.len(),
{
    if words.len() > 0 {
        assert forall|i: int| 0 <= i < words.drop_last().len() implies bound_block(
            #[trigger] words.drop_last()[i],
        ) != name by {
            assert(words.drop_last()[i] == words[i]);
        }
        assert(bound_block(words[words.len() - 1]) != name);
        lemma_owning_nobody(words.drop_last(), name);
    }
}

/// What can happen to the owners of blocks.
pub enum OwnerMove {
    /// A lock gets its block.
    Install { lock: int },
    /// A cond is bound to the block of a lock.
    Publish { cond: int, lock: int },
    /// A cond is marked as conflicting.
    Mark { cond: int },
    DestroyLock { lock: int },
    DestroyCond { cond: int },
}

/// A block with another number of owners.
pub open spec fn with_references(block: CondStagingBlock, references: int) -> CondStagingBlock {
    CondStagingBlock { references: references as usize, ..block }
}

/// The owners after a move; one that does not apply changes nothing.
pub open spec fn owners_moved(o: Owners, m: OwnerMove) -> Owners {
    match m {
        OwnerMove::Install { lock } => if 0 <= lock < o.locks.len() && o.locks[lock] == NO_BLOCK
            && o.blocks.len() < usize::MAX / 2 - 1 {
            Owners {
                blocks: o.blocks.push(
                    CondStagingBlock { staged: 0, alive: true, references: 1 },
                ),
                locks: o.locks.update(lock, name_of(o.blocks.len() as int) as usize),
                ..o
            }
        } else {
            o
        },
        OwnerMove::Publish { cond, lock } => if 0 <= lock < o.locks.len() && 0 <= cond
            < o.conds.len() && usable(o.locks[lock]) != NO_BLOCK && o.conds[cond] == 0 {
            let k = index_of(o.locks[lock]);
            Owners {
                blocks: o.blocks.update(
                    k,
                    with_references(o.blocks[k], o.blocks[k].references + 1),
                ),
                conds: o.conds.update(cond, o.locks[lock]),
                ..o
            }
        } else {
            o
        },
        OwnerMove::Mark { cond } => if 0 <= cond < o.conds.len() {
            Owners { conds: o.conds.update(cond, marked(o.conds[cond])), ..o }
        } else {
            o
        },
        OwnerMove::DestroyLock { lock } => if 0 <= lock < o.locks.len() {
            let k = index_of(o.locks[lock]);
            Owners {
                blocks: if usable(o.locks[lock]) == NO_BLOCK {
                    o.blocks
                } else {
                    o.blocks.update(
                        k,
                        CondStagingBlock {
                            staged: 0,
                            alive: false,
                            references: (o.blocks[k].references - 1) as usize,
                        },
                    )
                },
                locks: o.locks.update(lock, RETIRED_BLOCK),
                ..o
            }
        } else {
            o
        },
        OwnerMove::DestroyCond { cond } => if 0 <= cond < o.conds.len() {
            let name = bound_block(o.conds[cond]);
            let k = index_of(name);
            Owners {
                blocks: if name == NO_BLOCK {
                    o.blocks
                } else {
                    o.blocks.update(
                        k,
                        with_references(o.blocks[k], o.blocks[k].references - 1),
                    )
                },
                conds: o.conds.update(cond, 0),
                ..o
            }
        } else {
            o
        },
    }
}

/// A block that a lock or a cond names has an owner: it is there as long as
/// anybody can reach it, whatever of the two goes first.
pub proof fn law_a_named_block_is_owned(o: Owners, name: usize)
    requires
        accounted(o),
        name != NO_BLOCK,
        name != RETIRED_BLOCK,
        o.locks.contains(name) || exists|i: int|
            0 <= i < o.conds.len() && bound_block(#[trigger] o.conds[i]) == name,
    ensures
        names_block(o.blocks, name),
        o.blocks[index_of(name)].references >= 1,
{
    let k = index_of(name);
    lemma_owning_bounds(o.locks, name as int);
    lemma_owning_bounds(o.conds, name as int);
    if o.locks.contains(name) {
        let i = choose|i: int| 0 <= i < o.locks.len() && o.locks[i] == name;
        assert(is_name(o.blocks, o.locks[i]));
        lemma_owning_some(o.locks, i, name as int);
    } else {
        let i = choose|i: int| 0 <= i < o.conds.len() && bound_block(#[trigger] o.conds[i]) == name;
        assert(is_name(o.blocks, bound_block(o.conds[i])));
        lemma_owning_some(o.conds, i, name as int);
    }
    assert(o.blocks[k].references == owning(o.locks, name_of(k)) + owning(o.conds, name_of(k)));
}

proof fn lemma_install_accounted(o: Owners, lock: int)
    requires
        accounted(o),
        0 <= lock < o.locks.len(),
        o.locks[lock] == NO_BLOCK,
        o.blocks.len() < usize::MAX / 2 - 1,
    ensures
        accounted(owners_moved(o, OwnerMove::Install { lock })),
{
    let after = owners_moved(o, OwnerMove::Install { lock });
    let n = o.blocks.len() as int;
    let word = name_of(n) as usize;
    assert forall|i: int| 0 <= i < after.locks.len() implies is_name(
        after.blocks,
        #[trigger] after.locks[i],
    ) && !is_conflicting(after.locks[i]) by {
        assert(is_name(o.blocks, o.locks[i]));
    }
    assert forall|i: int| 0 <= i < after.conds.len() implies is_name(
        after.blocks,
        bound_block(#[trigger] after.conds[i]),
    ) && bound_block(after.conds[i]) != RETIRED_BLOCK by {
        assert(is_name(o.blocks, bound_block(o.conds[i])));
    }
    assert forall|k: int| 1 <= k < after.blocks.len() implies (
    #[trigger] after.blocks[k]).references == owning(after.locks, name_of(k)) + owning(
        after.conds,
        name_of(k),
    ) by {
        lemma_owning_update(o.locks, lock, word, name_of(k));
        if k == n {
            assert forall|i: int| 0 <= i < o.locks.len() implies bound_block(
                #[trigger] o.locks[i],
            ) != name_of(k) by {
                assert(is_name(o.blocks, o.locks[i]));
            }
            assert forall|i: int| 0 <= i < o.conds.len() implies bound_block(
                #[trigger] o.conds[i],
            ) != name_of(k) by {
                assert(is_name(o.blocks, bound_block(o.conds[i])));
            }
            lemma_owning_nobody(o.locks, name_of(k));
            lemma_owning_nobody(o.conds, name_of(k));
        } else {
            assert(after.blocks[k] == o.blocks[k]);
        }
    }
}

proof fn lemma_publish_accounted(o: Owners, cond: int, lock: int)
    requires
        accounted(o),
        0 <= lock < o.locks.len(),
        0 <= cond < o.conds.len(),
        usable(o.locks[lock]) != NO_BLOCK,
        o.conds[cond] == 0,
    ensures
        accounted(owners_moved(o, OwnerMove::Publish { cond, lock })),
{
    let after = owners_moved(o, OwnerMove::Publish { cond, lock });
    let name = o.locks[lock];
    let b = index_of(name);
    assert(is_name(o.blocks, o.locks[lock]));
    assert forall|i: int| 0 <= i < after.locks.len() implies is_name(
        after.blocks,
        #[trigger] after.locks[i],
    ) && !is_conflicting(after.locks[i]) by {
        assert(is_name(o.blocks, o.locks[i]));
    }
    assert forall|i: int| 0 <= i < after.conds.len() implies is_name(
        after.blocks,
        bound_block(#[trigger] after.conds[i]),
    ) && bound_block(after.conds[i]) != RETIRED_BLOCK by {
        assert(is_name(o.blocks, bound_block(o.conds[i])));
    }
    assert forall|k: int| 1 <= k < after.blocks.len() implies (
    #[trigger] after.blocks[k]).references == owning(after.locks, name_of(k)) + owning(
        after.conds,
        name_of(k),
    ) by {
        lemma_owning_update(o.conds, cond, name, name_of(k));
        lemma_owning_bounds(o.locks, name_of(k));
        lemma_owning_bounds(o.conds, name_of(k));
        assert(o.blocks[k].references == owning(o.locks, name_of(k)) + owning(
            o.conds,
            name_of(k),
        ));
    }
}

proof fn lemma_mark_accounted(o: Owners, cond: int)
    requires
        accounted(o),
        0 <= cond < o.conds.len(),
    ensures
        accounted(owners_moved(o, OwnerMove::Mark { cond })),
{
    let after = owners_moved(o, OwnerMove::Mark { cond });
    assert forall|i: int| 0 <= i < after.conds.len() implies is_name(
        after.blocks,
        bound_block(#[trigger] after.conds[i]),
    ) && bound_block(after.conds[i]) != RETIRED_BLOCK by {
        assert(is_name(o.blocks, bound_block(o.conds[i])));
    }
    assert forall|k: int| 1 <= k < after.blocks.len() implies (
    #[trigger] after.blocks[k]).references == owning(after.locks, name_of(k)) + owning(
        after.conds,
        name_of(k),
    ) by {
        lemma_owning_update(o.conds, cond, marked(o.conds[cond]), name_of(k));
        assert(o.blocks[k].references == owning(o.locks, name_of(k)) + owning(
            o.conds,
            name_of(k),
        ));
    }
}

proof fn lemma_destroy_lock_accounted(o: Owners, lock: int)
    requires
        accounted(o),
        0 <= lock < o.locks.len(),
    ensures
        accounted(owners_moved(o, OwnerMove::DestroyLock { lock })),
{
    let after = owners_moved(o, OwnerMove::DestroyLock { lock });
    let name = o.locks[lock];
    assert(is_name(o.blocks, o.locks[lock]));
    assert forall|i: int| 0 <= i < after.locks.len() implies is_name(
        after.blocks,
        #[trigger] after.locks[i],
    ) && !is_conflicting(after.locks[i]) by {
        assert(is_name(o.blocks, o.locks[i]));
    }
    assert forall|i: int| 0 <= i < after.conds.len() implies is_name(
        after.blocks,
        bound_block(#[trigger] after.conds[i]),
    ) && bound_block(after.conds[i]) != RETIRED_BLOCK by {
        assert(is_name(o.blocks, bound_block(o.conds[i])));
    }
    assert forall|k: int| 1 <= k < after.blocks.len() implies (
    #[trigger] after.blocks[k]).references == owning(after.locks, name_of(k)) + owning(
        after.conds,
        name_of(k),
    ) by {
        lemma_owning_update(o.locks, lock, RETIRED_BLOCK, name_of(k));
        lemma_owning_bounds(o.conds, name_of(k));
        assert(o.blocks[k].references == owning(o.locks, name_of(k)) + owning(
            o.conds,
            name_of(k),
        ));
        if name == name_of(k) {
            lemma_owning_some(o.locks, lock, name_of(k));
        }
    }
}

proof fn lemma_destroy_cond_accounted(o: Owners, cond: int)
    requires
        accounted(o),
        0 <= cond < o.conds.len(),
    ensures
        accounted(owners_moved(o, OwnerMove::DestroyCond { cond })),
{
    let after = owners_moved(o, OwnerMove::DestroyCond { cond });
    let name = bound_block(o.conds[cond]);
    assert(is_name(o.blocks, bound_block(o.conds[cond])));
    assert forall|i: int| 0 <= i < after.locks.len() implies is_name(
        after.blocks,
        #[trigger] after.locks[i],
    ) && !is_conflicting(after.locks[i]) by {
        assert(is_name(o.blocks, o.locks[i]));
    }
    assert forall|i: int| 0 <= i < after.conds.len() implies is_name(
        after.blocks,
        bound_block(#[trigger] after.conds[i]),
    ) && bound_block(after.conds[i]) != RETIRED_BLOCK by {
        assert(is_name(o.blocks, bound_block(o.conds[i])));
    }
    assert forall|k: int| 1 <= k < after.blocks.len() implies (
    #[trigger] after.blocks[k]).references == owning(after.locks, name_of(k)) + owning(
        after.conds,
        name_of(k),
    ) by {
        lemma_owning_update(o.conds, cond, 0, name_of(k));
        lemma_owning_bounds(o.locks, name_of(k));
        assert(o.blocks[k].references == owning(o.locks, name_of(k)) + owning(
            o.conds,
            name_of(k),
        ));
        if name == name_of(k) {
            lemma_owning_some(o.conds, cond, name_of(k));
        }
    }
}

/// Whatever happens to locks and conds, every block has as many references as it
/// has owners.
pub proof fn law_references_match_owners(o: Owners, m: OwnerMove)
    requires
        accounted(o),
    ensures
        accounted(owners_moved(o, m)),
{
    match m {
        OwnerMove::Install { lock } => {
            if owners_moved(o, m) != o {
                lemma_install_accounted(o, lock);
            }
        },
        OwnerMove::Publish { cond, lock } => {
            if owners_moved(o, m) != o {
                lemma_publish_accounted(o, cond, lock);
            }
        },
        OwnerMove::Mark { cond } => {
            if 0 <= cond < o.conds.len() {
                lemma_mark_accounted(o, cond);
            }
        },
        OwnerMove::DestroyLock { lock } => {
            if 0 <= lock < o.locks.len() {
                lemma_destroy_lock_accounted(o, lock);
            }
        },
        OwnerMove::DestroyCond { cond } => {
            if 0 <= cond < o.conds.len() {
                lemma_destroy_cond_accounted(o, cond);
            }
        },
    }
}

// Who is parked on a block.
/// A block, with the waiters parked on it and what is under way about them.
pub struct Stage {
    pub block: CondStagingBlock,
    /// Waiters parked.
    pub parked: nat,
    /// Waiters parked that are not accounted yet.
    pub moving: nat,
    /// Claims whose wake is still to come.
    pub waking: nat,
    /// Releases of all whose wake is still to come.
    pub waking_all: nat,
    /// Destroyers that marked the block dead and did not release it yet.
    pub retiring: nat,
    /// Broadcasters that accounted their waiters and did not go on yet.
    pub checking: nat,
}

pub enum StageMove {
    /// A broadcast moves waiters to the stage.
    Park { moved: u32 },
    /// It accounts them.
    Account { moved: u32 },
    /// It starts the chain of releases.
    Chain { holds: bool },
    /// An unlock claims a waiter.
    Claim,
    Wake,
    WakeAll,
    /// A waiter leaves by itself.
    Leave,
    /// A destroyer marks the block dead.
    Kill,
    /// It releases all.
    Release,
}

/// The stage after a move; one that is nobody's turn changes nothing. The count
/// stays below what its word can hold.
pub open spec fn stage_moved(s: Stage, m: StageMove) -> Stage {
    match m {
        StageMove::Park { moved } => Stage {
            parked: s.parked + moved as nat,
            moving: s.moving + moved as nat,
            ..s
        },
        StageMove::Account { moved } => if moved <= s.moving && s.block.staged + moved
            <= u32::MAX {
            Stage {
                block: CondStagingBlock {
                    staged: s.block.staged.wrapping_add(moved),
                    ..s.block
                },
                moving: (s.moving - moved) as nat,
                checking: s.checking + 1,
                ..s
            }
        } else {
            s
        },
        StageMove::Chain { holds } => if s.checking >= 1 {
            let wake = chain_wake(s.block, holds);
            Stage {
                block: after_chain(s.block, holds),
                checking: (s.checking - 1) as nat,
                waking: s.waking + if wake == StageWake::One {
                    1nat
                } else {
                    0nat
                },
                waking_all: s.waking_all + if wake == StageWake::All {
                    1nat
                } else {
                    0nat
                },
                ..s
            }
        } else {
            s
        },
        StageMove::Claim => if s.block.staged != 0 {
            Stage { block: with_claim(s.block), waking: s.waking + 1, ..s }
        } else {
            s
        },
        StageMove::Wake => if s.waking >= 1 {
            Stage {
                waking: (s.waking - 1) as nat,
                parked: if s.parked == 0 {
                    0
                } else {
                    (s.parked - 1) as nat
                },
                ..s
            }
        } else {
            s
        },
        StageMove::WakeAll => if s.waking_all >= 1 {
            Stage { waking_all: (s.waking_all - 1) as nat, parked: 0, ..s }
        } else {
            s
        },
        StageMove::Leave => if s.parked >= 1 {
            Stage { parked: (s.parked - 1) as nat, ..s }
        } else {
            s
        },
        StageMove::Kill => Stage {
            block: CondStagingBlock { alive: false, ..s.block },
            retiring: s.retiring + 1,
            ..s
        },
        StageMove::Release => if s.retiring >= 1 {
            Stage {
                block: CondStagingBlock { staged: 0, ..s.block },
                retiring: (s.retiring - 1) as nat,
                waking_all: s.waking_all + if s.block.staged != 0 {
                    1nat
                } else {
                    0nat
                },
                ..s
            }
        } else {
            s
        },
    }
}

/// Every parked waiter is counted or about to be woken, and what is counted on a
/// dead block is about to be released.
pub open spec fn nobody_stranded(s: Stage) -> bool {
    &&& s.parked <= s.block.staged + s.moving + s.waking || s.waking_all > 0
    &&& !s.block.alive && s.block.staged != 0 ==> s.retiring > 0 || s.checking > 0
}

/// Whoever goes on next, every parked waiter has a release coming.
pub proof fn law_every_parked_waiter_has_a_release_coming(s: Stage, m: StageMove)
    requires
        nobody_stranded(s),
    ensures
        nobody_stranded(stage_moved(s, m)),
{
}

/// Once a lock is destroyed and nothing is under way any more, nobody is parked
/// on it. On a lock that exists, every parked waiter is one that unlocks release.
pub proof fn law_a_destroyed_lock_leaves_nobody_parked(s: Stage)
    requires
        nobody_stranded(s),
        s.moving == 0,
        s.waking == 0,
        s.waking_all == 0,
        s.retiring == 0,
        s.checking == 0,
    ensures
        !s.block.alive ==> s.parked == 0,
        s.block.alive ==> s.parked <= s.block.staged,
{
}

// Who sleeps on a cond.
/// A cond, with its waiters and what is under way about them. A waiter is current
/// while the cond's word has not moved since it registered.
pub struct Sleepers {
    pub cond: CondState,
    /// Current waiters on their way to sleep.
    pub fresh: nat,
    /// Current waiters asleep.
    pub asleep: nat,
    /// Other waiters asleep.
    pub asleep_before: nat,
    /// Current waiters whose deadline passed.
    pub expired: nat,
    /// Others whose deadline passed while they were current.
    pub expired_before: nat,
    /// Waiters that withdrew a registration, and did not look at the word yet.
    pub withdrawn: nat,
    /// Those of them that will hand a wakeup on.
    pub forwarding: nat,
    pub waking: nat,
    pub waking_all: nat,
}

pub enum SleeperMove {
    Register,
    Sleep,
    /// A sleep ends without a wake: the waiter goes back to sleep where it is
    /// current.
    Stir { current: bool },
    /// A deadline passes.
    Expire { current: bool },
    Signal,
    Broadcast,
    /// A wake reaches a waiter, if any sleeps.
    Wake { current: bool },
    /// All that sleep are woken, or moved to a stage.
    WakeAll,
    /// A waiter whose deadline passed withdraws a registration.
    Withdraw { current: bool },
    /// It finds the word unchanged.
    TimeOut,
    /// It finds the word changed, and hands a wakeup on.
    Forward,
}

/// The word moved: nobody is current any more.
pub open spec fn all_before(s: Sleepers) -> Sleepers {
    Sleepers {
        cond: bumped(s.cond),
        fresh: 0,
        asleep: 0,
        asleep_before: s.asleep_before + s.asleep,
        expired: 0,
        expired_before: s.expired_before + s.expired,
        withdrawn: 0,
        forwarding: s.forwarding + s.withdrawn,
        ..s
    }
}

pub open spec fn sleepers_moved(s: Sleepers, m: SleeperMove) -> Sleepers {
    match m {
        SleeperMove::Register => if s.cond.waiters < u32::MAX {
            Sleepers {
                cond: CondState { waiters: s.cond.waiters.wrapping_add(1), ..s.cond },
                fresh: s.fresh + 1,
                ..s
            }
        } else {
            s
        },
        SleeperMove::Sleep => if s.fresh >= 1 {
            Sleepers { fresh: (s.fresh - 1) as nat, asleep: s.asleep + 1, ..s }
        } else {
            s
        },
        SleeperMove::Stir { current } => if current && s.asleep >= 1 {
            Sleepers { asleep: (s.asleep - 1) as nat, fresh: s.fresh + 1, ..s }
        } else if !current && s.asleep_before >= 1 {
            Sleepers { asleep_before: (s.asleep_before - 1) as nat, ..s }
        } else {
            s
        },
        SleeperMove::Expire { current } => if current && s.asleep >= 1 {
            Sleepers { asleep: (s.asleep - 1) as nat, expired: s.expired + 1, ..s }
        } else if !current && s.asleep_before >= 1 {
            Sleepers { asleep_before: (s.asleep_before - 1) as nat, ..s }
        } else {
            s
        },
        SleeperMove::Signal => if s.cond.waiters != 0 {
            Sleepers {
                waking: s.waking + 1,
                ..all_before(Sleepers { cond: one_less(s.cond), ..s })
            }
        } else {
            s
        },
        SleeperMove::Broadcast => if s.cond.waiters != 0 {
            Sleepers {
                waking_all: s.waking_all + 1,
                ..all_before(Sleepers { cond: CondState { waiters: 0, ..s.cond }, ..s })
            }
        } else {
            s
        },
        SleeperMove::Wake { current } => if s.waking == 0 {
            s
        } else if s.asleep == 0 && s.asleep_before == 0 {
            Sleepers { waking: (s.waking - 1) as nat, ..s }
        } else if current && s.asleep >= 1 {
            Sleepers { waking: (s.waking - 1) as nat, asleep: (s.asleep - 1) as nat, ..s }
        } else if !current && s.asleep_before >= 1 {
            Sleepers {
                waking: (s.waking - 1) as nat,
                asleep_before: (s.asleep_before - 1) as nat,
                ..s
            }
        } else {
            s
        },
        SleeperMove::WakeAll => if s.waking_all >= 1 {
            Sleepers {
                waking_all: (s.waking_all - 1) as nat,
                asleep: 0,
                asleep_before: 0,
                ..s
            }
        } else {
            s
        },
        SleeperMove::Withdraw { current } => {
            let taken = s.cond.waiters != 0;
            let cond = if taken {
                one_less(s.cond)
            } else {
                s.cond
            };
            let one = if taken {
                1nat
            } else {
                0nat
            };
            if current && s.expired >= 1 {
                Sleepers {
                    cond,
                    expired: (s.expired - 1) as nat,
                    withdrawn: s.withdrawn + one,
                    ..s
                }
            } else if !current && s.expired_before >= 1 {
                Sleepers {
                    cond,
                    expired_before: (s.expired_before - 1) as nat,
                    forwarding: s.forwarding + one,
                    ..s
                }
            } else {
                s
            }
        },
        SleeperMove::TimeOut => if s.withdrawn >= 1 {
            Sleepers { withdrawn: (s.withdrawn - 1) as nat, ..s }
        } else {
            s
        },
        SleeperMove::Forward => if s.forwarding >= 1 {
            Sleepers {
                waking: s.waking + 1,
                ..all_before(Sleepers { forwarding: (s.forwarding - 1) as nat, ..s })
            }
        } else {
            s
        },
    }
}

/// Every waiter that may sleep has a registration left for it, or a wakeup on
/// its way.
pub open spec fn nobody_forgotten(s: Sleepers) -> bool {
    &&& s.fresh + s.asleep + s.expired <= s.cond.waiters + s.forwarding
    &&& s.fresh + s.asleep + s.asleep_before + s.expired <= s.cond.waiters + s.forwarding
        + s.waking || s.waking_all > 0
}

proof fn lemma_starts_forget_nobody(s: Sleepers, m: SleeperMove)
    requires
        nobody_forgotten(s),
        m is Register || m is Sleep || m is Stir || m is Expire,
    ensures
        nobody_forgotten(sleepers_moved(s, m)),
{
}

proof fn lemma_releases_forget_nobody(s: Sleepers, m: SleeperMove)
    requires
        nobody_forgotten(s),
        m is Signal || m is Broadcast || m is Wake || m is WakeAll,
    ensures
        nobody_forgotten(sleepers_moved(s, m)),
{
}

proof fn lemma_deadlines_forget_nobody(s: Sleepers, m: SleeperMove)
    requires
        nobody_forgotten(s),
        m is Withdraw || m is TimeOut || m is Forward,
    ensures
        nobody_forgotten(sleepers_moved(s, m)),
{
}

/// Whoever goes on next, no waiter is forgotten: neither by a signal, nor by a
/// deadline that passes while one runs.
pub proof fn law_no_waiter_is_forgotten(s: Sleepers, m: SleeperMove)
    requires
        nobody_forgotten(s),
    ensures
        nobody_forgotten(sleepers_moved(s, m)),
{
    if m is Register || m is Sleep || m is Stir || m is Expire {
        lemma_starts_forget_nobody(s, m);
    } else if m is Withdraw || m is TimeOut || m is Forward {
        lemma_deadlines_forget_nobody(s, m);
    } else {
        lemma_releases_forget_nobody(s, m);
    }
}

/// Once nothing is under way any more, every waiter that sleeps is registered, so
/// that a signal finds it.
pub proof fn law_a_sleeping_waiter_is_registered(s: Sleepers)
    requires
        nobody_forgotten(s),
        s.forwarding == 0,
        s.waking == 0,
        s.waking_all == 0,
    ensures
        s.asleep + s.asleep_before <= s.cond.waiters,
{
}

// What the parts come to.
/// A release moves the word that waiters sleep on, by one, so that it is not what any of
/// them registered under; taking a registration takes one, and nothing else.
pub proof fn law_a_release_moves_the_word(cond: CondState)
    ensures
        bumped(cond).seq != cond.seq,
        bumped(cond).seq == (cond.seq + 1) % 0x1_0000_0000,
        bumped(cond).waiters == cond.waiters,
        bumped(cond).bound == cond.bound,
        cond.waiters > 0 ==> one_less(cond).waiters + 1 == cond.waiters,
        one_less(cond).seq == cond.seq,
        one_less(cond).bound == cond.bound,
{
}

/// A waiter sleeps just while the word is what it registered under. A deadline that passes
/// before the word moves withdraws a registration, and the wait timed out only where it
/// took one and the word had not moved; every other wait ends as a wakeup.
pub proof fn law_a_wait_ends_once_the_word_moves(seq: u32, waiters: u32, wait: CondWait, rc: i32)
    ensures
        seq == wait.seq ==> checked_step(seq, wait) == (WaitStep::Block { expected: wait.seq }),
        seq != wait.seq ==> checked_step(seq, wait) == WaitStep::End,
        seq != wait.seq ==> woken_step(seq, wait, rc) == WaitStep::End,
        seq == wait.seq && rc == 110 ==> woken_step(seq, wait, rc) == WaitStep::Withdraw,
        seq == wait.seq && rc != 110 ==> woken_step(seq, wait, rc) == (WaitStep::Block {
            expected: wait.seq,
        }),
        expired_ret(seq, waiters, wait) == 110 <==> waiters > 0 && seq == wait.seq,
        expired_ret(seq, waiters, wait) == 110 || expired_ret(seq, waiters, wait) == 0,
        was_sleep(rc) <==> rc == 0 || rc == 4 || rc == 110,
{
}

/// Who never slept asks for admission like anybody; who slept and was routed is admitted;
/// who slept and was not routed may have a hint. A routed wait takes its routed state
/// back before it ends.
pub proof fn law_a_relock_goes_by_how_the_wait_went(routed: bool, slept: bool)
    ensures
        relock_for(routed, slept) == CondRelock::Normal <==> !slept,
        relock_for(routed, slept) == CondRelock::AlreadyAdmitted <==> slept && routed,
        relock_for(routed, slept) == CondRelock::TakeHint <==> slept && !routed,
        action_at_end(routed, slept) == (WaitAction::Retire { slept }) <==> routed,
        action_at_end(routed, slept) == WaitAction::EndSleep <==> !routed,
{
}

/// A hint is tried where the mutex goes through admission, hints are on, and the wakeup is
/// not routed: because routing is off, or because the word could not be armed.
pub proof fn law_a_hint_is_left_where_nothing_is_routed(
    mutex: CondMutex,
    switches: CvSwitches,
    armed: bool,
)
    ensures
        ({
            let first = first_publication(mutex, switches);
            let second = next_publication(switches, first, armed);
            let hints = mutex.admission_scoped && switches.hint;
            &&& first == SleepPublication::Arm <==> mutex.admission_scoped && switches.route
            &&& first == SleepPublication::Hint <==> hints && !switches.route
            &&& switches.route ==> (second == SleepPublication::Hint <==> hints && !armed)
            &&& !mutex.admission_scoped ==> first == (SleepPublication::Done { routed: false })
        }),
{
}

/// A claim takes one staged waiter where there is one, and nothing else of the block.
pub proof fn law_a_claim_takes_one(block: CondStagingBlock)
    ensures
        block.staged > 0 ==> with_claim(block).staged + 1 == block.staged,
        block.staged == 0 ==> with_claim(block).staged == 0,
        with_claim(block).alive == block.alive,
        with_claim(block).references == block.references,
{
}

/// A broadcast that staged its waiters wakes all of them where the lock is gone, one of
/// them where it is not and no unlock of its own is to come, and none otherwise. Those
/// that it wakes are no longer staged.
pub proof fn law_a_broadcast_leaves_its_waiters_to_an_unlock(block: CondStagingBlock, holds: bool)
    ensures
        block.staged == 0 ==> chain_wake(block, holds) == StageWake::Nobody,
        block.staged > 0 && !block.alive ==> chain_wake(block, holds) == StageWake::All
            && after_chain(block, holds).staged == 0,
        block.staged > 0 && block.alive && !holds ==> chain_wake(block, holds) == StageWake::One
            && after_chain(block, holds).staged == block.staged - 1,
        block.alive && holds ==> chain_wake(block, holds) == StageWake::Nobody && after_chain(
            block,
            holds,
        ) == block,
        after_chain(block, holds).alive == block.alive,
        after_chain(block, holds).references == block.references,
{
}

/// A broadcast moves its waiters just where its thread has that on, the cond is bound to
/// one lock, and that lock exists; otherwise it wakes all of them.
pub proof fn law_a_broadcast_moves_its_waiters_where_it_can(
    cond: CondState,
    arena: StagingArena,
    switches: CvSwitches,
)
    ensures
        ({
            let on = if switches.requeue_overridden && switches.requeue_forced == Some(true) {
                true
            } else if switches.requeue_overridden && switches.requeue_forced == Some(false) {
                false
            } else {
                switches.requeue
            };
            let word = cond.bound.word;
            let moves = on && word != 0 && word % 2 == 0 && arena.blocks@[word / 2 - 1].alive;
            &&& moves ==> cond.release(arena, switches) == (CondAction::Requeue {
                block: word,
                expected: cond.seq,
                attempt: 0,
            })
            &&& !moves ==> cond.release(arena, switches) == CondAction::WakeAll
            &&& switches.may_requeue() <==> switches.requeue || switches.requeue_overridden
        }),
{
}

/// Waiters that are moved are counted, with the most that were ever staged; where none was
/// moved nothing is.
pub proof fn law_staged_waiters_are_counted(counters: HookCounters, staged: u32, moved: u32)
    requires
        counters.enabled,
        counters.requeue.requeued + moved <= u64::MAX,
    ensures
        ({
            let after = with_staged(counters, staged, moved);
            &&& moved == 0 ==> after == counters
            &&& after.requeue.requeued == counters.requeue.requeued + moved
            &&& moved > 0 ==> after.requeue.staged_high_water >= staged + moved
            &&& after.requeue.staged_high_water >= counters.requeue.staged_high_water
            &&& after.requeue.staged_high_water == staged + moved
                || after.requeue.staged_high_water == counters.requeue.staged_high_water
        }),
{
}

/// Names lead back to their blocks, and none is odd. The word of a cond names its block
/// with or without the mark of a conflict, and parks nobody with it.
pub proof fn law_a_bound_word_names_its_block(index: int, word: usize)
    requires
        0 <= index,
        2 * (index + 1) < usize::MAX,
        word < usize::MAX,
    ensures
        ({
            let name = name_of(index) as usize;
            &&& index_of(name) == index
            &&& name % 2 == 0 && name != 0
            &&& index == 0 <==> name == 2
            &&& !is_conflicting(name)
            &&& bound_block(name) == name
            &&& parking_of(name) == name
            &&& is_conflicting(marked(name))
            &&& bound_block(marked(name)) == name
            &&& parking_of(marked(name)) == 0
        }),
        is_conflicting(word) <==> word % 2 == 1,
        marked(marked(word)) == marked(word),
        usable(2) == 0,
        word != 2 ==> usable(word) == word,
{
}

/// A thread notes the lock that it took, where it noted none, and drops the note with that
/// lock alone; where nothing can be parked it notes nothing.
pub proof fn law_a_thread_notes_the_lock_it_took(held: usize, block: usize, possible: bool)
    ensures
        possible && held == 0 ==> held_after_lock(held, block, possible) == block,
        !possible || held != 0 ==> held_after_lock(held, block, possible) == held,
        possible && held == block ==> held_after_unlock(held, block, possible) == 0,
        !possible || held != block ==> held_after_unlock(held, block, possible) == held,
{
}

/// The block of destroyed locks has nobody parked and nobody to park: no broadcast wakes
/// anybody on it or moves anybody to it.
pub proof fn law_a_retired_block_parks_nobody(
    cond: CondState,
    arena: StagingArena,
    switches: CvSwitches,
    holds: bool,
)
    requires
        arena.wf(),
        cond.bound.word == 2,
    ensures
        retired_block().staged == 0,
        chain_wake(retired_block(), holds) == StageWake::Nobody,
        after_chain(retired_block(), holds) == retired_block(),
        cond.release(arena, switches) == CondAction::WakeAll,
{
}

} // verus!
