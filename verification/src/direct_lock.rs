//! The locks and condition variables that programs use by name. A handle is
//! `None` where there is none, and every call refuses it.
#![allow(non_camel_case_types)]
use vstd::prelude::*;

use crate::accordin_shared::admission;
use crate::accordin_shared::admission::AdmissionState;
use crate::accordin_shared::condvar;
use crate::accordin_shared::condvar::{
    CondAction, CondMutex, CondStaging, CondStagingBlock, CondStagingRef, CondState, CondWait, CvSwitches,
    StagingArena,
};
use crate::accordin_shared::direct_runtime;
use crate::accordin_shared::direct_runtime::{LockAction, LockStage};
use crate::accordin_shared::mutex_hook;
use crate::accordin_shared::mutex_hook::{AcquireAction, AcquireMode, HookCounters};
use crate::errno::{EBUSY, EINVAL};
use crate::lb_shared::admission::{UserAdmissionWord, WordFlags};
use crate::mcs;
use crate::mcs::McsLockRaw;
use crate::mcs_tas_accordin::McsTasLockRaw;

verus! {

// The queue lock.
pub struct mcs_accordin_direct_mutex {
    pub lock: McsLockRaw,
}

/// `address` tells the lock from others that a thread holds.
pub fn mcs_accordin_direct_mutex_create(address: usize) -> (r: Option<mcs_accordin_direct_mutex>)
    ensures
        r is Some,
        r->0.lock.address == address,
        r->0.lock.tail == mcs::NO_NODE,
{
    Some(mcs_accordin_direct_mutex { lock: McsLockRaw::new(address) })
}

pub fn mcs_accordin_direct_mutex_destroy(mutex: &mut Option<mcs_accordin_direct_mutex>) -> (r: i32)
    ensures
        *final(mutex) is None,
        r == if *old(mutex) is None {
            EINVAL
        } else {
            0
        },
{
    if mutex.is_none() {
        return EINVAL;
    }
    *mutex = None;
    0
}

/// Opens an acquisition.
pub fn mcs_accordin_direct_mutex_lock(
    mutex: &Option<mcs_accordin_direct_mutex>,
    state: &mut AdmissionState,
    enabled: bool,
) -> (r: Result<(LockStage, LockAction), i32>)
    requires
        *mutex is Some ==> old(state).depth < u32::MAX,
    ensures
        *mutex is None ==> r == Err::<(LockStage, LockAction), i32>(EINVAL) && *final(state)
            == *old(state),
        *mutex is Some ==> {
            let outer = enabled && old(state).depth == 0;
            &&& r == Ok::<(LockStage, LockAction), i32>(
                (LockStage::Trying { outer }, LockAction::TryLock),
            )
            &&& final(state).depth == old(state).depth + 1
            &&& final(state).word == if outer {
                admission::next_request(old(state).word)
            } else {
                old(state).word
            }
        },
{
    if mutex.is_none() {
        return Err(EINVAL);
    }
    Ok(direct_runtime::lock(state, enabled))
}

/// Takes the lock if it is free. A failed attempt opens no episode.
pub fn mcs_accordin_direct_mutex_trylock(
    mutex: &mut Option<mcs_accordin_direct_mutex>,
    memory: &mut mcs::NodeMemory,
    thread: &mut mcs::ThreadNodes,
    state: &mut AdmissionState,
    enabled: bool,
) -> (r: i32)
    requires
        old(thread).wf(),
        old(thread).fits(old(memory).nodes@),
        old(state).depth < u32::MAX,
    ensures
        final(thread).wf(),
        final(thread).first_node == old(thread).first_node,
        *old(mutex) is None ==> {
            &&& r == EINVAL
            &&& *final(mutex) is None
            &&& *final(memory) == *old(memory)
            &&& *final(thread) == *old(thread)
            &&& *final(state) == *old(state)
        },
        *old(mutex) is Some ==> {
            let free = old(mutex)->0.lock.tail == mcs::NO_NODE && old(thread).depth
                < mcs::MAX_THREAD_NODES;
            &&& r == if free {
                0
            } else {
                EBUSY
            }
            &&& *final(mutex) is Some
            &&& final(mutex)->0.lock.address == old(mutex)->0.lock.address
            &&& free ==> {
                let slot = mcs::first_free(old(thread).in_use@, 0);
                &&& final(mutex)->0.lock.tail != mcs::NO_NODE
                &&& final(mutex)->0.lock.tail == old(thread).first_node + slot
                &&& final(thread).in_use@ == old(thread).in_use@.update(slot, true)
                &&& final(thread).lock_owners@ == old(thread).lock_owners@.update(
                    slot,
                    old(mutex)->0.lock.address,
                )
                &&& final(thread).depth == old(thread).depth + 1
                &&& final(memory).nodes@ == mcs::node_set(
                    old(memory).nodes@,
                    final(mutex)->0.lock.tail,
                    mcs::fresh_node(false),
                )
                &&& final(state).depth == old(state).depth + 1
                &&& final(state).word == if enabled && old(state).depth == 0 {
                    admission::held_word(admission::next_request(old(state).word))
                } else {
                    old(state).word
                }
            }
            &&& !free ==> {
                &&& final(mutex)->0.lock.tail == old(mutex)->0.lock.tail
                &&& final(thread).in_use@ == old(thread).in_use@
                &&& final(thread).depth == old(thread).depth
                &&& *final(state) == *old(state)
            }
            &&& !free && old(thread).depth == mcs::MAX_THREAD_NODES ==> {
                &&& *final(thread) == *old(thread)
                &&& final(memory).nodes@ == old(memory).nodes@
            }
            &&& !free && old(thread).depth < mcs::MAX_THREAD_NODES ==> {
                // The node that was tried with is fresh, and no lock's again.
                let slot = mcs::first_free(old(thread).in_use@, 0);
                &&& final(thread).lock_owners@ == old(thread).lock_owners@.update(slot, 0)
                &&& final(memory).nodes@ == mcs::node_set(
                    old(memory).nodes@,
                    (old(thread).first_node + slot) as usize,
                    mcs::fresh_node(false),
                )
            }
        },
{
    match mutex {
        None => EINVAL,
        Some(mutex) => if mutex.lock.try_lock(memory, thread) {
            let outer: bool = admission::begin(state, enabled);
            admission::enter(state, outer);
            0
        } else {
            EBUSY
        },
    }
}

/// The nodes that a release reads are there.
pub open spec fn release_fits(
    lock: McsLockRaw,
    nodes: Seq<mcs::Node>,
    thread: mcs::ThreadNodes,
) -> bool {
    let node = (thread.first_node + mcs::slot_of(thread, lock.address, 0)) as usize;
    let next = mcs::node_at(nodes, node).next;
    &&& thread.wf()
    &&& thread.fits(nodes)
    &&& thread.holds(lock.address)
    &&& next == mcs::NO_NODE || mcs::is_node(nodes, next)
}

/// Releases the lock, and ends the episode where it is the last one. A release
/// that has to wait for its successor goes on later, `again`, and ends the episode
/// then.
pub fn mcs_accordin_direct_mutex_unlock(
    mutex: &mut Option<mcs_accordin_direct_mutex>,
    memory: &mut mcs::NodeMemory,
    thread: &mut mcs::ThreadNodes,
    state: &mut AdmissionState,
    enabled: bool,
    again: bool,
) -> (r: Result<mcs::UnlockPhase, i32>)
    requires
        *old(mutex) is Some ==> release_fits(
            old(mutex)->0.lock,
            old(memory).nodes@,
            *old(thread),
        ) && old(state).depth > 0,
    ensures
        final(thread).first_node == old(thread).first_node,
        *old(mutex) is None ==> {
            &&& r == Err::<mcs::UnlockPhase, i32>(EINVAL)
            &&& *final(mutex) is None
            &&& *final(memory) == *old(memory)
            &&& *final(thread) == *old(thread)
            &&& *final(state) == *old(state)
        },
        *old(mutex) is Some ==> {
            let lock = old(mutex)->0.lock;
            let slot = mcs::slot_of(*old(thread), lock.address, 0);
            let node = (old(thread).first_node + slot) as usize;
            let next = mcs::node_at(old(memory).nodes@, node).next;
            let waits = next == mcs::NO_NODE && (again || lock.tail != node);
            let phase = if waits {
                mcs::UnlockPhase::AwaitSuccessor
            } else {
                mcs::UnlockPhase::Done
            };
            &&& r == Ok::<mcs::UnlockPhase, i32>(phase)
            &&& *final(mutex) is Some
            &&& final(mutex)->0.lock.address == lock.address
            &&& final(mutex)->0.lock.tail == if !waits && next == mcs::NO_NODE {
                mcs::NO_NODE
            } else {
                lock.tail
            }
            &&& final(memory).nodes@ == mcs::released_nodes(
                old(memory).nodes@,
                node,
                next,
                phase,
            )
            &&& final(thread).wf()
            &&& final(thread).depth == old(thread).depth - if waits {
                0int
            } else {
                1
            }
            &&& final(thread).in_use@ == if waits {
                old(thread).in_use@
            } else {
                old(thread).in_use@.update(slot, false)
            }
            &&& final(thread).lock_owners@ == if waits {
                old(thread).lock_owners@
            } else {
                old(thread).lock_owners@.update(slot, 0)
            }
            &&& waits ==> *final(state) == *old(state)
            &&& !waits ==> final(state).depth == old(state).depth - 1 && final(state).word == if old(
                state,
            ).depth == 1 && enabled {
                old(state).word & !admission::FLAGS
            } else {
                old(state).word
            }
        },
{
    match mutex {
        None => Err(EINVAL),
        Some(mutex) => {
            let (_, phase): (usize, mcs::UnlockPhase) = if again {
                mutex.lock.unlock_await(memory, thread)
            } else {
                mutex.lock.unlock(memory, thread)
            };
            if phase == mcs::UnlockPhase::Done {
                admission::finish(state, enabled);
            }
            Ok(phase)
        },
    }
}

/// A thread that took the lock without holding it before can release it: `taken` is
/// what it knows of its nodes since.
pub proof fn law_a_taken_lock_can_be_released(
    lock: McsLockRaw,
    nodes: Seq<mcs::Node>,
    thread: mcs::ThreadNodes,
    taken: mcs::ThreadNodes,
)
    requires
        thread.wf(),
        thread.fits(nodes),
        thread.depth < mcs::MAX_THREAD_NODES,
        !thread.holds(lock.address),
        taken.wf(),
        taken.first_node == thread.first_node,
        ({
            let slot = mcs::first_free(thread.in_use@, 0);
            &&& taken.in_use@ == thread.in_use@.update(slot, true)
            &&& taken.lock_owners@ == thread.lock_owners@.update(slot, lock.address)
        }),
    ensures
        ({
            let node = (thread.first_node + mcs::first_free(thread.in_use@, 0)) as usize;
            release_fits(lock, mcs::node_set(nodes, node, mcs::fresh_node(false)), taken)
        }),
{
    reveal_with_fuel(mcs::slot_of, 5);
    reveal_with_fuel(mcs::first_free, 5);
    reveal_with_fuel(mcs::used, 5);
}

// The test-and-set lock with a condition variable.
pub struct mcs_tas_accordin_direct_mutex {
    pub lock: McsTasLockRaw,
    pub lock_id: u32,
    /// Waiters that a broadcast parked on this mutex.
    pub staging: CondStaging,
}

impl mcs_tas_accordin_direct_mutex {
    pub fn new(lock_id: u32) -> (r: Self)
        ensures
            !r.lock.locked,
            r.lock.tail == crate::mcs_tas_accordin::NO_NODE,
            r.lock_id == lock_id,
            r.staging.block == condvar::NO_BLOCK,
    {
        mcs_tas_accordin_direct_mutex {
            lock: McsTasLockRaw::new(),
            lock_id,
            staging: CondStaging::new(),
        }
    }

    /// The mutex as a wait sees it. The first wait makes its staging, if the run
    /// can park waiters at all.
    pub fn cond_mutex(&mut self, arena: &mut StagingArena, switches: &CvSwitches) -> (r: CondMutex)
        requires
            old(arena).wf(),
            switches.may_requeue() && old(self).staging.block == condvar::NO_BLOCK ==> old(
                arena,
            ).room(),
            old(self).staging.fits(*old(arena)),
        ensures
            final(arena).wf(),
            ({
                let (staging, blocks, block) = staged_by_wait(
                    old(self).staging.block,
                    old(arena).blocks@,
                    switches.may_requeue(),
                );
                &&& final(self).staging.block == staging
                &&& final(arena).blocks@ == blocks
                &&& condvar::is_name(blocks, block)
                &&& r == (CondMutex {
                    lock_id: old(self).lock_id,
                    admission_scoped: true,
                    staging: CondStagingRef { block },
                })
            }),
            final(self).lock == old(self).lock,
            final(self).lock_id == old(self).lock_id,
    {
        CondMutex::new(self.lock_id, true, self.staging.binding_handle(arena, switches))
    }
}

/// What a wait makes of its mutex's staging: the staging after it, the blocks after
/// it, and the block that the wait binds to.
pub open spec fn staged_by_wait(
    staging: usize,
    blocks: Seq<CondStagingBlock>,
    may_requeue: bool,
) -> (usize, Seq<CondStagingBlock>, usize) {
    if !may_requeue {
        (staging, blocks, condvar::NO_BLOCK)
    } else if staging != condvar::NO_BLOCK {
        (staging, blocks, condvar::usable(staging))
    } else {
        let name = condvar::name_of(blocks.len() as int) as usize;
        (
            name,
            blocks.push(CondStagingBlock { staged: 0, alive: true, references: 1 }),
            name,
        )
    }
}

/// Whether a wait can bind to a mutex's staging: there is room for a block where it
/// makes one, and for one more owner where the cond becomes one.
pub open spec fn wait_fits(
    cond: CondState,
    mutex: mcs_tas_accordin_direct_mutex,
    arena: StagingArena,
    switches: CvSwitches,
) -> bool {
    let name = mutex.staging.block;
    &&& switches.may_requeue() && name == condvar::NO_BLOCK ==> arena.room()
    &&& mutex.staging.fits(arena)
    &&& switches.may_requeue() && condvar::usable(name) != condvar::NO_BLOCK && cond.bound.word
        == 0 ==> arena.block(name).references < usize::MAX
}

/// What registering a waiter does to the cond, its mutex and the blocks.
pub open spec fn registered(
    cond: CondState,
    mutex: mcs_tas_accordin_direct_mutex,
    arena: StagingArena,
    counters: HookCounters,
    switches: CvSwitches,
    cond_after: CondState,
    mutex_after: mcs_tas_accordin_direct_mutex,
    arena_after: StagingArena,
    counters_after: HookCounters,
) -> bool {
    let (staging, blocks, block) = staged_by_wait(
        mutex.staging.block,
        arena.blocks@,
        switches.may_requeue(),
    );
    &&& cond_after.seq == cond.seq
    &&& cond_after.waiters == cond.waiters.wrapping_add(1)
    &&& mutex_after.staging.block == staging
    &&& mutex_after.lock == mutex.lock
    &&& mutex_after.lock_id == mutex.lock_id
    &&& condvar::bound_by(
        cond.bound.word,
        blocks,
        counters,
        block,
        cond_after.bound.word,
        arena_after.blocks@,
        counters_after,
    )
}

pub fn mcs_tas_accordin_direct_mutex_create(lock_id: u32) -> (r: Option<
    mcs_tas_accordin_direct_mutex,
>)
    ensures
        r is Some,
        !r->0.lock.locked,
        r->0.lock.tail == crate::mcs_tas_accordin::NO_NODE,
        r->0.lock_id == lock_id,
        r->0.staging.block == condvar::NO_BLOCK,
{
    Some(mcs_tas_accordin_direct_mutex::new(lock_id))
}

/// Destroys a mutex. The second part: all that are parked on it are to be woken.
pub fn mcs_tas_accordin_direct_mutex_destroy(
    mutex: &mut Option<mcs_tas_accordin_direct_mutex>,
    arena: &mut StagingArena,
) -> (r: (i32, bool))
    requires
        old(arena).wf(),
        *old(mutex) is Some ==> {
            let staging = old(mutex)->0.staging;
            &&& staging.fits(*old(arena))
            &&& condvar::usable(staging.block) != condvar::NO_BLOCK ==> old(arena).block(
                staging.block,
            ).references >= 1
        },
    ensures
        final(arena).wf(),
        *final(mutex) is None,
        *old(mutex) is None ==> r == (EINVAL, false) && final(arena).blocks@ == old(arena).blocks@,
        *old(mutex) is Some ==> {
            let name = old(mutex)->0.staging.block;
            let parked = condvar::usable(name) != condvar::NO_BLOCK && old(arena).block(
                name,
            ).staged != 0;
            &&& r == (0i32, parked)
            &&& final(arena).blocks@ == if condvar::usable(name) == condvar::NO_BLOCK {
                old(arena).blocks@
            } else {
                condvar::with_block(
                    old(arena).blocks@,
                    name,
                    CondStagingBlock {
                        staged: 0,
                        alive: false,
                        references: (old(arena).block(name).references - 1) as usize,
                    },
                )
            }
        },
{
    match mutex {
        None => (EINVAL, false),
        Some(taken) => {
            let wake: bool = taken.staging.destroy(arena);
            *mutex = None;
            (0, wake)
        },
    }
}

/// Where an acquisition begins.
pub fn mcs_tas_accordin_direct_mutex_lock(
    mutex: &Option<mcs_tas_accordin_direct_mutex>,
    token_consumed: bool,
) -> (r: Result<AcquireAction, i32>)
    ensures
        r == if *mutex is None {
            Err::<AcquireAction, i32>(EINVAL)
        } else {
            Ok(mutex_hook::first_acquire_action(AcquireMode::Normal, token_consumed))
        },
{
    if mutex.is_none() {
        return Err(EINVAL);
    }
    Ok(mutex_hook::lock_scope_with_stats(AcquireMode::Normal, token_consumed))
}

/// Takes the lock if it is free, and notes that the thread holds it.
pub fn mcs_tas_accordin_direct_mutex_trylock(
    mutex: &mut Option<mcs_tas_accordin_direct_mutex>,
    held: &mut usize,
    switches: &CvSwitches,
) -> (r: i32)
    ensures
        *old(mutex) is None ==> r == EINVAL && *final(mutex) is None && *final(held) == *old(held),
        *old(mutex) is Some ==> {
            let locked = old(mutex)->0.lock.locked;
            &&& *final(mutex) is Some
            &&& final(mutex)->0.lock.locked
            &&& final(mutex)->0.lock.tail == old(mutex)->0.lock.tail
            &&& final(mutex)->0.lock_id == old(mutex)->0.lock_id
            &&& final(mutex)->0.staging == old(mutex)->0.staging
            &&& r == if locked {
                EBUSY
            } else {
                0
            }
            &&& *final(held) == if locked {
                *old(held)
            } else {
                condvar::held_after_lock(
                    *old(held),
                    old(mutex)->0.staging.block,
                    switches.may_requeue(),
                )
            }
        },
{
    match mutex {
        None => EINVAL,
        Some(mutex) => if mutex.lock.try_lock() {
            mutex.staging.handle().publish_hold(held, switches);
            0
        } else {
            EBUSY
        },
    }
}

/// Releases the lock. `Ok` is the staging to release a parked waiter from, read
/// while the lock was held.
pub fn mcs_tas_accordin_direct_mutex_unlock(
    mutex: &mut Option<mcs_tas_accordin_direct_mutex>,
    held: &mut usize,
    switches: &CvSwitches,
    word: &mut UserAdmissionWord,
) -> (r: Result<CondStagingRef, i32>)
    ensures
        *old(mutex) is None ==> r == Err::<CondStagingRef, i32>(EINVAL) && *final(mutex) is None
            && *final(held) == *old(held) && final(word)@ == old(word)@,
        *old(mutex) is Some ==> {
            let block = old(mutex)->0.staging.block;
            &&& *final(mutex) is Some
            &&& !final(mutex)->0.lock.locked
            &&& final(mutex)->0.lock.tail == old(mutex)->0.lock.tail
            &&& final(mutex)->0.lock_id == old(mutex)->0.lock_id
            &&& final(mutex)->0.staging == old(mutex)->0.staging
            &&& r == Ok::<CondStagingRef, i32>(CondStagingRef { block })
            &&& *final(held) == condvar::held_after_unlock(
                *old(held),
                block,
                switches.may_requeue(),
            )
            &&& final(word)@ == (WordFlags { in_critical_section: false, ..old(word)@ })
        },
{
    match mutex {
        None => Err(EINVAL),
        Some(mutex) => {
            let staging: CondStagingRef = mutex.staging.handle();
            staging.clear_hold(held, switches);
            mutex.lock.unlock(word);
            Ok(staging)
        },
    }
}

pub struct mcs_tas_accordin_direct_cond {
    pub state: CondState,
}

pub fn mcs_tas_accordin_direct_cond_create() -> (r: Option<mcs_tas_accordin_direct_cond>)
    ensures
        r is Some,
        r->0.state.seq == 0,
        r->0.state.waiters == 0,
        r->0.state.bound.word == 0,
{
    Some(mcs_tas_accordin_direct_cond { state: CondState::new() })
}

pub fn mcs_tas_accordin_direct_cond_destroy(
    cond: &mut Option<mcs_tas_accordin_direct_cond>,
    arena: &mut StagingArena,
) -> (r: i32)
    requires
        old(arena).wf(),
        *old(cond) is Some ==> {
            let bound = old(cond)->0.state.bound;
            let name = condvar::bound_block(bound.word);
            &&& bound.fits(*old(arena))
            &&& name != condvar::RETIRED_BLOCK
            &&& name != condvar::NO_BLOCK ==> old(arena).block(name).references >= 1
        },
    ensures
        final(arena).wf(),
        *final(cond) is None,
        r == if *old(cond) is None {
            EINVAL
        } else {
            0
        },
        *old(cond) is None ==> final(arena).blocks@ == old(arena).blocks@,
        *old(cond) is Some ==> {
            let name = condvar::bound_block(old(cond)->0.state.bound.word);
            let block = old(arena).block(name);
            final(arena).blocks@ == if name == condvar::NO_BLOCK {
                old(arena).blocks@
            } else {
                condvar::with_block(
                    old(arena).blocks@,
                    name,
                    CondStagingBlock { references: (block.references - 1) as usize, ..block },
                )
            }
        },
{
    match cond {
        None => EINVAL,
        Some(taken) => {
            taken.state.bound.destroy(arena);
            *cond = None;
            0
        },
    }
}

/// Registers a waiter that holds `mutex`.
pub fn mcs_tas_accordin_direct_cond_wait(
    cond: &mut Option<mcs_tas_accordin_direct_cond>,
    mutex: &mut Option<mcs_tas_accordin_direct_mutex>,
    arena: &mut StagingArena,
    counters: &mut HookCounters,
    switches: &CvSwitches,
) -> (r: Result<CondWait, i32>)
    requires
        old(arena).wf(),
        *old(cond) is Some && *old(mutex) is Some ==> wait_fits(
            old(cond)->0.state,
            old(mutex)->0,
            *old(arena),
            *switches,
        ),
    ensures
        final(arena).wf(),
        *old(cond) is None || *old(mutex) is None ==> {
            &&& r == Err::<CondWait, i32>(EINVAL)
            &&& *final(cond) == *old(cond)
            &&& *final(mutex) == *old(mutex)
            &&& final(arena).blocks@ == old(arena).blocks@
            &&& *final(counters) == *old(counters)
        },
        *old(cond) is Some && *old(mutex) is Some ==> {
            &&& r == Ok::<CondWait, i32>(
                CondWait { seq: old(cond)->0.state.seq, slept: false, ret: 0 },
            )
            &&& *final(cond) is Some
            &&& *final(mutex) is Some
            &&& registered(
                old(cond)->0.state,
                old(mutex)->0,
                *old(arena),
                *old(counters),
                *switches,
                final(cond)->0.state,
                final(mutex)->0,
                *final(arena),
                *final(counters),
            )
        },
{
    match (cond, mutex) {
        (Some(cond), Some(mutex)) => {
            let bound: CondMutex = mutex.cond_mutex(arena, switches);
            Ok(condvar::wait_begin(&mut cond.state, arena, counters, bound))
        },
        _ => Err(EINVAL),
    }
}

/// Registers a waiter with a deadline. `abstime`: there is one.
pub fn mcs_tas_accordin_direct_cond_timedwait(
    cond: &mut Option<mcs_tas_accordin_direct_cond>,
    mutex: &mut Option<mcs_tas_accordin_direct_mutex>,
    abstime: bool,
    arena: &mut StagingArena,
    counters: &mut HookCounters,
    switches: &CvSwitches,
) -> (r: Result<CondWait, i32>)
    requires
        old(arena).wf(),
        abstime && *old(cond) is Some && *old(mutex) is Some ==> wait_fits(
            old(cond)->0.state,
            old(mutex)->0,
            *old(arena),
            *switches,
        ),
    ensures
        final(arena).wf(),
        !abstime || *old(cond) is None || *old(mutex) is None ==> {
            &&& r == Err::<CondWait, i32>(EINVAL)
            &&& *final(cond) == *old(cond)
            &&& *final(mutex) == *old(mutex)
            &&& final(arena).blocks@ == old(arena).blocks@
            &&& *final(counters) == *old(counters)
        },
        abstime && *old(cond) is Some && *old(mutex) is Some ==> {
            &&& r == Ok::<CondWait, i32>(
                CondWait { seq: old(cond)->0.state.seq, slept: false, ret: 0 },
            )
            &&& *final(cond) is Some
            &&& *final(mutex) is Some
            &&& registered(
                old(cond)->0.state,
                old(mutex)->0,
                *old(arena),
                *old(counters),
                *switches,
                final(cond)->0.state,
                final(mutex)->0,
                *final(arena),
                *final(counters),
            )
        },
{
    if !abstime {
        return Err(EINVAL);
    }
    mcs_tas_accordin_direct_cond_wait(cond, mutex, arena, counters, switches)
}

pub fn mcs_tas_accordin_direct_cond_signal(cond: &mut Option<mcs_tas_accordin_direct_cond>) -> (r:
    Result<CondAction, i32>)
    ensures
        *old(cond) is None ==> r == Err::<CondAction, i32>(EINVAL) && *final(cond) is None,
        *old(cond) is Some ==> {
            let waiting = old(cond)->0.state.waiters != 0;
            &&& *final(cond) is Some
            &&& r == Ok::<CondAction, i32>(
                if waiting {
                    CondAction::WakeOne
                } else {
                    CondAction::Nothing
                },
            )
            &&& final(cond)->0.state == if waiting {
                condvar::bumped(condvar::one_less(old(cond)->0.state))
            } else {
                old(cond)->0.state
            }
        },
{
    match cond {
        None => Err(EINVAL),
        Some(cond) => Ok(cond.state.signal()),
    }
}

pub fn mcs_tas_accordin_direct_cond_broadcast(
    cond: &mut Option<mcs_tas_accordin_direct_cond>,
    arena: &StagingArena,
    switches: &CvSwitches,
) -> (r: Result<CondAction, i32>)
    requires
        arena.wf(),
        *old(cond) is Some ==> old(cond)->0.state.fits(*arena),
    ensures
        *old(cond) is None ==> r == Err::<CondAction, i32>(EINVAL) && *final(cond) is None,
        *old(cond) is Some ==> {
            let before = old(cond)->0.state;
            &&& *final(cond) is Some
            &&& before.waiters == 0 ==> r == Ok::<CondAction, i32>(CondAction::Nothing)
                && final(cond)->0.state == before
            &&& before.waiters != 0 ==> {
                &&& final(cond)->0.state == condvar::bumped(CondState { waiters: 0, ..before })
                &&& r == Ok::<CondAction, i32>(final(cond)->0.state.release(*arena, *switches))
            }
        },
{
    match cond {
        None => Err(EINVAL),
        Some(cond) => Ok(cond.state.broadcast(arena, switches)),
    }
}

/// What a wait makes of its mutex's staging: nothing where nobody can be parked, and else a
/// block of its own, made by the first wait and kept for the later ones. A destroyed
/// mutex has none.
pub proof fn law_a_mutex_has_one_block(staging: usize, blocks: Seq<CondStagingBlock>)
    requires
        2 * (blocks.len() + 1) <= usize::MAX,
    ensures
        staged_by_wait(staging, blocks, false) == (staging, blocks, 0usize),
        staging > 2 ==> staged_by_wait(staging, blocks, true) == (staging, blocks, staging),
        staged_by_wait(2, blocks, true) == (2usize, blocks, 0usize),
        ({
            let (made, after, block) = staged_by_wait(0, blocks, true);
            &&& made == block == 2 * (blocks.len() + 1)
            &&& after.len() == blocks.len() + 1
            &&& after.last().alive && after.last().staged == 0 && after.last().references == 1
            &&& forall|i: int| 0 <= i < blocks.len() ==> #[trigger] after[i] == blocks[i]
        }),
{
}

/// Registering a waiter adds one to the waiters of the cond, and leaves the word that they
/// sleep on, the lock and its class alone.
pub proof fn law_a_waiter_is_registered_once(
    cond: CondState,
    mutex: mcs_tas_accordin_direct_mutex,
    arena: StagingArena,
    counters: HookCounters,
    switches: CvSwitches,
    cond_after: CondState,
    mutex_after: mcs_tas_accordin_direct_mutex,
    arena_after: StagingArena,
    counters_after: HookCounters,
)
    requires
        registered(
            cond,
            mutex,
            arena,
            counters,
            switches,
            cond_after,
            mutex_after,
            arena_after,
            counters_after,
        ),
        cond.waiters < u32::MAX,
        2 * (arena.blocks@.len() + 1) <= usize::MAX,
    ensures
        cond_after.waiters == cond.waiters + 1,
        cond_after.seq == cond.seq,
        mutex_after.lock == mutex.lock,
        mutex_after.lock_id == mutex.lock_id,
        mutex.staging.block != 0 ==> mutex_after.staging.block == mutex.staging.block,
        !switches.may_requeue() ==> {
            &&& cond_after.bound.word == cond.bound.word
            &&& arena_after.blocks@ == arena.blocks@
            &&& mutex_after.staging.block == mutex.staging.block
            &&& counters_after == counters
        },
        switches.may_requeue() && mutex.staging.block == 0 && cond.bound.word == 0 ==> {
            &&& cond_after.bound.word == mutex_after.staging.block
            &&& arena_after.blocks@.len() == arena.blocks@.len() + 1
            &&& arena_after.blocks@.last().alive
            &&& arena_after.blocks@.last().references == 2
        },
{
}

} // verus!
