//! What a thread sums up of its locks over an epoch, and the slot in which it
//! publishes the sums.
//!
//! Each slot has one writer, and a reader that must not see half of a write: the
//! slot's sequence number is odd while a write is under way, and a reader that
//! finds it odd, or changed, reads again.
use vstd::prelude::*;

use crate::errno::EBUSY;
use crate::install::INSTALLING;
use crate::text;

verus! {

pub const MAX_SLOTS: u32 = 1024;

pub const DEFAULT_EPOCH_NS: u64 = 20_000_000;

pub const NS_PER_MS: u64 = 1_000_000;

/// A slot as its reader sees it.
#[derive(Clone, Copy, Debug, PartialEq, Eq, Structural)]
pub struct EpochSlot {
    pub tid: u32,
    pub tgid: u32,
    pub slot_id: u32,
    pub epoch_id: u32,
    pub lock_domain_id: u32,
    pub wait_ns: u64,
    pub hold_ns: u64,
    pub park_ns: u64,
    pub contended_acq: u64,
    pub park_count: u64,
    /// Odd while a write is under way.
    pub seq: u64,
    pub flags: u64,
}

/// The sums of an epoch.
#[derive(Clone, Copy, Debug, PartialEq, Eq, Structural)]
pub struct EpochSums {
    pub epoch_id: u32,
    pub wait_ns: u64,
    pub hold_ns: u64,
    pub park_ns: u64,
    pub contended_acq: u64,
    pub park_count: u64,
}

/// The sums of a thread, and the times that are running.
#[derive(Clone, Copy, Debug, PartialEq, Eq, Structural)]
pub struct EpochState {
    pub wait_ns: u64,
    pub hold_ns: u64,
    pub park_ns: u64,
    pub contended_acq: u64,
    pub park_count: u64,
    /// When the thread began to spin, to hold the lock and to sleep; 0: it does
    /// not.
    pub spin_start_ns: u64,
    pub lock_start_ns: u64,
    pub park_start_ns: u64,
    pub epoch_id: u32,
    pub epoch_start_ns: u64,
    pub epoch_ns: u64,
    /// Whether the thread has a slot to publish in.
    pub has_slot: bool,
    pub slot_id: u32,
    pub tid: u32,
    pub tgid: u32,
}

/// The slot of a thread. The first one belongs to nobody.
pub open spec fn slot_of(tid: u32) -> int {
    tid as int % (MAX_SLOTS - 1) + 1
}

pub fn slot_id(tid: u32) -> (r: u32)
    ensures
        r == slot_of(tid),
        1 <= r < MAX_SLOTS,
{
    tid % (MAX_SLOTS - 1) + 1
}

/// A new slot's header.
pub fn init_slot(slot: &mut EpochSlot, tid: u32, tgid: u32)
    ensures
        *final(slot) == (EpochSlot {
            tid,
            tgid,
            slot_id: slot_of(tid) as u32,
            seq: 0,
            ..*old(slot)
        }),
{
    slot.tid = tid;
    slot.tgid = tgid;
    slot.slot_id = slot_id(tid);
    slot.seq = 0;
}

/// The sums of a state.
pub open spec fn sums_of(state: EpochState) -> EpochSums {
    EpochSums {
        epoch_id: state.epoch_id,
        wait_ns: state.wait_ns,
        hold_ns: state.hold_ns,
        park_ns: state.park_ns,
        contended_acq: state.contended_acq,
        park_count: state.park_count,
    }
}

/// A state at the start of its next epoch.
pub open spec fn next_epoch(state: EpochState, now: u64) -> EpochState {
    EpochState {
        wait_ns: 0,
        hold_ns: 0,
        park_ns: 0,
        contended_acq: 0,
        park_count: 0,
        epoch_id: state.epoch_id.wrapping_add(1),
        epoch_start_ns: now,
        ..state
    }
}

/// The time since `start`, or none where the clock went back.
pub open spec fn since(start: u64, now: u64) -> int {
    if now > start {
        now - start
    } else {
        0
    }
}

/// A state once the lock was taken, before the epoch is looked at.
pub open spec fn with_acquisition(state: EpochState, was_contended: bool, now: u64) -> EpochState {
    let waited = was_contended && state.spin_start_ns != 0;
    EpochState {
        wait_ns: if waited {
            (state.wait_ns + since(state.spin_start_ns, now)) as u64
        } else {
            state.wait_ns
        },
        spin_start_ns: if waited {
            0
        } else {
            state.spin_start_ns
        },
        lock_start_ns: now,
        ..state
    }
}

/// Whether the epoch of a state is over.
pub open spec fn epoch_over(state: EpochState, now: u64) -> bool {
    since(state.epoch_start_ns, now) >= state.epoch_ns
}

impl EpochState {
    pub fn new(tid: u32, tgid: u32, epoch_ns: u64, now: u64, has_slot: bool) -> (r: Self)
        ensures
            r == (EpochState {
                wait_ns: 0,
                hold_ns: 0,
                park_ns: 0,
                contended_acq: 0,
                park_count: 0,
                spin_start_ns: 0,
                lock_start_ns: 0,
                park_start_ns: 0,
                epoch_id: 0,
                epoch_start_ns: now,
                epoch_ns,
                has_slot,
                slot_id: slot_of(tid) as u32,
                tid,
                tgid,
            }),
    {
        EpochState {
            wait_ns: 0,
            hold_ns: 0,
            park_ns: 0,
            contended_acq: 0,
            park_count: 0,
            spin_start_ns: 0,
            lock_start_ns: 0,
            park_start_ns: 0,
            epoch_id: 0,
            epoch_start_ns: now,
            epoch_ns,
            has_slot,
            slot_id: slot_id(tid),
            tid,
            tgid,
        }
    }

    /// Whether every sum can take what came up by `now`.
    pub fn has_room(&self, now: u64) -> (r: bool)
        ensures
            r == self.room(now),
    {
        let waited: u64 = if self.spin_start_ns != 0 {
            now.saturating_sub(self.spin_start_ns)
        } else {
            0
        };
        let held: u64 = if self.lock_start_ns != 0 {
            now.saturating_sub(self.lock_start_ns)
        } else {
            0
        };
        let parked: u64 = if self.park_start_ns != 0 {
            now.saturating_sub(self.park_start_ns)
        } else {
            0
        };
        self.wait_ns <= u64::MAX - waited && self.hold_ns <= u64::MAX - held && self.park_ns
            <= u64::MAX - parked && self.contended_acq < u64::MAX && self.park_count < u64::MAX
    }

    pub open spec fn room(self, now: u64) -> bool {
        &&& self.spin_start_ns != 0 ==> self.wait_ns + since(self.spin_start_ns, now) <= u64::MAX
        &&& self.lock_start_ns != 0 ==> self.hold_ns + since(self.lock_start_ns, now) <= u64::MAX
        &&& self.park_start_ns != 0 ==> self.park_ns + since(self.park_start_ns, now) <= u64::MAX
        &&& self.contended_acq < u64::MAX
        &&& self.park_count < u64::MAX
    }

    /// The lock was found taken.
    pub fn on_contention_start(&mut self, now: u64)
        requires
            old(self).contended_acq < u64::MAX,
        ensures
            *final(self) == (EpochState {
                spin_start_ns: now,
                contended_acq: (old(self).contended_acq + 1) as u64,
                ..*old(self)
            }),
    {
        self.spin_start_ns = now;
        self.contended_acq = self.contended_acq + 1;
    }

    /// The lock is taken. `Some`: the epoch is over, and its sums are to be
    /// published.
    pub fn on_lock_acquired(&mut self, was_contended: bool, now: u64) -> (r: Option<EpochSums>)
        requires
            was_contended && old(self).spin_start_ns != 0 ==> old(self).wait_ns + since(
                old(self).spin_start_ns,
                now,
            ) <= u64::MAX,
        ensures
            ({
                let taken = with_acquisition(*old(self), was_contended, now);
                if epoch_over(taken, now) {
                    &&& *final(self) == next_epoch(taken, now)
                    &&& r == if old(self).has_slot {
                        Some(sums_of(taken))
                    } else {
                        None
                    }
                } else {
                    *final(self) == taken && r is None
                }
            }),
    {
        if was_contended && self.spin_start_ns != 0 {
            self.wait_ns = self.wait_ns + now.saturating_sub(self.spin_start_ns);
            self.spin_start_ns = 0;
        }
        self.lock_start_ns = now;
        self.maybe_flush_epoch(now)
    }

    /// The lock is released.
    pub fn on_lock_released(&mut self, now: u64)
        requires
            old(self).lock_start_ns != 0 ==> old(self).hold_ns + since(old(self).lock_start_ns, now)
                <= u64::MAX,
        ensures
            *final(self) == if old(self).lock_start_ns == 0 {
                *old(self)
            } else {
                EpochState {
                    hold_ns: (old(self).hold_ns + since(old(self).lock_start_ns, now)) as u64,
                    lock_start_ns: 0,
                    ..*old(self)
                }
            },
    {
        if self.lock_start_ns != 0 {
            self.hold_ns = self.hold_ns + now.saturating_sub(self.lock_start_ns);
            self.lock_start_ns = 0;
        }
    }

    /// The thread goes to sleep.
    pub fn on_park_start(&mut self, now: u64)
        ensures
            *final(self) == (EpochState { park_start_ns: now, ..*old(self) }),
    {
        self.park_start_ns = now;
    }

    /// The thread was woken.
    pub fn on_park_end(&mut self, now: u64)
        requires
            old(self).park_start_ns != 0 ==> old(self).park_ns + since(old(self).park_start_ns, now)
                <= u64::MAX && old(self).park_count < u64::MAX,
        ensures
            *final(self) == if old(self).park_start_ns == 0 {
                *old(self)
            } else {
                EpochState {
                    park_ns: (old(self).park_ns + since(old(self).park_start_ns, now)) as u64,
                    park_count: (old(self).park_count + 1) as u64,
                    park_start_ns: 0,
                    ..*old(self)
                }
            },
    {
        if self.park_start_ns != 0 {
            self.park_ns = self.park_ns + now.saturating_sub(self.park_start_ns);
            self.park_count = self.park_count + 1;
            self.park_start_ns = 0;
        }
    }

    fn maybe_flush_epoch(&mut self, now: u64) -> (r: Option<EpochSums>)
        ensures
            if epoch_over(*old(self), now) {
                &&& *final(self) == next_epoch(*old(self), now)
                &&& r == if old(self).has_slot {
                    Some(sums_of(*old(self)))
                } else {
                    None
                }
            } else {
                *final(self) == *old(self) && r is None
            },
    {
        if now.saturating_sub(self.epoch_start_ns) < self.epoch_ns {
            return None;
        }
        self.flush_and_reset(now)
    }

    /// Starts the next epoch, and returns the sums of the last one where they can
    /// be published.
    pub fn flush_and_reset(&mut self, now: u64) -> (r: Option<EpochSums>)
        ensures
            *final(self) == next_epoch(*old(self), now),
            r == if old(self).has_slot {
                Some(sums_of(*old(self)))
            } else {
                None
            },
    {
        let sums: Option<EpochSums> = if self.has_slot {
            Some(
                EpochSums {
                    epoch_id: self.epoch_id,
                    wait_ns: self.wait_ns,
                    hold_ns: self.hold_ns,
                    park_ns: self.park_ns,
                    contended_acq: self.contended_acq,
                    park_count: self.park_count,
                },
            )
        } else {
            None
        };
        self.wait_ns = 0;
        self.hold_ns = 0;
        self.park_ns = 0;
        self.contended_acq = 0;
        self.park_count = 0;
        self.epoch_id = self.epoch_id.wrapping_add(1);
        self.epoch_start_ns = now;
        sums
    }
}

// Writing a slot.
/// How far a write got. `seq` is the number that the slot had before.
#[derive(Clone, Copy, Debug, PartialEq, Eq, Structural)]
pub enum WritePhase {
    Begin,
    /// `index` values are written.
    Values { seq: u64, index: usize },
    Domain { seq: u64 },
    Commit { seq: u64 },
    Done,
}

/// The number that says that a write is under way.
pub open spec fn odd(seq: u64) -> u64 {
    seq | 1
}

/// One access of a write.
pub open spec fn write_stepped(slot: EpochSlot, phase: WritePhase, sums: EpochSums) -> (
    EpochSlot,
    WritePhase,
) {
    match phase {
        WritePhase::Begin => (
            EpochSlot { seq: odd(slot.seq), ..slot },
            WritePhase::Values { seq: slot.seq, index: 0 },
        ),
        WritePhase::Values { seq, index } => match index {
            0 => (
                EpochSlot { epoch_id: sums.epoch_id, ..slot },
                WritePhase::Values { seq, index: 1 },
            ),
            1 => (
                EpochSlot { wait_ns: sums.wait_ns, ..slot },
                WritePhase::Values { seq, index: 2 },
            ),
            2 => (
                EpochSlot { hold_ns: sums.hold_ns, ..slot },
                WritePhase::Values { seq, index: 3 },
            ),
            3 => (
                EpochSlot { park_ns: sums.park_ns, ..slot },
                WritePhase::Values { seq, index: 4 },
            ),
            4 => (
                EpochSlot { contended_acq: sums.contended_acq, ..slot },
                WritePhase::Values { seq, index: 5 },
            ),
            _ => (
                EpochSlot { park_count: sums.park_count, ..slot },
                WritePhase::Domain { seq },
            ),
        },
        WritePhase::Domain { seq } => (
            EpochSlot { lock_domain_id: 0, ..slot },
            WritePhase::Commit { seq },
        ),
        WritePhase::Commit { seq } => (
            EpochSlot { seq: seq.wrapping_add(2), ..slot },
            WritePhase::Done,
        ),
        WritePhase::Done => (slot, WritePhase::Done),
    }
}

pub fn write_step(slot: &mut EpochSlot, phase: WritePhase, sums: &EpochSums) -> (r: WritePhase)
    ensures
        (*final(slot), r) == write_stepped(*old(slot), phase, *sums),
{
    match phase {
        WritePhase::Begin => {
            let seq: u64 = slot.seq;
            slot.seq = seq | 1;
            WritePhase::Values { seq, index: 0 }
        },
        WritePhase::Values { seq, index } => match index {
            0 => {
                slot.epoch_id = sums.epoch_id;
                WritePhase::Values { seq, index: 1 }
            },
            1 => {
                slot.wait_ns = sums.wait_ns;
                WritePhase::Values { seq, index: 2 }
            },
            2 => {
                slot.hold_ns = sums.hold_ns;
                WritePhase::Values { seq, index: 3 }
            },
            3 => {
                slot.park_ns = sums.park_ns;
                WritePhase::Values { seq, index: 4 }
            },
            4 => {
                slot.contended_acq = sums.contended_acq;
                WritePhase::Values { seq, index: 5 }
            },
            _ => {
                slot.park_count = sums.park_count;
                WritePhase::Domain { seq }
            },
        },
        WritePhase::Domain { seq } => {
            slot.lock_domain_id = 0;
            WritePhase::Commit { seq }
        },
        WritePhase::Commit { seq } => {
            slot.seq = seq.wrapping_add(2);
            WritePhase::Done
        },
        WritePhase::Done => WritePhase::Done,
    }
}

/// The whole write.
pub fn write_slot_seqlock(slot: &mut EpochSlot, sums: &EpochSums)
    ensures
        *final(slot) == (EpochSlot {
            epoch_id: sums.epoch_id,
            wait_ns: sums.wait_ns,
            hold_ns: sums.hold_ns,
            park_ns: sums.park_ns,
            contended_acq: sums.contended_acq,
            park_count: sums.park_count,
            lock_domain_id: 0,
            seq: old(slot).seq.wrapping_add(2),
            ..*old(slot)
        }),
{
    let p: WritePhase = write_step(slot, WritePhase::Begin, sums);
    let p: WritePhase = write_step(slot, p, sums);
    let p: WritePhase = write_step(slot, p, sums);
    let p: WritePhase = write_step(slot, p, sums);
    let p: WritePhase = write_step(slot, p, sums);
    let p: WritePhase = write_step(slot, p, sums);
    let p: WritePhase = write_step(slot, p, sums);
    let p: WritePhase = write_step(slot, p, sums);
    let _ = write_step(slot, p, sums);
}

// Reading a slot.
/// What a reader took from a slot.
#[derive(Clone, Copy, Debug, PartialEq, Eq, Structural)]
pub struct EpochSnapshot {
    pub tid: u32,
    pub tgid: u32,
    pub slot_id: u32,
    pub epoch_id: u32,
    pub wait_ns: u64,
    pub hold_ns: u64,
    pub park_ns: u64,
    pub contended_acq: u64,
    pub park_count: u64,
}

impl Default for EpochSnapshot {
    fn default() -> (r: Self)
        ensures
            r == no_snapshot(),
    {
        EpochSnapshot {
            tid: 0,
            tgid: 0,
            slot_id: 0,
            epoch_id: 0,
            wait_ns: 0,
            hold_ns: 0,
            park_ns: 0,
            contended_acq: 0,
            park_count: 0,
        }
    }
}

pub open spec fn no_snapshot() -> EpochSnapshot {
    EpochSnapshot {
        tid: 0,
        tgid: 0,
        slot_id: 0,
        epoch_id: 0,
        wait_ns: 0,
        hold_ns: 0,
        park_ns: 0,
        contended_acq: 0,
        park_count: 0,
    }
}

/// A slot, all at once.
pub open spec fn snapshot_of(slot: EpochSlot) -> EpochSnapshot {
    EpochSnapshot {
        tid: slot.tid,
        tgid: slot.tgid,
        slot_id: slot.slot_id,
        epoch_id: slot.epoch_id,
        wait_ns: slot.wait_ns,
        hold_ns: slot.hold_ns,
        park_ns: slot.park_ns,
        contended_acq: slot.contended_acq,
        park_count: slot.park_count,
    }
}

/// How far a read got. `seq` is the number that the slot had when it began.
#[derive(Clone, Copy, Debug, PartialEq, Eq, Structural)]
pub enum ReadPhase {
    Begin,
    /// `index` values are read.
    Values { seq: u64, index: usize, snapshot: EpochSnapshot },
    Check { seq: u64, snapshot: EpochSnapshot },
    Done { snapshot: EpochSnapshot },
}

/// One access of a read.
pub open spec fn read_stepped(slot: EpochSlot, phase: ReadPhase) -> ReadPhase {
    match phase {
        ReadPhase::Begin => if slot.seq % 2 != 0 {
            ReadPhase::Begin
        } else {
            ReadPhase::Values { seq: slot.seq, index: 0, snapshot: no_snapshot() }
        },
        ReadPhase::Values { seq, index, snapshot } => match index {
            0 => ReadPhase::Values {
                seq,
                index: 1,
                snapshot: EpochSnapshot { tid: slot.tid, ..snapshot },
            },
            1 => ReadPhase::Values {
                seq,
                index: 2,
                snapshot: EpochSnapshot { tgid: slot.tgid, ..snapshot },
            },
            2 => ReadPhase::Values {
                seq,
                index: 3,
                snapshot: EpochSnapshot { slot_id: slot.slot_id, ..snapshot },
            },
            3 => ReadPhase::Values {
                seq,
                index: 4,
                snapshot: EpochSnapshot { epoch_id: slot.epoch_id, ..snapshot },
            },
            4 => ReadPhase::Values {
                seq,
                index: 5,
                snapshot: EpochSnapshot { wait_ns: slot.wait_ns, ..snapshot },
            },
            5 => ReadPhase::Values {
                seq,
                index: 6,
                snapshot: EpochSnapshot { hold_ns: slot.hold_ns, ..snapshot },
            },
            6 => ReadPhase::Values {
                seq,
                index: 7,
                snapshot: EpochSnapshot { park_ns: slot.park_ns, ..snapshot },
            },
            7 => ReadPhase::Values {
                seq,
                index: 8,
                snapshot: EpochSnapshot { contended_acq: slot.contended_acq, ..snapshot },
            },
            _ => ReadPhase::Check {
                seq,
                snapshot: EpochSnapshot { park_count: slot.park_count, ..snapshot },
            },
        },
        ReadPhase::Check { seq, snapshot } => if slot.seq == seq {
            ReadPhase::Done { snapshot }
        } else {
            ReadPhase::Begin
        },
        ReadPhase::Done { snapshot } => phase,
    }
}

pub fn read_step(slot: &EpochSlot, phase: ReadPhase) -> (r: ReadPhase)
    ensures
        r == read_stepped(*slot, phase),
{
    match phase {
        ReadPhase::Begin => if slot.seq % 2 != 0 {
            ReadPhase::Begin
        } else {
            ReadPhase::Values { seq: slot.seq, index: 0, snapshot: EpochSnapshot::default() }
        },
        ReadPhase::Values { seq, index, snapshot } => {
            let mut taken: EpochSnapshot = snapshot;
            match index {
                0 => {
                    taken.tid = slot.tid;
                    ReadPhase::Values { seq, index: 1, snapshot: taken }
                },
                1 => {
                    taken.tgid = slot.tgid;
                    ReadPhase::Values { seq, index: 2, snapshot: taken }
                },
                2 => {
                    taken.slot_id = slot.slot_id;
                    ReadPhase::Values { seq, index: 3, snapshot: taken }
                },
                3 => {
                    taken.epoch_id = slot.epoch_id;
                    ReadPhase::Values { seq, index: 4, snapshot: taken }
                },
                4 => {
                    taken.wait_ns = slot.wait_ns;
                    ReadPhase::Values { seq, index: 5, snapshot: taken }
                },
                5 => {
                    taken.hold_ns = slot.hold_ns;
                    ReadPhase::Values { seq, index: 6, snapshot: taken }
                },
                6 => {
                    taken.park_ns = slot.park_ns;
                    ReadPhase::Values { seq, index: 7, snapshot: taken }
                },
                7 => {
                    taken.contended_acq = slot.contended_acq;
                    ReadPhase::Values { seq, index: 8, snapshot: taken }
                },
                _ => {
                    taken.park_count = slot.park_count;
                    ReadPhase::Check { seq, snapshot: taken }
                },
            }
        },
        ReadPhase::Check { seq, snapshot } => if slot.seq == seq {
            ReadPhase::Done { snapshot }
        } else {
            ReadPhase::Begin
        },
        ReadPhase::Done { snapshot } => ReadPhase::Done { snapshot },
    }
}

// The writer and a reader together.
/// A slot with its writer and one reader.
pub struct Seqlock {
    pub slot: EpochSlot,
    pub writing: WritePhase,
    pub sums: EpochSums,
    pub reading: ReadPhase,
}

pub enum SeqlockMove {
    /// The writer begins to write the next sums.
    Begin { sums: EpochSums },
    Write,
    Read,
}

pub open spec fn seqlock_moved(s: Seqlock, m: SeqlockMove) -> Seqlock {
    match m {
        SeqlockMove::Begin { sums } => if s.writing == WritePhase::Done && s.slot.seq
            < u64::MAX - 2 {
            Seqlock { writing: WritePhase::Begin, sums, ..s }
        } else {
            s
        },
        SeqlockMove::Write => {
            let (slot, writing) = write_stepped(s.slot, s.writing, s.sums);
            Seqlock { slot, writing, ..s }
        },
        SeqlockMove::Read => Seqlock { reading: read_stepped(s.slot, s.reading), ..s },
    }
}

/// The number of the slot, by how far the writer is.
pub open spec fn number_fits(s: Seqlock) -> bool {
    match s.writing {
        WritePhase::Begin => s.slot.seq % 2 == 0 && s.slot.seq < u64::MAX - 2,
        WritePhase::Values { seq, .. } => seq % 2 == 0 && seq < u64::MAX - 2 && s.slot.seq == seq
            + 1,
        WritePhase::Domain { seq } => seq % 2 == 0 && seq < u64::MAX - 2 && s.slot.seq == seq + 1,
        WritePhase::Commit { seq } => seq % 2 == 0 && seq < u64::MAX - 2 && s.slot.seq == seq + 1,
        WritePhase::Done => s.slot.seq % 2 == 0,
    }
}

/// What a reader has read is what the slot still holds, as long as its number has
/// not changed.
pub open spec fn read_fits(s: Seqlock, seq: u64, index: int, snapshot: EpochSnapshot) -> bool {
    &&& seq % 2 == 0
    &&& seq <= s.slot.seq
    &&& s.slot.seq == seq ==> {
        &&& index > 0 ==> snapshot.tid == s.slot.tid
        &&& index > 1 ==> snapshot.tgid == s.slot.tgid
        &&& index > 2 ==> snapshot.slot_id == s.slot.slot_id
        &&& index > 3 ==> snapshot.epoch_id == s.slot.epoch_id
        &&& index > 4 ==> snapshot.wait_ns == s.slot.wait_ns
        &&& index > 5 ==> snapshot.hold_ns == s.slot.hold_ns
        &&& index > 6 ==> snapshot.park_ns == s.slot.park_ns
        &&& index > 7 ==> snapshot.contended_acq == s.slot.contended_acq
        &&& index > 8 ==> snapshot.park_count == s.slot.park_count
    }
}

pub open spec fn seqlock_ok(s: Seqlock) -> bool {
    &&& number_fits(s)
    &&& match s.reading {
        ReadPhase::Values { seq, index, snapshot } => index <= 8 && read_fits(
            s,
            seq,
            index as int,
            snapshot,
        ),
        ReadPhase::Check { seq, snapshot } => read_fits(s, seq, 9, snapshot),
        _ => true,
    }
}

/// Whoever goes on next, a read that is not overtaken by a write has what the slot
/// holds.
pub proof fn law_reads_follow_the_slot(s: Seqlock, m: SeqlockMove)
    requires
        seqlock_ok(s),
    ensures
        seqlock_ok(seqlock_moved(s, m)),
{
    let seq = s.slot.seq;
    assert(seq % 2 == 0 ==> seq | 1 == seq + 1) by (bit_vector);
}

/// A read that ends has all of one write: what the slot holds at that moment, with
/// no write under way that changed any of it.
pub proof fn law_a_read_sees_one_write(s: Seqlock)
    requires
        seqlock_ok(s),
        s.reading is Check,
        read_stepped(s.slot, s.reading) is Done,
    ensures
        read_stepped(s.slot, s.reading)->Done_snapshot == snapshot_of(s.slot),
        s.writing == WritePhase::Begin || s.writing == WritePhase::Done,
{
}

// Settings.
/// How long an epoch is, by a number of milliseconds.
pub open spec fn epoch_ns_of(value: Option<&str>) -> int {
    match value {
        Some(value) => match text::unsigned(value@, u64::MAX as int) {
            Some(ms) => ms * NS_PER_MS,
            None => DEFAULT_EPOCH_NS as int,
        },
        None => DEFAULT_EPOCH_NS as int,
    }
}

/// `None`: the epoch would be longer than can be counted.
pub fn checked_epoch_ns(value: Option<&str>) -> (r: Option<u64>)
    ensures
        match r {
            Some(ns) => ns == epoch_ns_of(value),
            None => epoch_ns_of(value) > u64::MAX,
        },
{
    match value {
        None => Some(DEFAULT_EPOCH_NS),
        Some(value) => {
            let chars: Vec<char> = text::chars_of(value);
            assert(chars@.subrange(0, chars@.len() as int) =~= value@);
            match text::parse_unsigned(&chars, 0, chars.len(), u64::MAX) {
                None => Some(DEFAULT_EPOCH_NS),
                Some(ms) => ms.checked_mul(NS_PER_MS),
            }
        },
    }
}

pub fn epoch_ns_from_env(value: Option<&str>) -> (r: u64)
    requires
        epoch_ns_of(value) <= u64::MAX,
    ensures
        r == epoch_ns_of(value),
{
    match checked_epoch_ns(value) {
        Some(ns) => ns,
        None => 0,
    }
}

/// The descriptor of the slots, where one was passed on. A negative number counts
/// as none.
pub open spec fn slot_fd_of(value: Option<&str>) -> Option<int> {
    match value {
        Some(value) => {
            let s = text::trim(value@);
            if s.len() > 0 && s[0] == '-' {
                let body = s.subrange(1, s.len() as int);
                if body.len() > 0 && body[0] != '+' && text::unsigned(body, 0) is Some {
                    Some(0)
                } else {
                    None
                }
            } else {
                text::unsigned(s, i32::MAX as int)
            }
        },
        None => None,
    }
}

pub fn slot_fd_from_env(value: Option<&str>) -> (r: Option<i32>)
    ensures
        match r {
            Some(fd) => slot_fd_of(value) == Some(fd as int),
            None => slot_fd_of(value) is None,
        },
{
    match value {
        None => None,
        Some(value) => {
            let chars: Vec<char> = text::chars_of(value);
            assert(chars@.subrange(0, chars@.len() as int) =~= value@);
            let range: (usize, usize) = text::trim_range(&chars, 0, chars.len());
            let ghost s = chars@.subrange(range.0 as int, range.1 as int);
            if range.0 < range.1 && chars[range.0] == '-' {
                let start: usize = range.0 + 1;
                assert(s.subrange(1, s.len() as int) =~= chars@.subrange(
                    start as int,
                    range.1 as int,
                ));
                if start < range.1 && chars[start] != '+' {
                    match text::parse_unsigned(&chars, start, range.1, 0) {
                        Some(_) => Some(0),
                        None => None,
                    }
                } else {
                    None
                }
            } else {
                match text::parse_unsigned(&chars, range.0, range.1, i32::MAX as u64) {
                    Some(fd) => Some(fd as i32),
                    None => None,
                }
            }
        },
    }
}

/// The size of a mapping: as many pages as `size` bytes take.
pub fn mmap_size(size: usize, page: usize) -> (r: usize)
    requires
        page > 0,
        size + page - 1 <= usize::MAX,
    ensures
        r as int % page as int == 0,
        size <= r < size + page,
{
    let pages: usize = (size + (page - 1)) / page;
    proof {
        let total = (size + (page - 1)) as int;
        vstd::arithmetic::div_mod::lemma_fundamental_div_mod(total, page as int);
        vstd::arithmetic::div_mod::lemma_mod_bound(total, page as int);
        vstd::arithmetic::mul::lemma_mul_is_commutative(page as int, pages as int);
        vstd::arithmetic::div_mod::lemma_mod_multiples_basic(pages as int, page as int);
    }
    pages * page
}

// The hooks that sum up.
/// What the hook of a lock does next.
#[derive(Clone, Copy, Debug, PartialEq, Eq, Structural)]
pub enum LockAction {
    /// Try the lock; the answer is whether that took it.
    TryLock,
    ContentionStart,
    Lock,
    Acquired { was_contended: bool },
    Done,
}

/// What follows `done`. The time of waiting begins before the lock is waited for.
pub fn pthread_mutex_lock(done: LockAction, answer: bool) -> (r: LockAction)
    ensures
        r == match done {
            LockAction::TryLock => if answer {
                LockAction::Acquired { was_contended: false }
            } else {
                LockAction::ContentionStart
            },
            LockAction::ContentionStart => LockAction::Lock,
            LockAction::Lock => LockAction::Acquired { was_contended: true },
            LockAction::Acquired { .. } => LockAction::Done,
            LockAction::Done => LockAction::Done,
        },
{
    match done {
        LockAction::TryLock => if answer {
            LockAction::Acquired { was_contended: false }
        } else {
            LockAction::ContentionStart
        },
        LockAction::ContentionStart => LockAction::Lock,
        LockAction::Lock => LockAction::Acquired { was_contended: true },
        LockAction::Acquired { .. } => LockAction::Done,
        LockAction::Done => LockAction::Done,
    }
}

/// What the hook of a cond wait does next.
#[derive(Clone, Copy, Debug, PartialEq, Eq, Structural)]
pub enum WaitAction {
    /// Take the mutex that the real condition variable goes with, before the lock
    /// is released: a signal in between is not lost.
    LockReal,
    Released,
    Unlock,
    ParkStart,
    RealWait,
    ParkEnd,
    UnlockReal,
    ContentionStart,
    Lock,
    Acquired,
    Done,
}

pub fn pthread_cond_wait(done: WaitAction) -> (r: WaitAction)
    ensures
        r == match done {
            WaitAction::LockReal => WaitAction::Released,
            WaitAction::Released => WaitAction::Unlock,
            WaitAction::Unlock => WaitAction::ParkStart,
            WaitAction::ParkStart => WaitAction::RealWait,
            WaitAction::RealWait => WaitAction::ParkEnd,
            WaitAction::ParkEnd => WaitAction::UnlockReal,
            WaitAction::UnlockReal => WaitAction::ContentionStart,
            WaitAction::ContentionStart => WaitAction::Lock,
            WaitAction::Lock => WaitAction::Acquired,
            WaitAction::Acquired => WaitAction::Done,
            WaitAction::Done => WaitAction::Done,
        },
{
    match done {
        WaitAction::LockReal => WaitAction::Released,
        WaitAction::Released => WaitAction::Unlock,
        WaitAction::Unlock => WaitAction::ParkStart,
        WaitAction::ParkStart => WaitAction::RealWait,
        WaitAction::RealWait => WaitAction::ParkEnd,
        WaitAction::ParkEnd => WaitAction::UnlockReal,
        WaitAction::UnlockReal => WaitAction::ContentionStart,
        WaitAction::ContentionStart => WaitAction::Lock,
        WaitAction::Lock => WaitAction::Acquired,
        WaitAction::Acquired => WaitAction::Done,
        WaitAction::Done => WaitAction::Done,
    }
}

/// What trying the lock returns.
pub fn pthread_mutex_trylock(acquired: bool) -> (r: i32)
    ensures
        r == if acquired {
            0
        } else {
            EBUSY
        },
{
    if acquired {
        0
    } else {
        EBUSY
    }
}

/// Whether the word of a mutex has a state, so that there is something to release
/// or to destroy.
pub fn has_state(word: usize) -> (r: bool)
    ensures
        r == (word > INSTALLING),
{
    word > INSTALLING
}

// What the sums are, by the times that go in.
/// A lock that was waited for adds the time from when the wait began to its acquisition,
/// and no more on the next acquisition. One that was not waited for adds nothing. Holding
/// begins with the acquisition.
pub proof fn law_an_acquisition_adds_the_time_waited(
    state: EpochState,
    was_contended: bool,
    now: u64,
    later: u64,
)
    requires
        state.wait_ns + now <= u64::MAX,
    ensures
        ({
            let taken = with_acquisition(state, was_contended, now);
            let again = with_acquisition(taken, was_contended, later);
            &&& was_contended && 0 < state.spin_start_ns <= now ==> taken.wait_ns + state.spin_start_ns
                == state.wait_ns + now
            &&& state.spin_start_ns > now ==> taken.wait_ns == state.wait_ns
            &&& !was_contended || state.spin_start_ns == 0 ==> taken.wait_ns == state.wait_ns
                && taken.spin_start_ns == state.spin_start_ns
            &&& was_contended ==> taken.spin_start_ns == 0 && again.wait_ns == taken.wait_ns
            &&& taken.lock_start_ns == now
            &&& taken.hold_ns == state.hold_ns
            &&& taken.park_ns == state.park_ns
            &&& taken.contended_acq == state.contended_acq
            &&& taken.park_count == state.park_count
            &&& taken.epoch_id == state.epoch_id
            &&& taken.epoch_start_ns == state.epoch_start_ns
            &&& taken.epoch_ns == state.epoch_ns
        }),
{
}

/// The time that ran since a start, added to that start, is now.
pub proof fn law_elapsed_time_leads_from_start_to_now(start: u64, now: u64)
    ensures
        start <= now ==> start + since(start, now) == now,
        start > now ==> since(start, now) == 0,
{
}

/// An epoch is over once its length has passed since its start, and not before.
pub proof fn law_an_epoch_lasts_its_length(state: EpochState, now: u64)
    ensures
        state.epoch_ns > 0 ==> (epoch_over(state, now) <==> now >= state.epoch_start_ns
            + state.epoch_ns),
        state.epoch_ns == 0 ==> epoch_over(state, now),
{
}

/// The next epoch starts now, from nothing, under the next number; what is running goes
/// on running in it. A slot that an epoch is published in takes its sums as they were.
pub proof fn law_an_epoch_starts_from_nothing(state: EpochState, now: u64)
    ensures
        ({
            let next = next_epoch(state, now);
            let sums = sums_of(state);
            &&& next.wait_ns == 0 && next.hold_ns == 0 && next.park_ns == 0
            &&& next.contended_acq == 0 && next.park_count == 0
            &&& next.epoch_start_ns == now
            &&& state.epoch_id < u32::MAX ==> next.epoch_id == state.epoch_id + 1
            &&& state.epoch_id == u32::MAX ==> next.epoch_id == 0
            &&& next.spin_start_ns == state.spin_start_ns
            &&& next.lock_start_ns == state.lock_start_ns
            &&& next.park_start_ns == state.park_start_ns
            &&& next.epoch_ns == state.epoch_ns
            &&& next.tid == state.tid && next.tgid == state.tgid
            &&& next.has_slot == state.has_slot && next.slot_id == state.slot_id
            &&& sums.epoch_id == state.epoch_id
            &&& sums.wait_ns == state.wait_ns
            &&& sums.hold_ns == state.hold_ns
            &&& sums.park_ns == state.park_ns
            &&& sums.contended_acq == state.contended_acq
            &&& sums.park_count == state.park_count
        }),
{
}

/// What a reader takes from a slot is each of its values under its own name.
pub proof fn law_a_snapshot_names_each_value(slot: EpochSlot)
    ensures
        ({
            let taken = snapshot_of(slot);
            &&& taken.tid == slot.tid && taken.tgid == slot.tgid && taken.slot_id == slot.slot_id
            &&& taken.epoch_id == slot.epoch_id
            &&& taken.wait_ns == slot.wait_ns
            &&& taken.hold_ns == slot.hold_ns
            &&& taken.park_ns == slot.park_ns
            &&& taken.contended_acq == slot.contended_acq
            &&& taken.park_count == slot.park_count
        }),
{
}

/// Every thread has a slot other than the first. Threads share one only where their
/// numbers are at least 1023 apart, and those that are just that far apart do.
pub proof fn law_near_threads_have_slots_of_their_own(tid: u32, other: u32)
    ensures
        1 <= slot_of(tid) < 1024,
        tid < other < tid + 1023 ==> slot_of(tid) != slot_of(other),
        other == tid + 1023 ==> slot_of(tid) == slot_of(other),
{
}

/// The length of an epoch is set in milliseconds, and is twenty of them where it is not.
pub proof fn law_an_epoch_is_set_in_milliseconds(value: &str, ms: nat)
    requires
        value@ == text::decimal(ms),
        ms <= u64::MAX,
    ensures
        epoch_ns_of(Some(value)) == ms * 1_000_000,
        epoch_ns_of(None) == 20_000_000,
{
    text::law_a_number_reads_as_it_was_written(ms, u64::MAX as int);
}

/// A descriptor that is set is the number that is written, where that is one; a negative
/// number, and one that no descriptor can have, count as none.
pub proof fn law_a_descriptor_is_what_is_written(value: &str, n: nat)
    ensures
        value@ == text::decimal(n) ==> slot_fd_of(Some(value)) == if n <= i32::MAX {
            Some(n as int)
        } else {
            None
        },
        value@ == seq!['-'] + text::decimal(n) && n > 0 ==> slot_fd_of(Some(value)) is None,
        slot_fd_of(None) is None,
{
    let empty = Seq::<char>::empty();
    text::lemma_decimal(n);
    text::law_a_number_reads_as_it_was_written(n, i32::MAX as int);
    text::law_a_number_reads_as_it_was_written(n, 0);
    if value@ == text::decimal(n) {
        text::law_trimming_leaves_the_text(empty, value@, empty);
        assert(text::is_digit(value@[0]));
    }
    if value@ == seq!['-'] + text::decimal(n) {
        assert(value@[0] == '-');
        assert(value@[value@.len() - 1] == text::decimal(n)[text::decimal(n).len() - 1]);
        text::law_trimming_leaves_the_text(empty, value@, empty);
        assert(value@.subrange(1, value@.len() as int) =~= text::decimal(n));
    }
}

/// The sums have room for what came up as long as that and they can be counted: a time that
/// is not running takes none, and a clock that went back takes none either.
pub proof fn law_sums_have_room_while_they_can_be_counted(state: EpochState, now: u64)
    requires
        state.contended_acq < u64::MAX,
        state.park_count < u64::MAX,
    ensures
        state.wait_ns + now <= u64::MAX && state.hold_ns + now <= u64::MAX && state.park_ns + now
            <= u64::MAX ==> state.room(now),
        state.spin_start_ns == 0 && state.lock_start_ns == 0 && state.park_start_ns == 0
            ==> state.room(now),
        0 < state.spin_start_ns <= now && state.wait_ns + now - state.spin_start_ns > u64::MAX
            ==> !state.room(now),
        0 < state.lock_start_ns <= now && state.hold_ns + now - state.lock_start_ns > u64::MAX
            ==> !state.room(now),
        0 < state.park_start_ns <= now && state.park_ns + now - state.park_start_ns > u64::MAX
            ==> !state.room(now),
{
}

} // verus!
