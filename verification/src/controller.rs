//! The controller that loads the scheduler, watches the workload and reads the
//! epoch slots.
use vstd::prelude::*;

use crate::epoch;
use crate::epoch::{EpochSlot, EpochSnapshot, ReadPhase};
use crate::text;

verus! {

pub const NS_PER_MS: u64 = 1_000_000;

/// What the command line chose.
#[derive(Clone, Copy, Debug, PartialEq, Eq, Structural)]
pub struct Tuning {
    pub partial: bool,
    pub epoch_ms: u64,
    pub control_ms: u64,
    pub enter_pct: u32,
    pub exit_pct: u32,
    pub min_contended: u32,
    pub hot_epochs: u32,
    pub cool_epochs: u32,
    pub max_ssc: u32,
}

impl Default for Tuning {
    fn default() -> (r: Self)
        ensures
            r == (Tuning {
                partial: false,
                epoch_ms: 20,
                control_ms: 100,
                enter_pct: 10,
                exit_pct: 5,
                min_contended: 64,
                hot_epochs: 3,
                cool_epochs: 5,
                max_ssc: 32,
            }),
    {
        Tuning {
            partial: false,
            epoch_ms: 20,
            control_ms: 100,
            enter_pct: 10,
            exit_pct: 5,
            min_contended: 64,
            hot_epochs: 3,
            cool_epochs: 5,
            max_ssc: 32,
        }
    }
}

/// The configuration that the scheduler starts with.
#[derive(Clone, Copy, Debug, PartialEq, Eq, Structural)]
pub struct UlockConfig {
    pub epoch_ns: u64,
    pub control_period_ns: u64,
    pub enter_threshold_pct: u32,
    pub exit_threshold_pct: u32,
    pub min_contended_acq: u32,
    pub hot_epochs_needed: u32,
    pub cool_epochs_needed: u32,
    pub ssc_width: u32,
    pub max_ssc_width: u32,
    pub partial_mode: u32,
    pub ssc_gen: u32,
}

/// Whether the times can be counted in nanoseconds.
pub fn times_fit(tuning: &Tuning) -> (r: bool)
    ensures
        r == (tuning.epoch_ms * NS_PER_MS <= u64::MAX && tuning.control_ms * NS_PER_MS
            <= u64::MAX),
{
    tuning.epoch_ms <= u64::MAX / NS_PER_MS && tuning.control_ms <= u64::MAX / NS_PER_MS
}

pub fn write_initial_config(tuning: &Tuning) -> (r: UlockConfig)
    requires
        tuning.epoch_ms * NS_PER_MS <= u64::MAX,
        tuning.control_ms * NS_PER_MS <= u64::MAX,
    ensures
        r.epoch_ns == tuning.epoch_ms * NS_PER_MS,
        r.control_period_ns == tuning.control_ms * NS_PER_MS,
        r.enter_threshold_pct == tuning.enter_pct,
        r.exit_threshold_pct == tuning.exit_pct,
        r.min_contended_acq == tuning.min_contended,
        r.hot_epochs_needed == tuning.hot_epochs,
        r.cool_epochs_needed == tuning.cool_epochs,
        r.ssc_width == 0,
        r.max_ssc_width == tuning.max_ssc,
        r.partial_mode == if tuning.partial {
            1u32
        } else {
            0
        },
        r.ssc_gen == 0,
{
    UlockConfig {
        epoch_ns: tuning.epoch_ms * NS_PER_MS,
        control_period_ns: tuning.control_ms * NS_PER_MS,
        enter_threshold_pct: tuning.enter_pct,
        exit_threshold_pct: tuning.exit_pct,
        min_contended_acq: tuning.min_contended,
        hot_epochs_needed: tuning.hot_epochs,
        cool_epochs_needed: tuning.cool_epochs,
        ssc_width: 0,
        max_ssc_width: tuning.max_ssc,
        partial_mode: if tuning.partial {
            1
        } else {
            0
        },
        ssc_gen: 0,
    }
}

#[derive(Clone, Copy, Debug, PartialEq, Eq, Structural)]
pub enum LogLevel {
    Warn,
    Info,
    Debug,
}

pub fn log_level(debug: bool, verbose: bool) -> (r: LogLevel)
    ensures
        r == if debug {
            LogLevel::Debug
        } else if verbose {
            LogLevel::Info
        } else {
            LogLevel::Warn
        },
{
    if debug {
        LogLevel::Debug
    } else if verbose {
        LogLevel::Info
    } else {
        LogLevel::Warn
    }
}

// Reading the slots.
/// How far the slot at hand is read.
#[derive(Clone, Copy, Debug, PartialEq, Eq, Structural)]
pub enum SlotRead {
    /// About to look whether a thread has it.
    Look,
    Reading { phase: ReadPhase },
}

/// Reads all slots in order, while their writers go on.
pub struct EpochReader {
    /// The slot at hand.
    pub index: usize,
    pub slot: SlotRead,
    pub snapshots: Vec<EpochSnapshot>,
}

impl EpochReader {
    pub fn new() -> (r: Self)
        ensures
            r.index == 0,
            r.slot == SlotRead::Look,
            r.snapshots@ == Seq::<EpochSnapshot>::empty(),
    {
        EpochReader { index: 0, slot: SlotRead::Look, snapshots: Vec::new() }
    }

    /// One access to the slot at hand, which holds `slot` now. A slot that no
    /// thread has is passed over; one that a write overtakes is read again.
    pub fn collect_step(&mut self, slot: &EpochSlot)
        requires
            old(self).index < usize::MAX,
        ensures
            match old(self).slot {
                SlotRead::Look => {
                    &&& final(self).snapshots@ == old(self).snapshots@
                    &&& final(self).index == old(self).index + if slot.tid == 0 {
                        1int
                    } else {
                        0
                    }
                    &&& final(self).slot == if slot.tid == 0 {
                        SlotRead::Look
                    } else {
                        SlotRead::Reading { phase: ReadPhase::Begin }
                    }
                },
                SlotRead::Reading { phase } => match epoch::read_stepped(*slot, phase) {
                    ReadPhase::Done { snapshot } => {
                        &&& final(self).snapshots@ == old(self).snapshots@.push(snapshot)
                        &&& final(self).index == old(self).index + 1
                        &&& final(self).slot == SlotRead::Look
                    },
                    next => {
                        &&& final(self).snapshots@ == old(self).snapshots@
                        &&& final(self).index == old(self).index
                        &&& final(self).slot == (SlotRead::Reading { phase: next })
                    },
                },
            },
    {
        match self.slot {
            SlotRead::Look => if slot.tid == 0 {
                self.index = self.index + 1;
            } else {
                self.slot = SlotRead::Reading { phase: ReadPhase::Begin };
            },
            SlotRead::Reading { phase } => match epoch::read_step(slot, phase) {
                ReadPhase::Done { snapshot } => {
                    self.snapshots.push(snapshot);
                    self.index = self.index + 1;
                    self.slot = SlotRead::Look;
                },
                next => {
                    self.slot = SlotRead::Reading { phase: next };
                },
            },
        }
    }
}

/// A slot that some thread has, and no write is under way in.
pub open spec fn is_still(slot: EpochSlot) -> bool {
    slot.tid == 0 || slot.seq % 2 == 0
}

/// The snapshots of the slots that threads have, in order.
pub open spec fn collected(slots: Seq<EpochSlot>) -> Seq<EpochSnapshot>
    decreases slots.len(),
{
    if slots.len() == 0 {
        Seq::empty()
    } else if slots.last().tid == 0 {
        collected(slots.drop_last())
    } else {
        collected(slots.drop_last()).push(epoch::snapshot_of(slots.last()))
    }
}

/// Takes a snapshot of each slot that some thread has, where no write is under way.
pub fn collect(slots: &Vec<EpochSlot>) -> (r: Vec<EpochSnapshot>)
    requires
        forall|i: int| 0 <= i < slots@.len() ==> is_still(#[trigger] slots@[i]),
    ensures
        r@ == collected(slots@),
{
    let mut out: Vec<EpochSnapshot> = Vec::new();
    let mut i: usize = 0;
    assert(slots@.take(0) =~= Seq::<EpochSlot>::empty());
    while i < slots.len()
        invariant
            i <= slots@.len(),
            forall|k: int| 0 <= k < slots@.len() ==> is_still(#[trigger] slots@[k]),
            out@ == collected(slots@.take(i as int)),
        decreases slots@.len() - i,
    {
        let slot: EpochSlot = slots[i];
        assert(is_still(slots@[i as int]));
        assert(slots@.take(i as int + 1).drop_last() =~= slots@.take(i as int));
        if slot.tid != 0 {
            out.push(read_still(&slot));
        }
        i += 1;
    }
    assert(slots@.take(i as int) =~= slots@);
    out
}

/// Reads a slot that no write is under way in.
fn read_still(slot: &EpochSlot) -> (r: EpochSnapshot)
    requires
        slot.seq % 2 == 0,
    ensures
        r == epoch::snapshot_of(*slot),
{
    let p: ReadPhase = epoch::read_step(slot, ReadPhase::Begin);
    let p: ReadPhase = epoch::read_step(slot, p);
    let p: ReadPhase = epoch::read_step(slot, p);
    let p: ReadPhase = epoch::read_step(slot, p);
    let p: ReadPhase = epoch::read_step(slot, p);
    let p: ReadPhase = epoch::read_step(slot, p);
    let p: ReadPhase = epoch::read_step(slot, p);
    let p: ReadPhase = epoch::read_step(slot, p);
    let p: ReadPhase = epoch::read_step(slot, p);
    let p: ReadPhase = epoch::read_step(slot, p);
    match epoch::read_step(slot, p) {
        ReadPhase::Done { snapshot } => snapshot,
        _ => EpochSnapshot::default(),
    }
}

/// The sums over all threads.
#[derive(Clone, Copy, Debug, PartialEq, Eq, Structural)]
pub struct Totals {
    pub threads: u64,
    pub wait_ns: u64,
    pub hold_ns: u64,
    pub park_ns: u64,
    pub contended_acq: u64,
}

pub ghost struct TotalsOf {
    pub wait_ns: int,
    pub hold_ns: int,
    pub park_ns: int,
    pub contended_acq: int,
}

pub open spec fn totals_of(snapshots: Seq<EpochSnapshot>) -> TotalsOf
    decreases snapshots.len(),
{
    if snapshots.len() == 0 {
        TotalsOf { wait_ns: 0, hold_ns: 0, park_ns: 0, contended_acq: 0 }
    } else {
        let before = totals_of(snapshots.drop_last());
        let last = snapshots.last();
        TotalsOf {
            wait_ns: before.wait_ns + last.wait_ns,
            hold_ns: before.hold_ns + last.hold_ns,
            park_ns: before.park_ns + last.park_ns,
            contended_acq: before.contended_acq + last.contended_acq,
        }
    }
}

pub open spec fn totals_fit(totals: TotalsOf) -> bool {
    &&& totals.wait_ns <= u64::MAX
    &&& totals.hold_ns <= u64::MAX
    &&& totals.park_ns <= u64::MAX
    &&& totals.contended_acq <= u64::MAX
}

proof fn lemma_totals_grow(snapshots: Seq<EpochSnapshot>, n: int)
    requires
        0 <= n <= snapshots.len(),
    ensures
        0 <= totals_of(snapshots.take(n)).wait_ns <= totals_of(snapshots).wait_ns,
        0 <= totals_of(snapshots.take(n)).hold_ns <= totals_of(snapshots).hold_ns,
        0 <= totals_of(snapshots.take(n)).park_ns <= totals_of(snapshots).park_ns,
        0 <= totals_of(snapshots.take(n)).contended_acq <= totals_of(snapshots).contended_acq,
    decreases snapshots.len(), snapshots.len() - n,
{
    if n < snapshots.len() {
        assert(snapshots.take(n + 1).drop_last() =~= snapshots.take(n));
        lemma_totals_grow(snapshots, n + 1);
        lemma_totals_grow(snapshots.take(n), n);
        assert(snapshots.take(n).take(n) =~= snapshots.take(n));
    } else {
        assert(snapshots.take(n) =~= snapshots);
        if n > 0 {
            lemma_totals_grow(snapshots.drop_last(), n - 1);
            assert(snapshots.drop_last().take(n - 1) =~= snapshots.drop_last());
        }
    }
}

/// The sums over all threads; `None`: one of them is too large to be counted.
pub fn checked_totals(snapshots: &Vec<EpochSnapshot>) -> (r: Option<Totals>)
    ensures
        ({
            let sums = totals_of(snapshots@);
            match r {
                Some(totals) => {
                    &&& totals_fit(sums)
                    &&& totals.threads == snapshots@.len()
                    &&& totals.wait_ns == sums.wait_ns
                    &&& totals.hold_ns == sums.hold_ns
                    &&& totals.park_ns == sums.park_ns
                    &&& totals.contended_acq == sums.contended_acq
                },
                None => !totals_fit(sums),
            }
        }),
{
    let mut totals: Totals = Totals {
        threads: snapshots.len() as u64,
        wait_ns: 0,
        hold_ns: 0,
        park_ns: 0,
        contended_acq: 0,
    };
    let mut i: usize = 0;
    assert(snapshots@.take(0) =~= Seq::<EpochSnapshot>::empty());
    while i < snapshots.len()
        invariant
            i <= snapshots@.len(),
            totals.threads == snapshots@.len(),
            totals.wait_ns == totals_of(snapshots@.take(i as int)).wait_ns,
            totals.hold_ns == totals_of(snapshots@.take(i as int)).hold_ns,
            totals.park_ns == totals_of(snapshots@.take(i as int)).park_ns,
            totals.contended_acq == totals_of(snapshots@.take(i as int)).contended_acq,
        decreases snapshots@.len() - i,
    {
        let snapshot: EpochSnapshot = snapshots[i];
        proof {
            assert(snapshots@.take(i as int + 1).drop_last() =~= snapshots@.take(i as int));
            lemma_totals_grow(snapshots@, i as int + 1);
        }
        match (
            totals.wait_ns.checked_add(snapshot.wait_ns),
            totals.hold_ns.checked_add(snapshot.hold_ns),
            totals.park_ns.checked_add(snapshot.park_ns),
            totals.contended_acq.checked_add(snapshot.contended_acq),
        ) {
            (Some(wait_ns), Some(hold_ns), Some(park_ns), Some(contended_acq)) => {
                totals.wait_ns = wait_ns;
                totals.hold_ns = hold_ns;
                totals.park_ns = park_ns;
                totals.contended_acq = contended_acq;
            },
            _ => {
                return None;
            },
        }
        i += 1;
    }
    assert(snapshots@.take(i as int) =~= snapshots@);
    Some(totals)
}

/// What a control iteration reports.
pub open spec fn tick_text(totals: Totals) -> Seq<char> {
    "epoch: threads="@ + text::decimal(totals.threads as nat) + " wait_ns="@ + text::decimal(
        totals.wait_ns as nat,
    ) + " hold_ns="@ + text::decimal(totals.hold_ns as nat) + " park_ns="@ + text::decimal(
        totals.park_ns as nat,
    ) + " contended_acq="@ + text::decimal(totals.contended_acq as nat)
}

/// Runs one control iteration over the slots: `Some` is what it reports, where it
/// is to report anything.
pub fn tick(snapshots: &Vec<EpochSnapshot>, verbose: bool) -> (r: Option<String>)
    requires
        totals_fit(totals_of(snapshots@)),
    ensures
        r is Some == (verbose && snapshots@.len() > 0),
        r is Some ==> r->0@ == tick_text(
            (Totals {
                threads: snapshots@.len() as u64,
                wait_ns: totals_of(snapshots@).wait_ns as u64,
                hold_ns: totals_of(snapshots@).hold_ns as u64,
                park_ns: totals_of(snapshots@).park_ns as u64,
                contended_acq: totals_of(snapshots@).contended_acq as u64,
            }),
        ),
{
    if snapshots.len() == 0 || !verbose {
        return None;
    }
    match checked_totals(snapshots) {
        None => None,
        Some(totals) => {
            let mut out: String = "epoch: threads=".to_owned();
            text::append_decimal(&mut out, totals.threads);
            out.append(" wait_ns=");
            text::append_decimal(&mut out, totals.wait_ns);
            out.append(" hold_ns=");
            text::append_decimal(&mut out, totals.hold_ns);
            out.append(" park_ns=");
            text::append_decimal(&mut out, totals.park_ns);
            out.append(" contended_acq=");
            text::append_decimal(&mut out, totals.contended_acq);
            Some(out)
        },
    }
}

// Watching the workload.
/// What a status that the kernel reports of a child means.
#[derive(Clone, Copy, Debug, PartialEq, Eq, Structural)]
pub enum ChildStatus {
    Stopped,
    Exited { status: i32 },
    Signaled { signal: i32 },
    Other,
}

/// `libc::WIFSTOPPED`: the low byte of a status is 0x7f if the child is stopped,
/// and only then.
#[verifier::external_body]
fn wifstopped(status: i32) -> (r: bool)
    ensures
        r == (status & 0xff == 0x7f),
{
    libc::WIFSTOPPED(status)
}

/// `libc::WIFEXITED`: the low seven bits of a status are 0 if the child exited, and
/// only then.
#[verifier::external_body]
fn wifexited(status: i32) -> (r: bool)
    ensures
        r == (status & 0x7f == 0),
{
    libc::WIFEXITED(status)
}

/// `libc::WEXITSTATUS`: the second byte of a status is what the child exited with.
#[verifier::external_body]
fn wexitstatus(status: i32) -> (r: i32)
    ensures
        r == (status >> 8) & 0xff,
{
    libc::WEXITSTATUS(status)
}

/// `libc::WIFSIGNALED`: the low seven bits of a status are a signal's number,
/// neither 0 nor all ones, if the child was killed, and only then.
#[verifier::external_body]
fn wifsignaled(status: i32) -> (r: bool)
    ensures
        r == (status & 0x7f != 0 && status & 0x7f != 0x7f),
{
    libc::WIFSIGNALED(status)
}

/// `libc::WTERMSIG`: the low seven bits of a status are the number of the signal
/// that killed the child.
#[verifier::external_body]
fn wtermsig(status: i32) -> (r: i32)
    ensures
        r == status & 0x7f,
{
    libc::WTERMSIG(status)
}

pub open spec fn status_meaning(status: i32) -> ChildStatus {
    if status & 0xff == 0x7f {
        ChildStatus::Stopped
    } else if status & 0x7f == 0 {
        ChildStatus::Exited { status: (status >> 8) & 0xff }
    } else if status & 0x7f != 0x7f {
        ChildStatus::Signaled { signal: status & 0x7f }
    } else {
        ChildStatus::Other
    }
}

pub fn child_status(status: i32) -> (r: ChildStatus)
    ensures
        r == status_meaning(status),
{
    if wifstopped(status) {
        ChildStatus::Stopped
    } else if wifexited(status) {
        ChildStatus::Exited { status: wexitstatus(status) }
    } else if wifsignaled(status) {
        ChildStatus::Signaled { signal: wtermsig(status) }
    } else {
        ChildStatus::Other
    }
}

/// What follows a wait for a child that is to stop before it runs.
#[derive(Clone, Copy, Debug, PartialEq, Eq, Structural)]
pub enum StopWait {
    Again,
    Stopped,
    WaitFailed,
    Exited { status: i32 },
    Signaled { signal: i32 },
}

/// `ret` is what the wait returned, `interrupted` why, if it failed, and `status`
/// what it reported of the child, if it did not.
pub fn wait_for_child_stop(ret: i32, interrupted: bool, status: i32) -> (r: StopWait)
    ensures
        r == if ret < 0 {
            if interrupted {
                StopWait::Again
            } else {
                StopWait::WaitFailed
            }
        } else {
            match status_meaning(status) {
                ChildStatus::Stopped => StopWait::Stopped,
                ChildStatus::Exited { status } => StopWait::Exited { status },
                ChildStatus::Signaled { signal } => StopWait::Signaled { signal },
                ChildStatus::Other => StopWait::Again,
            }
        },
{
    if ret < 0 {
        return if interrupted {
            StopWait::Again
        } else {
            StopWait::WaitFailed
        };
    }
    match child_status(status) {
        ChildStatus::Stopped => StopWait::Stopped,
        ChildStatus::Exited { status } => StopWait::Exited { status },
        ChildStatus::Signaled { signal } => StopWait::Signaled { signal },
        ChildStatus::Other => StopWait::Again,
    }
}

/// Whether a child is gone, by what asking for it returned. An error counts as
/// gone.
pub fn has_exited(ret: i32) -> (r: bool)
    ensures
        r == (ret != 0),
{
    ret != 0
}

/// What the control loop does next.
#[derive(Clone, Copy, Debug, PartialEq, Eq, Structural)]
pub enum LoopStep {
    ShutDown,
    ChildFinished,
    /// Sleep as long as `sleep_ns` says, and run an iteration.
    Tick { sleep_ns: u64, next_tick_ns: u64 },
}

/// `child_gone`: whether the child is gone, where there is one. An iteration that
/// is late does not move the ones after it.
pub fn control_step(
    shutdown: bool,
    child_gone: Option<bool>,
    now_ns: u64,
    next_tick_ns: u64,
    period_ns: u64,
) -> (r: LoopStep)
    requires
        next_tick_ns + period_ns <= u64::MAX,
    ensures
        r == if shutdown {
            LoopStep::ShutDown
        } else if child_gone == Some(true) {
            LoopStep::ChildFinished
        } else {
            LoopStep::Tick {
                sleep_ns: if now_ns < next_tick_ns {
                    (next_tick_ns - now_ns) as u64
                } else {
                    0
                },
                next_tick_ns: (next_tick_ns + period_ns) as u64,
            }
        },
{
    if shutdown {
        return LoopStep::ShutDown;
    }
    let gone: bool = match child_gone {
        Some(gone) => gone,
        None => false,
    };
    if gone {
        return LoopStep::ChildFinished;
    }
    LoopStep::Tick {
        sleep_ns: next_tick_ns.saturating_sub(now_ns),
        next_tick_ns: next_tick_ns + period_ns,
    }
}

/// What is summed over some threads and over others adds up to what is summed over all of
/// them, and over one thread to what it has.
pub proof fn law_totals_add_up(some: Seq<EpochSnapshot>, others: Seq<EpochSnapshot>)
    ensures
        ({
            let (a, b) = (totals_of(some), totals_of(others));
            let all = totals_of(some + others);
            &&& all.wait_ns == a.wait_ns + b.wait_ns
            &&& all.hold_ns == a.hold_ns + b.hold_ns
            &&& all.park_ns == a.park_ns + b.park_ns
            &&& all.contended_acq == a.contended_acq + b.contended_acq
        }),
        others.len() == 1 ==> {
            let b = totals_of(others);
            &&& b.wait_ns == others[0].wait_ns
            &&& b.hold_ns == others[0].hold_ns
            &&& b.park_ns == others[0].park_ns
            &&& b.contended_acq == others[0].contended_acq
        },
    decreases others.len(),
{
    if others.len() == 0 {
        assert(some + others =~= some);
    } else {
        law_totals_add_up(some, others.drop_last());
        assert((some + others).drop_last() =~= some + others.drop_last());
        assert((some + others).last() == others.last());
        if others.len() == 1 {
            assert(others.drop_last() =~= Seq::<EpochSnapshot>::empty());
        }
    }
}

/// Each slot that a thread has is collected once, after those before it, with what it
/// holds; the others are not.
pub proof fn law_each_used_slot_is_collected(before: Seq<EpochSlot>, slot: EpochSlot)
    ensures
        collected(Seq::empty()).len() == 0,
        slot.tid == 0 ==> collected(before.push(slot)) == collected(before),
        slot.tid != 0 ==> {
            let all = collected(before.push(slot));
            let n = collected(before).len();
            &&& all.len() == n + 1
            &&& forall|i: int| 0 <= i < n ==> #[trigger] all[i] == collected(before)[i]
            &&& all[n as int].tid == slot.tid
            &&& all[n as int].tgid == slot.tgid
            &&& all[n as int].slot_id == slot.slot_id
            &&& all[n as int].epoch_id == slot.epoch_id
            &&& all[n as int].wait_ns == slot.wait_ns
            &&& all[n as int].hold_ns == slot.hold_ns
            &&& all[n as int].park_ns == slot.park_ns
            &&& all[n as int].contended_acq == slot.contended_acq
            &&& all[n as int].park_count == slot.park_count
        },
{
    assert(before.push(slot).drop_last() =~= before);
}

/// The status of a child tells what became of it: what it exited with is in the second
/// byte, the signal that killed it in the first, whether it left a core or not, and a
/// stopped child has all ones there.
pub proof fn law_a_status_tells_what_became_of_the_child(code: i32, signal: i32)
    requires
        0 <= code <= 255,
        1 <= signal <= 126,
    ensures
        status_meaning((code * 256) as i32) == (ChildStatus::Exited { status: code }),
        status_meaning(signal) == (ChildStatus::Signaled { signal }),
        status_meaning((signal + 128) as i32) == (ChildStatus::Signaled { signal }),
        status_meaning((code * 256 + 127) as i32) == ChildStatus::Stopped,
{
    let exited = (code * 256) as i32;
    let dumped = (signal + 128) as i32;
    let stopped = (code * 256 + 127) as i32;
    assert(exited & 0xff == 0 && exited & 0x7f == 0 && (exited >> 8) & 0xff == code)
        by (bit_vector)
        requires
            exited == code * 256,
            0 <= code <= 255,
    ;
    assert(signal & 0xff == signal && signal & 0x7f == signal) by (bit_vector)
        requires
            1 <= signal <= 126,
    ;
    assert(dumped & 0xff == dumped && dumped & 0x7f == signal) by (bit_vector)
        requires
            dumped == signal + 128,
            1 <= signal <= 126,
    ;
    assert(stopped & 0xff == 0x7f) by (bit_vector)
        requires
            stopped == code * 256 + 127,
            0 <= code <= 255,
    ;
}

/// A slot that nobody has can be passed over, whatever its number; one that somebody has can
/// be read whole just while its number is even.
pub proof fn law_a_slot_is_still_between_writes(slot: EpochSlot)
    ensures
        slot.tid == 0 ==> is_still(slot),
        slot.tid != 0 ==> (is_still(slot) <==> slot.seq % 2 == 0),
{
}

} // verus!
