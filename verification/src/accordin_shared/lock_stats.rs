//! Timing statistics of lock operations, per thread, per process and per lock
//! class.
//!
//! Times are timing samples; the caller reads the counter and hands the reading
//! over as `now`. A sample of 0 stands for "not measured".
use vstd::prelude::*;

use crate::accordin_shared::bpf_counters::{
    routing_counter_name, routing_name, RoutingCounters, ROUTING_COUNTER_COUNT,
};
use crate::accordin_shared::env;
use crate::accordin_shared::lock_class::{CLASS_COUNT, UNMANAGED_LOCK_ID};
use crate::accordin_shared::mutex_hook;
use crate::accordin_shared::mutex_hook::HookCounters;
use crate::accordin_shared::width_control;
use crate::accordin_shared::width_control::{ClassController, ClassWidthReport, ControllerView};
use crate::arith;
use crate::lb_shared::admission;
use crate::lb_shared::arch;
use crate::lb_shared::arch::TscCalibration;
use crate::stats_report;
use crate::stats_report::{
    append_field, append_joined, append_number_line, append_text_field, field, joined,
    number_line, process_text, text_field, ProcessAverages,
};
use crate::text;

verus! {

pub const DEFAULT_SAMPLE_STRIDE: u64 = 8;

/// The statistics of a thread, in nanoseconds.
#[derive(Clone, Copy)]
pub struct LockSchedThreadCtx {
    pub thread_start_ns: u64,
    pub thread_elapsed_ns_total: u64,
    pub wait_ns_total: u64,
    pub wait_start_ns: u64,
    pub hold_ns_total: u64,
    pub hold_start_ns: u64,
    pub lock_count: u64,
}

pub open spec fn empty_ctx() -> LockSchedThreadCtx {
    LockSchedThreadCtx {
        thread_start_ns: 0,
        thread_elapsed_ns_total: 0,
        wait_ns_total: 0,
        wait_start_ns: 0,
        hold_ns_total: 0,
        hold_start_ns: 0,
        lock_count: 0,
    }
}

impl LockSchedThreadCtx {
    pub fn new() -> (r: Self)
        ensures
            r == empty_ctx(),
    {
        LockSchedThreadCtx {
            thread_start_ns: 0,
            thread_elapsed_ns_total: 0,
            wait_ns_total: 0,
            wait_start_ns: 0,
            hold_ns_total: 0,
            hold_start_ns: 0,
            lock_count: 0,
        }
    }
}

/// The running measurement of a thread, in timing samples.
#[derive(Clone, Copy)]
pub struct ThreadStatsAux {
    pub thread_start_sample: u64,
    pub thread_elapsed_total: u64,
    pub wait_total: u64,
    pub wait_sample_count: u64,
    pub wait_start_sample: u64,
    pub wait_end_sample: u64,
    pub hold_total: u64,
    pub hold_sample_count: u64,
    pub hold_start_sample: u64,
    pub lock_count: u64,
    pub outside_gap_total: u64,
    pub outside_gap_samples: u64,
    pub sample_countdown: u64,
    pub op_sample_decided: bool,
    pub op_sampled: bool,
    pub outside_sample_pending: bool,
    pub outside_unlock_sample: u64,
    pub outside_wait_start_sample: u64,
    pub outside_wait_total: u64,
    pub cv_sleep_total: u64,
    pub class_sample_armed: bool,
    pub class_hold_start_sample: u64,
}

pub open spec fn empty_aux() -> ThreadStatsAux {
    ThreadStatsAux {
        thread_start_sample: 0,
        thread_elapsed_total: 0,
        wait_total: 0,
        wait_sample_count: 0,
        wait_start_sample: 0,
        wait_end_sample: 0,
        hold_total: 0,
        hold_sample_count: 0,
        hold_start_sample: 0,
        lock_count: 0,
        outside_gap_total: 0,
        outside_gap_samples: 0,
        sample_countdown: 0,
        op_sample_decided: false,
        op_sampled: false,
        outside_sample_pending: false,
        outside_unlock_sample: 0,
        outside_wait_start_sample: 0,
        outside_wait_total: 0,
        cv_sleep_total: 0,
        class_sample_armed: false,
        class_hold_start_sample: 0,
    }
}

impl ThreadStatsAux {
    pub fn new() -> (r: Self)
        ensures
            r == empty_aux(),
    {
        ThreadStatsAux {
            thread_start_sample: 0,
            thread_elapsed_total: 0,
            wait_total: 0,
            wait_sample_count: 0,
            wait_start_sample: 0,
            wait_end_sample: 0,
            hold_total: 0,
            hold_sample_count: 0,
            hold_start_sample: 0,
            lock_count: 0,
            outside_gap_total: 0,
            outside_gap_samples: 0,
            sample_countdown: 0,
            op_sample_decided: false,
            op_sampled: false,
            outside_sample_pending: false,
            outside_unlock_sample: 0,
            outside_wait_start_sample: 0,
            outside_wait_total: 0,
            cv_sleep_total: 0,
            class_sample_armed: false,
            class_hold_start_sample: 0,
        }
    }
}

/// What the width controller takes from a class.
#[derive(Clone, Copy)]
pub struct ClassStats {
    pub cs_sum_ns: u64,
    pub cs_count: u64,
    pub ncs_sum_ns: u64,
    pub ncs_count: u64,
    pub acquires: u64,
}

pub open spec fn empty_class_stats() -> ClassStats {
    ClassStats { cs_sum_ns: 0, cs_count: 0, ncs_sum_ns: 0, ncs_count: 0, acquires: 0 }
}

impl ClassStats {
    pub fn new() -> (r: Self)
        ensures
            r == empty_class_stats(),
    {
        ClassStats { cs_sum_ns: 0, cs_count: 0, ncs_sum_ns: 0, ncs_count: 0, acquires: 0 }
    }

    /// These statistics with one more sample. The sums and counts wrap.
    pub open spec fn with_sample(self, critical_ns: u64, outside_ns: Option<u64>) -> ClassStats {
        let counted = ClassStats {
            cs_sum_ns: self.cs_sum_ns.wrapping_add(critical_ns),
            cs_count: self.cs_count.wrapping_add(1),
            acquires: self.acquires.wrapping_add(1),
            ..self
        };
        match outside_ns {
            Some(outside_ns) => ClassStats {
                ncs_sum_ns: self.ncs_sum_ns.wrapping_add(outside_ns),
                ncs_count: self.ncs_count.wrapping_add(1),
                ..counted
            },
            None => counted,
        }
    }
}

/// The statistics of every class.
pub struct ClassStatsTable {
    pub classes: [ClassStats; CLASS_COUNT],
}

/// Whether statistics are kept for a class.
pub open spec fn is_measured_class(class: u32) -> bool {
    class != UNMANAGED_LOCK_ID && class < CLASS_COUNT
}

/// Everything that is measured of one thread.
pub struct ThreadStats {
    pub ctx: LockSchedThreadCtx,
    pub aux: ThreadStatsAux,
    /// When the thread last unlocked each class.
    pub last_unlock: [u64; CLASS_COUNT],
    /// Locks the thread holds.
    pub lock_depth: u32,
}

impl ThreadStats {
    pub fn new() -> (r: Self)
        ensures
            r.ctx == empty_ctx(),
            r.aux == empty_aux(),
            r.last_unlock@ == Seq::new(CLASS_COUNT as nat, |class: int| 0u64),
            r.lock_depth == 0,
    {
        let last_unlock: [u64; CLASS_COUNT] = [0;CLASS_COUNT];
        assert(last_unlock@ =~= Seq::new(CLASS_COUNT as nat, |class: int| 0u64));
        ThreadStats {
            ctx: LockSchedThreadCtx::new(),
            aux: ThreadStatsAux::new(),
            last_unlock,
            lock_depth: 0,
        }
    }
}

pub fn new_class_stats() -> (r: ClassStatsTable)
    ensures
        forall|class: int| 0 <= class < CLASS_COUNT ==> #[trigger] r.classes@[class]
            == empty_class_stats(),
{
    ClassStatsTable { classes: [ClassStats::new();CLASS_COUNT] }
}

/// The thread's statistics in nanoseconds, as last synchronised.
pub fn thread_ctx(stats: &ThreadStats) -> (r: LockSchedThreadCtx)
    ensures
        r == stats.ctx,
{
    stats.ctx
}

// Lock depth.
/// Enters a lock, and reports whether the thread held none.
pub fn enter_lock_scope_depth(depth: &mut u32) -> (r: bool)
    ensures
        *final(depth) == depth_after_enter(*old(depth)),
        r == (*old(depth) == 0),
{
    let held: u32 = *depth;
    *depth = held.saturating_add(1);
    held == 0
}

pub open spec fn depth_after_enter(depth: u32) -> u32 {
    depth.saturating_add(1)
}

pub open spec fn depth_after_exit(depth: u32) -> u32 {
    depth.saturating_sub(1)
}

/// Leaves a lock, and reports whether it was the outermost one.
pub fn exit_lock_scope_depth(depth: &mut u32) -> (r: bool)
    ensures
        *final(depth) == depth_after_exit(*old(depth)),
        r == (*old(depth) == 1),
{
    let held: u32 = *depth;
    if held == 0 {
        return false;
    }
    *depth = held - 1;
    held == 1
}

/// Leaving a lock right after entering it restores the depth, and is outermost
/// exactly when entering it was.
pub proof fn law_nested_scopes_pair_up(depth: u32)
    requires
        depth < u32::MAX,
    ensures
        depth_after_exit(depth_after_enter(depth)) == depth,
        (depth_after_enter(depth) == 1) == (depth == 0),
{
}

// Gaps between an unlock and the next acquisition.
pub fn last_unlock_sample(last_unlock: &[u64; CLASS_COUNT], class: u32) -> (r: u64)
    ensures
        r == if is_measured_class(class) {
            last_unlock@[class as int]
        } else {
            0
        },
{
    if class == UNMANAGED_LOCK_ID || class as usize >= CLASS_COUNT {
        return 0;
    }
    last_unlock[class as usize]
}

/// Stores when the class was unlocked, and returns what it replaced.
pub fn replace_last_unlock_sample(
    last_unlock: &mut [u64; CLASS_COUNT],
    class: u32,
    sample: u64,
) -> (r: u64)
    ensures
        r == if is_measured_class(class) {
            old(last_unlock)@[class as int]
        } else {
            0
        },
        final(last_unlock)@ == if is_measured_class(class) {
            old(last_unlock)@.update(class as int, sample)
        } else {
            old(last_unlock)@
        },
{
    if class == UNMANAGED_LOCK_ID || class as usize >= CLASS_COUNT {
        return 0;
    }
    let previous: u64 = last_unlock[class as usize];
    last_unlock[class as usize] = sample;
    previous
}

/// The gap between a class's previous unlock and its next acquisition, if there
/// was a previous one.
pub open spec fn gap_of(previous_unlock: u64, acquire_sample: u64) -> Option<u64> {
    if previous_unlock != 0 {
        Some(acquire_sample.saturating_sub(previous_unlock))
    } else {
        None
    }
}

pub fn last_unlock_gap_sample(previous_unlock: u64, acquire_sample: u64) -> (r: Option<u64>)
    ensures
        r == gap_of(previous_unlock, acquire_sample),
{
    if previous_unlock != 0 {
        Some(acquire_sample.saturating_sub(previous_unlock))
    } else {
        None
    }
}

// Class samples.
pub fn class_stats(table: &ClassStatsTable, class: u32) -> (r: Option<ClassStats>)
    ensures
        r == if is_measured_class(class) {
            Some(table.classes@[class as int])
        } else {
            None
        },
{
    if class == UNMANAGED_LOCK_ID || class as usize >= CLASS_COUNT {
        return None;
    }
    Some(table.classes[class as usize])
}

/// Accounts one sample to a class: always its critical section, and its
/// non-critical section only where there is one. Reports whether it did.
pub fn record_class_sample(
    table: &mut ClassStatsTable,
    class: u32,
    critical_ns: u64,
    outside_ns: Option<u64>,
) -> (r: bool)
    ensures
        r == is_measured_class(class),
        final(table).classes@ == if is_measured_class(class) {
            old(table).classes@.update(
                class as int,
                old(table).classes@[class as int].with_sample(critical_ns, outside_ns),
            )
        } else {
            old(table).classes@
        },
{
    let mut stats: ClassStats = match class_stats(table, class) {
        Some(stats) => stats,
        None => return false,
    };
    stats.cs_sum_ns = stats.cs_sum_ns.wrapping_add(critical_ns);
    stats.cs_count = stats.cs_count.wrapping_add(1);
    stats.acquires = stats.acquires.wrapping_add(1);
    if let Some(outside_ns) = outside_ns {
        stats.ncs_sum_ns = stats.ncs_sum_ns.wrapping_add(outside_ns);
        stats.ncs_count = stats.ncs_count.wrapping_add(1);
    }
    table.classes[class as usize] = stats;
    true
}

/// Samples that were ever accounted to a class.
pub fn class_acquires(table: &ClassStatsTable, class: u32) -> (r: u64)
    ensures
        r == if is_measured_class(class) {
            table.classes@[class as int].acquires
        } else {
            0
        },
{
    match class_stats(table, class) {
        Some(stats) => stats.acquires,
        None => 0,
    }
}

/// The sums and counts that a class's averages are made of.
#[derive(Clone, Copy, Debug, PartialEq, Eq, Structural)]
pub struct ClassSums {
    pub cs_sum_ns: u64,
    pub cs_count: u64,
    pub ncs_sum_ns: u64,
    pub ncs_count: u64,
}

/// The sums of a class, where both averages can be formed from them.
pub fn class_sample_averages(
    cs_sum_ns: u64,
    cs_count: u64,
    ncs_sum_ns: u64,
    ncs_count: u64,
) -> (r: Option<ClassSums>)
    ensures
        r == if cs_count == 0 || ncs_count == 0 {
            None
        } else {
            Some(ClassSums { cs_sum_ns, cs_count, ncs_sum_ns, ncs_count })
        },
{
    if cs_count == 0 || ncs_count == 0 {
        return None;
    }
    Some(ClassSums { cs_sum_ns, cs_count, ncs_sum_ns, ncs_count })
}

/// Takes the sums of a class out, leaving only its number of acquires.
pub fn take_class_sample_averages(table: &mut ClassStatsTable, class: u32) -> (r: Option<
    ClassSums,
>)
    ensures
        ({
            let before = old(table).classes@[class as int];
            &&& r == if !is_measured_class(class) || before.cs_count == 0 || before.ncs_count
                == 0 {
                None
            } else {
                Some(
                    ClassSums {
                        cs_sum_ns: before.cs_sum_ns,
                        cs_count: before.cs_count,
                        ncs_sum_ns: before.ncs_sum_ns,
                        ncs_count: before.ncs_count,
                    },
                )
            }
            &&& final(table).classes@ == if is_measured_class(class) {
                old(table).classes@.update(
                    class as int,
                    ClassStats { acquires: before.acquires, ..empty_class_stats() },
                )
            } else {
                old(table).classes@
            }
        }),
{
    let stats: ClassStats = match class_stats(table, class) {
        Some(stats) => stats,
        None => return None,
    };
    table.classes[class as usize] = ClassStats {
        cs_sum_ns: 0,
        cs_count: 0,
        ncs_sum_ns: 0,
        ncs_count: 0,
        acquires: stats.acquires,
    };
    class_sample_averages(stats.cs_sum_ns, stats.cs_count, stats.ncs_sum_ns, stats.ncs_count)
}

/// The non-critical section of an acquisition, in nanoseconds: the gap since
/// the class's previous unlock, without the time spent queueing for the lock
/// and parked on a condition variable.
pub open spec fn outside_ns_of(
    calibration: TscCalibration,
    previous_unlock: u64,
    hold_start: u64,
    wait_sample: u64,
    cv_sleep_sample: u64,
) -> Option<u64> {
    match gap_of(previous_unlock, hold_start) {
        Some(gap) => Some(
            calibration.total_ns(
                arith::monus(arith::monus(gap as int, wait_sample as int), cv_sleep_sample as int),
            ) as u64,
        ),
        None => None,
    }
}

/// Attributes the outermost critical section, and the non-critical section
/// before it, to `class`, and remembers when the class was unlocked. Reports
/// whether a sample was recorded.
pub fn attribute_outermost_class_sample(
    stats: &mut ThreadStats,
    table: &mut ClassStatsTable,
    calibration: &TscCalibration,
    class: u32,
    unlock_sample: u64,
    wait_sample: u64,
    cv_sleep_sample: u64,
) -> (r: bool)
    ensures
        r == (old(stats).aux.class_sample_armed && is_measured_class(class)),
        final(stats).aux == if old(stats).aux.class_sample_armed {
            ThreadStatsAux {
                class_sample_armed: false,
                class_hold_start_sample: 0,
                ..old(stats).aux
            }
        } else {
            old(stats).aux
        },
        final(stats).last_unlock@ == if is_measured_class(class) {
            old(stats).last_unlock@.update(class as int, unlock_sample)
        } else {
            old(stats).last_unlock@
        },
        final(stats).ctx == old(stats).ctx,
        final(stats).lock_depth == old(stats).lock_depth,
        final(table).classes@ == if old(stats).aux.class_sample_armed && is_measured_class(class) {
            old(table).classes@.update(
                class as int,
                old(table).classes@[class as int].with_sample(
                    calibration.elapsed_ns(
                        old(stats).aux.class_hold_start_sample,
                        unlock_sample,
                    ) as u64,
                    outside_ns_of(
                        *calibration,
                        old(stats).last_unlock@[class as int],
                        old(stats).aux.class_hold_start_sample,
                        wait_sample,
                        cv_sleep_sample,
                    ),
                ),
            )
        } else {
            old(table).classes@
        },
{
    let previous_unlock: u64 = replace_last_unlock_sample(
        &mut stats.last_unlock,
        class,
        unlock_sample,
    );
    if !stats.aux.class_sample_armed {
        return false;
    }
    let critical_ns: u64 = arch::wait_time_elapsed_ns_between(
        calibration,
        stats.aux.class_hold_start_sample,
        unlock_sample,
    );
    let outside_ns: Option<u64> = match last_unlock_gap_sample(
        previous_unlock,
        stats.aux.class_hold_start_sample,
    ) {
        Some(gap) => Some(
            arch::wait_time_total_to_ns(
                calibration,
                gap.saturating_sub(wait_sample).saturating_sub(cv_sleep_sample),
            ),
        ),
        None => None,
    };
    let recorded: bool = record_class_sample(table, class, critical_ns, outside_ns);
    stats.aux.class_sample_armed = false;
    stats.aux.class_hold_start_sample = 0;
    recorded
}

// Settings.
/// The positive number that a setting holds.
pub open spec fn positive_setting(value: Seq<char>) -> Option<int> {
    match text::unsigned(text::trim(value), u64::MAX as int) {
        Some(number) => if number > 0 {
            Some(number)
        } else {
            None
        },
        None => None,
    }
}

pub fn parse_positive_u64(value: &str) -> (r: Option<u64>)
    ensures
        match r {
            Some(number) => positive_setting(value@) == Some(number as int),
            None => positive_setting(value@) is None,
        },
{
    match env::number(value, u64::MAX) {
        Some(number) => if number > 0 {
            Some(number)
        } else {
            None
        },
        None => None,
    }
}

pub open spec fn stride_setting(value: Option<Seq<char>>) -> int {
    match value {
        Some(value) => match positive_setting(value) {
            Some(stride) => stride,
            None => DEFAULT_SAMPLE_STRIDE as int,
        },
        None => DEFAULT_SAMPLE_STRIDE as int,
    }
}

pub fn parse_sample_stride(value: Option<&str>) -> (r: u64)
    ensures
        r == stride_setting(env::text_of(value)),
        r > 0,
{
    match value {
        Some(value) => match parse_positive_u64(value) {
            Some(stride) => stride,
            None => DEFAULT_SAMPLE_STRIDE,
        },
        None => DEFAULT_SAMPLE_STRIDE,
    }
}

// Sampling.
pub open spec fn countdown_after(countdown: u64, stride: u64) -> u64 {
    if countdown == 0 {
        stride.saturating_sub(1)
    } else {
        (countdown - 1) as u64
    }
}

/// Counts one event, and reports whether it is to be sampled.
pub fn advance_periodic_sample(countdown: &mut u64, stride: u64) -> (r: bool)
    ensures
        r == (*old(countdown) == 0),
        *final(countdown) == countdown_after(*old(countdown), stride),
{
    let stride: u64 = stride.max(1);
    if *countdown == 0 {
        *countdown = stride.saturating_sub(1);
        true
    } else {
        *countdown -= 1;
        false
    }
}

pub open spec fn countdown_run(countdown: u64, stride: u64, n: nat) -> u64
    decreases n,
{
    if n == 0 {
        countdown
    } else {
        countdown_after(countdown_run(countdown, stride, (n - 1) as nat), stride)
    }
}

/// How far apart samples are. A stride of 0 counts as one of 1.
pub open spec fn spacing(stride: u64) -> nat {
    if stride == 0 {
        1
    } else {
        stride as nat
    }
}

/// From a fresh countdown, exactly every `stride`-th event is sampled, the
/// first one included.
pub proof fn law_sampling_is_periodic(stride: u64, n: nat)
    ensures
        (countdown_run(0, stride, n) == 0) == (n % spacing(stride) == 0),
        countdown_run(0, stride, n) == (if n % spacing(stride) == 0 {
            0
        } else {
            spacing(stride) - n % spacing(stride)
        }),
    decreases n,
{
    let k = spacing(stride) as int;
    if n == 0 {
        vstd::arithmetic::div_mod::lemma_small_mod(0, k as nat);
    } else {
        law_sampling_is_periodic(stride, (n - 1) as nat);
        let before = (n - 1) % k;
        vstd::arithmetic::div_mod::lemma_mod_bound(n - 1, k);
        vstd::arithmetic::div_mod::lemma_add_mod_noop(n - 1, 1, k);
        if k == 1 {
            vstd::arithmetic::div_mod::lemma_mod_bound(n as int, k);
        } else {
            vstd::arithmetic::div_mod::lemma_small_mod(1, k as nat);
            if before + 1 < k {
                vstd::arithmetic::div_mod::lemma_small_mod((before + 1) as nat, k as nat);
            } else {
                vstd::arithmetic::div_mod::lemma_mod_self_0(k);
            }
        }
    }
}

pub open spec fn sampling_decided(aux: ThreadStatsAux, enabled: bool) -> ThreadStatsAux {
    if aux.op_sample_decided {
        aux
    } else {
        ThreadStatsAux {
            op_sampled: enabled && aux.outside_sample_pending,
            op_sample_decided: true,
            ..aux
        }
    }
}

/// Decides, once per operation, whether the operation is sampled.
pub fn decide_operation_sampling_with_enabled(aux: &mut ThreadStatsAux, enabled: bool)
    ensures
        *final(aux) == sampling_decided(*old(aux), enabled),
{
    if aux.op_sample_decided {
        return;
    }
    aux.op_sampled = enabled && aux.outside_sample_pending;
    aux.op_sample_decided = true;
}

pub fn finish_operation_sampling(aux: &mut ThreadStatsAux)
    ensures
        *final(aux) == (ThreadStatsAux {
            op_sample_decided: false,
            op_sampled: false,
            ..*old(aux)
        }),
{
    aux.op_sample_decided = false;
    aux.op_sampled = false;
}

pub fn begin_outside_gap_sample_with_enabled(
    aux: &mut ThreadStatsAux,
    enabled: bool,
    stride: u64,
) -> (r: bool)
    ensures
        r == (enabled && old(aux).sample_countdown == 0),
        *final(aux) == if enabled {
            ThreadStatsAux {
                sample_countdown: countdown_after(old(aux).sample_countdown, stride),
                ..*old(aux)
            }
        } else {
            *old(aux)
        },
{
    enabled && advance_periodic_sample(&mut aux.sample_countdown, stride)
}

pub open spec fn gap_finished(aux: ThreadStatsAux) -> ThreadStatsAux {
    ThreadStatsAux {
        outside_sample_pending: false,
        outside_unlock_sample: 0,
        outside_wait_start_sample: 0,
        outside_wait_total: 0,
        ..aux
    }
}

pub fn finish_outside_gap_sample(aux: &mut ThreadStatsAux)
    ensures
        *final(aux) == gap_finished(*old(aux)),
{
    aux.outside_sample_pending = false;
    aux.outside_unlock_sample = 0;
    aux.outside_wait_start_sample = 0;
    aux.outside_wait_total = 0;
}

pub open spec fn elapsed_refreshed(aux: ThreadStatsAux, now_sample: u64) -> ThreadStatsAux {
    if aux.thread_start_sample == 0 {
        ThreadStatsAux { thread_start_sample: now_sample, thread_elapsed_total: 0, ..aux }
    } else {
        ThreadStatsAux {
            thread_elapsed_total: now_sample.saturating_sub(aux.thread_start_sample),
            ..aux
        }
    }
}

pub fn refresh_thread_elapsed_for_aux(aux: &mut ThreadStatsAux, now_sample: u64)
    ensures
        *final(aux) == elapsed_refreshed(*old(aux), now_sample),
{
    if aux.thread_start_sample == 0 {
        aux.thread_start_sample = now_sample;
        aux.thread_elapsed_total = 0;
        return;
    }
    aux.thread_elapsed_total = now_sample.saturating_sub(aux.thread_start_sample);
}

pub open spec fn started(aux: ThreadStatsAux, sample: u64) -> ThreadStatsAux {
    if aux.thread_start_sample == 0 {
        ThreadStatsAux { thread_start_sample: sample, ..aux }
    } else {
        aux
    }
}

pub fn ensure_thread_start_sample(aux: &mut ThreadStatsAux, sample: u64)
    ensures
        *final(aux) == started(*old(aux), sample),
{
    if aux.thread_start_sample == 0 {
        aux.thread_start_sample = sample;
    }
}

pub fn convert_optional_sample_to_ns(calibration: &TscCalibration, sample: u64) -> (r: u64)
    ensures
        r == optional_ns(*calibration, sample),
{
    if sample == 0 {
        0
    } else {
        arch::wait_time_to_ns(calibration, sample)
    }
}

pub open spec fn optional_ns(calibration: TscCalibration, sample: u64) -> u64 {
    if sample == 0 {
        0
    } else {
        calibration.sample_ns(sample) as u64
    }
}

/// The statistics in nanoseconds that a running measurement amounts to.
pub open spec fn ctx_of(aux: ThreadStatsAux, calibration: TscCalibration) -> LockSchedThreadCtx {
    LockSchedThreadCtx {
        thread_start_ns: optional_ns(calibration, aux.thread_start_sample),
        thread_elapsed_ns_total: calibration.total_ns(aux.thread_elapsed_total as int) as u64,
        wait_ns_total: calibration.total_ns(aux.wait_total as int) as u64,
        wait_start_ns: optional_ns(calibration, aux.wait_start_sample),
        hold_ns_total: calibration.total_ns(aux.hold_total as int) as u64,
        hold_start_ns: optional_ns(calibration, aux.hold_start_sample),
        lock_count: aux.lock_count,
    }
}

pub fn sync_aux_to_ctx(
    ctx: &mut LockSchedThreadCtx,
    aux: &ThreadStatsAux,
    calibration: &TscCalibration,
)
    ensures
        *final(ctx) == ctx_of(*aux, *calibration),
{
    ctx.thread_start_ns = convert_optional_sample_to_ns(calibration, aux.thread_start_sample);
    ctx.thread_elapsed_ns_total = arch::wait_time_total_to_ns(
        calibration,
        aux.thread_elapsed_total,
    );
    ctx.wait_ns_total = arch::wait_time_total_to_ns(calibration, aux.wait_total);
    ctx.wait_start_ns = convert_optional_sample_to_ns(calibration, aux.wait_start_sample);
    ctx.hold_ns_total = arch::wait_time_total_to_ns(calibration, aux.hold_total);
    ctx.hold_start_ns = convert_optional_sample_to_ns(calibration, aux.hold_start_sample);
    ctx.lock_count = aux.lock_count;
}

/// Starts the thread's measurement over at `now_sample`.
pub fn reset_thread_measurement_state(
    stats: &mut ThreadStats,
    calibration: &TscCalibration,
    now_sample: u64,
)
    ensures
        final(stats).aux == (ThreadStatsAux { thread_start_sample: now_sample, ..empty_aux() }),
        final(stats).ctx == (LockSchedThreadCtx {
            thread_start_ns: calibration.sample_ns(now_sample) as u64,
            ..empty_ctx()
        }),
        final(stats).lock_depth == 0,
        final(stats).last_unlock@ == Seq::new(CLASS_COUNT as nat, |class: int| 0u64),
{
    let mut fresh: ThreadStats = ThreadStats::new();
    fresh.aux.thread_start_sample = now_sample;
    fresh.ctx.thread_start_ns = arch::wait_time_to_ns(calibration, now_sample);
    *stats = fresh;
}

/// Starts the thread's clock, unless it runs already.
pub fn record_thread_start(stats: &mut ThreadStats, now_sample: u64)
    ensures
        final(stats).aux == if old(stats).aux.thread_start_sample == 0 {
            ThreadStatsAux {
                thread_start_sample: now_sample,
                thread_elapsed_total: 0,
                ..old(stats).aux
            }
        } else {
            old(stats).aux
        },
        *final(stats) == (ThreadStats { aux: final(stats).aux, ..*old(stats) }),
{
    if stats.aux.thread_start_sample == 0 {
        stats.aux.thread_start_sample = now_sample;
        stats.aux.thread_elapsed_total = 0;
    }
}

// Process totals.
/// What the threads that finished, or were flushed, contributed. The totals
/// wrap.
#[derive(Clone, Copy)]
pub struct ProcessTotals {
    pub thread_elapsed_total: u64,
    pub wait_total: u64,
    pub hold_total: u64,
    pub lock_count: u64,
    pub outside_gap_total: u64,
    pub outside_gap_samples: u64,
}

impl ProcessTotals {
    pub fn new() -> (r: Self)
        ensures
            r == (ProcessTotals {
                thread_elapsed_total: 0,
                wait_total: 0,
                hold_total: 0,
                lock_count: 0,
                outside_gap_total: 0,
                outside_gap_samples: 0,
            }),
    {
        ProcessTotals {
            thread_elapsed_total: 0,
            wait_total: 0,
            hold_total: 0,
            lock_count: 0,
            outside_gap_total: 0,
            outside_gap_samples: 0,
        }
    }

    pub open spec fn with_thread(self, aux: ThreadStatsAux) -> ProcessTotals {
        ProcessTotals {
            thread_elapsed_total: self.thread_elapsed_total.wrapping_add(aux.thread_elapsed_total),
            wait_total: self.wait_total.wrapping_add(aux.wait_total),
            hold_total: self.hold_total.wrapping_add(aux.hold_total),
            lock_count: self.lock_count.wrapping_add(aux.lock_count),
            outside_gap_total: self.outside_gap_total.wrapping_add(aux.outside_gap_total),
            outside_gap_samples: self.outside_gap_samples.wrapping_add(aux.outside_gap_samples),
        }
    }
}

/// Whether a thread has nothing to contribute.
pub open spec fn contributes_nothing(aux: ThreadStatsAux) -> bool {
    &&& aux.thread_elapsed_total == 0
    &&& aux.wait_total == 0
    &&& aux.hold_total == 0
    &&& aux.lock_count == 0
    &&& aux.outside_gap_total == 0
    &&& aux.outside_gap_samples == 0
}

/// Moves the thread's measurement into the process totals and starts it over.
/// The thread's statistics keep what was flushed.
pub fn flush_current_thread_stats(
    stats: &mut ThreadStats,
    totals: &mut ProcessTotals,
    calibration: &TscCalibration,
    now_sample: u64,
)
    ensures
        ({
            let aux = elapsed_refreshed(old(stats).aux, now_sample);
            &&& final(stats).ctx == ctx_of(aux, *calibration)
            &&& final(stats).aux == if contributes_nothing(aux) {
                aux
            } else {
                empty_aux()
            }
            &&& *final(totals) == old(totals).with_thread(aux)
        }),
        final(stats).last_unlock == old(stats).last_unlock,
        final(stats).lock_depth == old(stats).lock_depth,
{
    refresh_thread_elapsed_for_aux(&mut stats.aux, now_sample);
    let aux: ThreadStatsAux = stats.aux;
    sync_aux_to_ctx(&mut stats.ctx, &aux, calibration);
    if aux.thread_elapsed_total == 0 && aux.wait_total == 0 && aux.hold_total == 0
        && aux.lock_count == 0 && aux.outside_gap_total == 0 && aux.outside_gap_samples == 0 {
        return;
    }
    totals.thread_elapsed_total = totals.thread_elapsed_total.wrapping_add(
        aux.thread_elapsed_total,
    );
    totals.wait_total = totals.wait_total.wrapping_add(aux.wait_total);
    totals.hold_total = totals.hold_total.wrapping_add(aux.hold_total);
    totals.lock_count = totals.lock_count.wrapping_add(aux.lock_count);
    totals.outside_gap_total = totals.outside_gap_total.wrapping_add(aux.outside_gap_total);
    totals.outside_gap_samples = totals.outside_gap_samples.wrapping_add(aux.outside_gap_samples);
    stats.aux = ThreadStatsAux::new();
}

/// The sums, in nanoseconds, and the counts that the reported averages divide
/// one by the other. A count of 0 reports an average of 0.
#[derive(Clone, Copy)]
pub struct ProcessReport {
    pub critical_ns: u64,
    pub outside_elapsed_ns: u64,
    pub lock_count: u64,
    pub outside_gap_ns: u64,
    pub outside_gap_samples: u64,
}

/// What the process totals amount to.
pub fn process_report(totals: &ProcessTotals, calibration: &TscCalibration) -> (r: ProcessReport)
    ensures
        r.critical_ns == calibration.total_ns(totals.hold_total as int),
        r.outside_elapsed_ns == arith::monus(
            calibration.total_ns(totals.thread_elapsed_total as int),
            arith::min_int(
                calibration.total_ns(totals.wait_total as int) + calibration.total_ns(
                    totals.hold_total as int,
                ),
                u64::MAX as int,
            ),
        ),
        r.lock_count == totals.lock_count,
        r.outside_gap_ns == calibration.total_ns(totals.outside_gap_total as int),
        r.outside_gap_samples == totals.outside_gap_samples,
{
    let elapsed_ns: u64 = arch::wait_time_total_to_ns(calibration, totals.thread_elapsed_total);
    let wait_ns: u64 = arch::wait_time_total_to_ns(calibration, totals.wait_total);
    let hold_ns: u64 = arch::wait_time_total_to_ns(calibration, totals.hold_total);
    ProcessReport {
        critical_ns: hold_ns,
        outside_elapsed_ns: elapsed_ns.saturating_sub(wait_ns.saturating_add(hold_ns)),
        lock_count: totals.lock_count,
        outside_gap_ns: arch::wait_time_total_to_ns(calibration, totals.outside_gap_total),
        outside_gap_samples: totals.outside_gap_samples,
    }
}

/// The averages of a class, as they are printed: of its last window, and those
/// that its width goes by.
pub struct ClassAverages {
    pub cs_ns: String,
    pub ncs_ns: String,
    pub ewma_cs_ns: String,
    pub ewma_ncs_ns: String,
}

/// What the report says of a class's width.
pub open spec fn width_text(entry: ControllerView, averages: ClassAverages) -> Seq<char> {
    field(" width="@, entry.width as int) + field(" published_width="@, entry.published as int)
        + field(" seed="@, entry.seed as int) + field(" width_changes="@, entry.changes as int)
        + text_field(" ewma_cs_ns="@, averages.ewma_cs_ns@) + text_field(
        " ewma_ncs_ns="@,
        averages.ewma_ncs_ns@,
    ) + text_field(" width_history="@, joined(entry.history))
}

/// Whether the loop ever committed a width for a class.
pub open spec fn has_width(controller_active: bool, entry: ControllerView) -> bool {
    controller_active && (entry.width != 0 || entry.history.len() > 0)
}

/// The line of a class.
pub open spec fn class_text(
    class: int,
    stats: ClassStats,
    averages: ClassAverages,
    controller_active: bool,
    entry: ControllerView,
) -> Seq<char> {
    field("class_stats: id="@, class) + text_field(" avg_cs_ns="@, averages.cs_ns@) + text_field(
        " avg_ncs_ns="@,
        averages.ncs_ns@,
    ) + field(" acquires="@, stats.acquires as int) + (if has_width(controller_active, entry) {
        width_text(entry, averages)
    } else {
        Seq::empty()
    }) + "\n"@
}

/// The lines of the managed classes below `n` that were acquired at all.
pub open spec fn classes_text(
    table: ClassStatsTable,
    averages: Seq<ClassAverages>,
    controller_active: bool,
    classes: Seq<ClassController>,
    n: int,
) -> Seq<char>
    decreases n,
{
    if n <= 1 {
        Seq::empty()
    } else {
        let before = classes_text(table, averages, controller_active, classes, n - 1);
        if table.classes@[n - 1].acquires != 0 {
            before + class_text(
                n - 1,
                table.classes@[n - 1],
                averages[n - 1],
                controller_active,
                classes[n - 1]@,
            )
        } else {
            before
        }
    }
}

fn append_width(out: &mut String, report: &ClassWidthReport, averages: &ClassAverages)
    ensures
        final(out)@ == old(out)@ + field(" width="@, report.width as int) + field(
            " published_width="@,
            report.published as int,
        ) + field(" seed="@, report.seed as int) + field(" width_changes="@, report.changes as int)
            + text_field(" ewma_cs_ns="@, averages.ewma_cs_ns@) + text_field(
            " ewma_ncs_ns="@,
            averages.ewma_ncs_ns@,
        ) + text_field(" width_history="@, joined(report.history@)),
{
    append_field(out, " width=", report.width as u64);
    append_field(out, " published_width=", report.published as u64);
    append_field(out, " seed=", report.seed as u64);
    append_field(out, " width_changes=", report.changes as u64);
    append_text_field(out, " ewma_cs_ns=", averages.ewma_cs_ns.as_str());
    append_text_field(out, " ewma_ncs_ns=", averages.ewma_ncs_ns.as_str());
    let ghost before = out@;
    out.append(" width_history=");
    append_joined(out, &report.history);
    assert(out@ =~= before + text_field(" width_history="@, joined(report.history@)));
}

fn append_class(
    out: &mut String,
    class: usize,
    stats: &ClassStats,
    averages: &ClassAverages,
    controller_active: bool,
    classes: &[ClassController; CLASS_COUNT],
)
    requires
        class < CLASS_COUNT,
        width_control::all_wf(classes@),
    ensures
        final(out)@ == old(out)@ + class_text(
            class as int,
            *stats,
            *averages,
            controller_active,
            classes@[class as int]@,
        ),
{
    let ghost before = out@;
    let ghost entry = classes@[class as int]@;
    append_field(out, "class_stats: id=", class as u64);
    append_text_field(out, " avg_cs_ns=", averages.cs_ns.as_str());
    append_text_field(out, " avg_ncs_ns=", averages.ncs_ns.as_str());
    append_field(out, " acquires=", stats.acquires);
    let ghost head = field("class_stats: id="@, class as int) + text_field(
        " avg_cs_ns="@,
        averages.cs_ns@,
    ) + text_field(" avg_ncs_ns="@, averages.ncs_ns@) + field(" acquires="@, stats.acquires as int);
    assert(out@ =~= before + head);
    match width_control::class_report(controller_active, classes, class as u32) {
        Some(report) => {
            append_width(out, &report, averages);
            assert(out@ =~= before + head + width_text(entry, *averages));
        },
        None => {
            assert(out@ =~= before + head + Seq::<char>::empty());
        },
    }
    out.append("\n");
    assert(out@ =~= before + class_text(
        class as int,
        *stats,
        *averages,
        controller_active,
        entry,
    ));
}

/// What the process prints. `cpus` is the CPU count that was last set, where
/// there is one; the averages are texts of those that the report's sums and
/// counts make.
pub fn print_process_stats(
    label: &str,
    report: &ProcessReport,
    averages: &ProcessAverages,
    cpus: Option<usize>,
    table: &ClassStatsTable,
    class_averages: &Vec<ClassAverages>,
    controller_active: bool,
    classes: &[ClassController; CLASS_COUNT],
) -> (r: String)
    requires
        class_averages@.len() == CLASS_COUNT,
        width_control::all_wf(classes@),
    ensures
        r@ == process_text(label@, *averages, report.outside_gap_samples) + (match cpus {
            Some(cpus) => number_line("dynamic_cpu_affinity_cpus: "@, cpus as int),
            None => Seq::empty(),
        }) + classes_text(
            *table,
            class_averages@,
            controller_active,
            classes@,
            CLASS_COUNT as int,
        ),
{
    let mut out: String = stats_report::process_lines(label, averages, report.outside_gap_samples);
    let ghost head = out@;
    match cpus {
        Some(cpus) => append_number_line(&mut out, "dynamic_cpu_affinity_cpus: ", cpus as u64),
        None => {
            assert(out@ =~= head + Seq::<char>::empty());
        },
    }
    let ghost head = out@;
    let mut class: usize = 1;
    assert(out@ =~= head + classes_text(*table, class_averages@, controller_active, classes@, 1));
    while class < CLASS_COUNT
        invariant
            1 <= class <= CLASS_COUNT,
            class_averages@.len() == CLASS_COUNT,
            width_control::all_wf(classes@),
            out@ == head + classes_text(
                *table,
                class_averages@,
                controller_active,
                classes@,
                class as int,
            ),
        decreases CLASS_COUNT - class,
    {
        let stats: ClassStats = table.classes[class];
        let ghost before = classes_text(
            *table,
            class_averages@,
            controller_active,
            classes@,
            class as int,
        );
        if stats.acquires != 0 {
            append_class(
                &mut out,
                class,
                &stats,
                &class_averages[class],
                controller_active,
                classes,
            );
            assert(out@ =~= head + (before + class_text(
                class as int,
                stats,
                class_averages@[class as int],
                controller_active,
                classes@[class as int]@,
            )));
        }
        class += 1;
    }
    out
}

/// The counters of condition variables, while they are kept. A line that is
/// missing means that they are not, and never that nothing was counted.
pub fn print_cv_admission_counters(counters: &HookCounters) -> (r: Option<String>)
    ensures
        r is Some == counters.enabled,
        r is Some ==> r->0@ == "[lock_stats] cv_admission"@ + field(
            " hints_published="@,
            counters.admission.hints_published as int,
        ) + field(" specialized_relocks="@, counters.admission.specialized_relocks as int) + field(
            " fallback_relocks="@,
            counters.admission.fallback_relocks as int,
        ) + field(" route_relocks="@, counters.admission.route_relocks as int),
{
    if !mutex_hook::cv_admission_counters_enabled(counters) {
        return None;
    }
    let mut out: String = "[lock_stats] cv_admission".to_owned();
    append_field(&mut out, " hints_published=", counters.admission.hints_published);
    append_field(&mut out, " specialized_relocks=", counters.admission.specialized_relocks);
    append_field(&mut out, " fallback_relocks=", counters.admission.fallback_relocks);
    append_field(&mut out, " route_relocks=", counters.admission.route_relocks);
    Some(out)
}

/// The first `n` routing counters, each behind a blank and its name.
pub open spec fn routing_text(slots: Seq<Option<u64>>, n: int) -> Seq<char>
    decreases n,
{
    if n <= 0 {
        Seq::empty()
    } else {
        routing_text(slots, n - 1) + " "@ + routing_name((n - 1) as usize) + field(
            "="@,
            slots[n - 1]->0 as int,
        )
    }
}

/// The routing counters, while the scheduler publishes them.
pub fn print_bpf_routing_counters(counters: &RoutingCounters) -> (r: Option<String>)
    ensures
        r is Some == (forall|i: int|
            0 <= i < ROUTING_COUNTER_COUNT ==> #[trigger] counters.slots@[i] is Some),
        r is Some ==> r->0@ == "[lock_stats] bpf_routing"@ + routing_text(
            counters.slots@,
            ROUTING_COUNTER_COUNT as int,
        ),
{
    let values: [u64; ROUTING_COUNTER_COUNT] = match counters.routing_counters() {
        Some(values) => values,
        None => {
            return None;
        },
    };
    let mut out: String = "[lock_stats] bpf_routing".to_owned();
    let ghost head = out@;
    let mut i: usize = 0;
    assert(out@ =~= head + routing_text(counters.slots@, 0));
    while i < ROUTING_COUNTER_COUNT
        invariant
            i <= ROUTING_COUNTER_COUNT,
            forall|k: int|
                0 <= k < ROUTING_COUNTER_COUNT ==> Some(#[trigger] values@[k])
                    == counters.slots@[k],
            out@ == head + routing_text(counters.slots@, i as int),
        decreases ROUTING_COUNTER_COUNT - i,
    {
        let ghost before = routing_text(counters.slots@, i as int);
        assert(Some(values@[i as int]) == counters.slots@[i as int]);
        out.append(" ");
        out.append(routing_counter_name(i));
        append_field(&mut out, "=", values[i]);
        assert(out@ =~= head + (before + " "@ + routing_name(i) + field("="@, values@[i as int] as int)));
        i += 1;
    }
    Some(out)
}

// The course of one operation.
pub open spec fn wait_started(aux: ThreadStatsAux, now: u64) -> ThreadStatsAux {
    let aux = started(aux, now);
    ThreadStatsAux {
        wait_start_sample: now,
        outside_wait_start_sample: if aux.outside_sample_pending && aux.outside_wait_start_sample
            == 0 {
            now
        } else {
            aux.outside_wait_start_sample
        },
        ..aux
    }
}

/// Opens the bracket around a wait for the lock. Returns its start, or 0 where
/// the operation is not sampled.
pub fn record_wait_start(aux: &mut ThreadStatsAux, enabled: bool, now: u64) -> (r: u64)
    ensures
        ({
            let decided = sampling_decided(*old(aux), enabled);
            &&& r == if decided.op_sampled {
                now
            } else {
                0
            }
            &&& *final(aux) == if decided.op_sampled {
                wait_started(decided, now)
            } else {
                decided
            }
        }),
{
    decide_operation_sampling_with_enabled(aux, enabled);
    if !aux.op_sampled {
        return 0;
    }
    ensure_thread_start_sample(aux, now);
    aux.wait_start_sample = now;
    if aux.outside_sample_pending && aux.outside_wait_start_sample == 0 {
        aux.outside_wait_start_sample = now;
    }
    now
}

pub open spec fn wait_ended(aux: ThreadStatsAux, wait_start: u64, now: u64) -> ThreadStatsAux {
    let aux = started(aux, now);
    ThreadStatsAux {
        wait_start_sample: wait_start,
        wait_end_sample: now,
        outside_wait_total: if aux.outside_sample_pending && aux.outside_wait_start_sample != 0 {
            now.saturating_sub(aux.outside_wait_start_sample)
        } else {
            aux.outside_wait_total
        },
        ..aux
    }
}

/// Closes the bracket that `wait_start` opened.
pub fn record_wait_end(aux: &mut ThreadStatsAux, wait_start: u64, now: u64)
    ensures
        *final(aux) == if wait_start == 0 {
            *old(aux)
        } else {
            wait_ended(*old(aux), wait_start, now)
        },
{
    if wait_start == 0 {
        return;
    }
    ensure_thread_start_sample(aux, now);
    aux.wait_start_sample = wait_start;
    aux.wait_end_sample = now;
    if aux.outside_sample_pending && aux.outside_wait_start_sample != 0 {
        aux.outside_wait_total = now.saturating_sub(aux.outside_wait_start_sample);
    }
}

pub fn add_cv_sleep_span(aux: &mut ThreadStatsAux, sleep_start: u64, sleep_end: u64)
    ensures
        *final(aux) == (ThreadStatsAux {
            cv_sleep_total: old(aux).cv_sleep_total.saturating_add(
                sleep_end.saturating_sub(sleep_start),
            ),
            ..*old(aux)
        }),
{
    aux.cv_sleep_total = aux.cv_sleep_total.saturating_add(sleep_end.saturating_sub(sleep_start));
}

/// Opens the bracket around a condition-variable sleep. Returns its start, or 0
/// where the operation is not sampled.
pub fn record_cv_sleep_start(aux: &mut ThreadStatsAux, enabled: bool, now: u64) -> (r: u64)
    ensures
        *final(aux) == sampling_decided(*old(aux), enabled),
        r == if sampling_decided(*old(aux), enabled).op_sampled {
            now
        } else {
            0
        },
{
    decide_operation_sampling_with_enabled(aux, enabled);
    if !aux.op_sampled {
        return 0;
    }
    now
}

/// Closes the bracket, and adds the sleep to the span that the next outermost
/// unlock leaves out of its class's non-critical section.
pub fn record_cv_sleep_end(aux: &mut ThreadStatsAux, sleep_start: u64, now: u64)
    ensures
        *final(aux) == if sleep_start == 0 {
            *old(aux)
        } else {
            ThreadStatsAux {
                cv_sleep_total: old(aux).cv_sleep_total.saturating_add(
                    now.saturating_sub(sleep_start),
                ),
                ..*old(aux)
            }
        },
{
    if sleep_start == 0 {
        return;
    }
    add_cv_sleep_span(aux, sleep_start, now);
}

/// The wait for the lock, as far as it is known when the lock is taken.
pub open spec fn wait_at_acquire(aux: ThreadStatsAux, hold_start: u64) -> u64 {
    if aux.wait_start_sample != 0 {
        let wait_end = if aux.wait_end_sample != 0 {
            aux.wait_end_sample
        } else {
            hold_start
        };
        wait_end.saturating_sub(aux.wait_start_sample)
    } else {
        0
    }
}

/// The time outside any lock since the unlock that opened the gap, without the
/// wait for the lock.
pub open spec fn gap_at_acquire(aux: ThreadStatsAux, hold_start: u64) -> u64 {
    hold_start.saturating_sub(aux.outside_unlock_sample).saturating_sub(
        wait_at_acquire(aux, hold_start),
    )
}

pub open spec fn acquired(aux: ThreadStatsAux, outermost: bool, now: u64) -> ThreadStatsAux {
    let aux = ThreadStatsAux { hold_start_sample: now, ..started(aux, now) };
    let armed = if outermost {
        ThreadStatsAux { class_hold_start_sample: now, class_sample_armed: true, ..aux }
    } else {
        aux
    };
    if armed.outside_sample_pending {
        gap_finished(
            ThreadStatsAux {
                outside_gap_total: (armed.outside_gap_total + gap_at_acquire(armed, now)) as u64,
                outside_gap_samples: (armed.outside_gap_samples + 1) as u64,
                ..armed
            },
        )
    } else {
        armed
    }
}

/// Whether the totals have room for what an acquisition at `now` adds to them. One that
/// is not sampled adds nothing.
pub open spec fn acquire_fits(aux: ThreadStatsAux, enabled: bool, now: u64) -> bool {
    sampling_decided(aux, enabled).op_sampled && aux.outside_sample_pending ==> {
        &&& aux.outside_gap_total + gap_at_acquire(aux, now) <= u64::MAX
        &&& aux.outside_gap_samples < u64::MAX
    }
}

pub fn acquire_has_room(aux: &ThreadStatsAux, enabled: bool, now: u64) -> (r: bool)
    ensures
        r == acquire_fits(*aux, enabled, now),
{
    let sampled: bool = if aux.op_sample_decided {
        aux.op_sampled
    } else {
        enabled
    };
    if !sampled || !aux.outside_sample_pending {
        return true;
    }
    let wait_total: u64 = wait_until_hold(aux, now);
    let gap: u64 = now.saturating_sub(aux.outside_unlock_sample).saturating_sub(wait_total);
    aux.outside_gap_samples < u64::MAX && gap <= u64::MAX - aux.outside_gap_total
}

fn wait_until_hold(aux: &ThreadStatsAux, hold_start: u64) -> (r: u64)
    ensures
        r == wait_at_acquire(*aux, hold_start),
{
    if aux.wait_start_sample != 0 {
        let wait_end: u64 = if aux.wait_end_sample != 0 {
            aux.wait_end_sample
        } else {
            hold_start
        };
        wait_end.saturating_sub(aux.wait_start_sample)
    } else {
        0
    }
}

/// Accounts a lock that was just acquired. Only the outermost lock starts a
/// class sample; nested ones fold into it.
pub fn record_lock_acquired_stats(stats: &mut ThreadStats, enabled: bool, now: u64)
    requires
        acquire_fits(old(stats).aux, enabled, now),
    ensures
        ({
            let decided = sampling_decided(old(stats).aux, enabled);
            final(stats).aux == if decided.op_sampled {
                acquired(decided, enabled && old(stats).lock_depth == 0, now)
            } else {
                decided
            }
        }),
        final(stats).lock_depth == if enabled {
            depth_after_enter(old(stats).lock_depth)
        } else {
            old(stats).lock_depth
        },
        final(stats).ctx == old(stats).ctx,
        final(stats).last_unlock == old(stats).last_unlock,
{
    let outermost: bool = enabled && enter_lock_scope_depth(&mut stats.lock_depth);
    decide_operation_sampling_with_enabled(&mut stats.aux, enabled);
    if !stats.aux.op_sampled {
        return;
    }
    ensure_thread_start_sample(&mut stats.aux, now);
    stats.aux.hold_start_sample = now;
    if outermost {
        stats.aux.class_hold_start_sample = now;
        stats.aux.class_sample_armed = true;
    }
    if stats.aux.outside_sample_pending {
        let wait_total: u64 = wait_until_hold(&stats.aux, now);
        stats.aux.outside_wait_total = wait_total;
        let outside_gap: u64 = now.saturating_sub(stats.aux.outside_unlock_sample);
        let outside_total: u64 = outside_gap.saturating_sub(wait_total);
        stats.aux.outside_gap_total += outside_total;
        stats.aux.outside_gap_samples += 1;
        finish_outside_gap_sample(&mut stats.aux);
    }
}

/// Accounts a lock that was just acquired, and shows the scheduler that the
/// thread is inside its critical section.
pub fn record_lock_acquired(
    word: &mut admission::UserAdmissionWord,
    stats: &mut ThreadStats,
    enabled: bool,
    now: u64,
)
    requires
        acquire_fits(old(stats).aux, enabled, now),
    ensures
        final(word)@ == (admission::WordFlags {
            in_critical_section: true,
            slow_path_pending: false,
            ..old(word)@
        }),
        final(word).word == (old(word).word | admission::IN_CRITICAL_SECTION)
            & !admission::SLOW_PATH_PENDING,
        ({
            let decided = sampling_decided(old(stats).aux, enabled);
            final(stats).aux == if decided.op_sampled {
                acquired(decided, enabled && old(stats).lock_depth == 0, now)
            } else {
                decided
            }
        }),
        final(stats).lock_depth == if enabled {
            depth_after_enter(old(stats).lock_depth)
        } else {
            old(stats).lock_depth
        },
        final(stats).ctx == old(stats).ctx,
        final(stats).last_unlock == old(stats).last_unlock,
{
    admission::mark_critical_section_entered(word);
    record_lock_acquired_stats(stats, enabled, now);
}

/// The end of the critical section, or 0 where the operation is not sampled.
pub fn record_hold_end_sample(aux: &ThreadStatsAux, now: u64) -> (r: u64)
    ensures
        r == if aux.op_sampled {
            now
        } else {
            0
        },
{
    if !aux.op_sampled {
        return 0;
    }
    now
}

/// The wait for the lock of an operation that ended at `hold_end`.
pub open spec fn wait_span(aux: ThreadStatsAux, hold_end: u64) -> u64 {
    if hold_end != 0 {
        wait_at_acquire(aux, aux.hold_start_sample)
    } else {
        0
    }
}

/// The critical section of an operation that ended at `hold_end`.
pub open spec fn hold_span(aux: ThreadStatsAux, hold_end: u64) -> u64 {
    if hold_end != 0 && aux.hold_start_sample != 0 {
        hold_end.saturating_sub(aux.hold_start_sample)
    } else {
        0
    }
}

/// A sampled span stands for `stride` of them.
pub open spec fn weighted(span: u64, stride: u64) -> int {
    arith::min_int(span * stride, u64::MAX as int)
}

/// Whether the totals have room for what an unlock adds to them.
pub open spec fn unlock_fits(aux: ThreadStatsAux, hold_end: u64, stride: u64) -> bool {
    &&& aux.lock_count < u64::MAX
    &&& aux.op_sampled ==> {
        &&& aux.wait_total + weighted(wait_span(aux, hold_end), stride) <= u64::MAX
        &&& aux.wait_sample_count < u64::MAX
        &&& aux.hold_total + weighted(hold_span(aux, hold_end), stride) <= u64::MAX
        &&& aux.hold_sample_count < u64::MAX
    }
}

fn span_of_wait(aux: &ThreadStatsAux, hold_end: u64) -> (r: u64)
    ensures
        r == wait_span(*aux, hold_end),
{
    if hold_end != 0 {
        wait_until_hold(aux, aux.hold_start_sample)
    } else {
        0
    }
}

fn span_of_hold(aux: &ThreadStatsAux, hold_end: u64) -> (r: u64)
    ensures
        r == hold_span(*aux, hold_end),
{
    if hold_end != 0 && aux.hold_start_sample != 0 {
        hold_end.saturating_sub(aux.hold_start_sample)
    } else {
        0
    }
}

pub fn unlock_has_room(aux: &ThreadStatsAux, hold_end: u64, stride: u64) -> (r: bool)
    ensures
        r == unlock_fits(*aux, hold_end, stride),
{
    if aux.lock_count == u64::MAX {
        return false;
    }
    if !aux.op_sampled {
        return true;
    }
    let wait: u64 = arith::saturating_mul(span_of_wait(aux, hold_end), stride);
    let hold: u64 = arith::saturating_mul(span_of_hold(aux, hold_end), stride);
    wait <= u64::MAX - aux.wait_total && aux.wait_sample_count < u64::MAX && hold <= u64::MAX
        - aux.hold_total && aux.hold_sample_count < u64::MAX
}

/// The measurement once an operation that ended at `hold_end` is closed out.
/// Nothing of the operation stays open, the sleep span included.
pub open spec fn closed_out(aux: ThreadStatsAux, hold_end: u64, stride: u64) -> ThreadStatsAux {
    let wait = wait_span(aux, hold_end);
    let hold = hold_span(aux, hold_end);
    let elapsed = if hold_end != 0 {
        elapsed_refreshed(aux, hold_end)
    } else {
        aux
    };
    ThreadStatsAux {
        lock_count: (aux.lock_count + 1) as u64,
        wait_total: if aux.op_sampled && wait != 0 {
            (aux.wait_total + weighted(wait, stride)) as u64
        } else {
            aux.wait_total
        },
        wait_sample_count: if aux.op_sampled && wait != 0 {
            (aux.wait_sample_count + 1) as u64
        } else {
            aux.wait_sample_count
        },
        wait_start_sample: 0,
        wait_end_sample: 0,
        cv_sleep_total: 0,
        hold_total: if aux.op_sampled && hold != 0 {
            (aux.hold_total + weighted(hold, stride)) as u64
        } else {
            aux.hold_total
        },
        hold_sample_count: if aux.op_sampled && hold != 0 {
            (aux.hold_sample_count + 1) as u64
        } else {
            aux.hold_sample_count
        },
        hold_start_sample: 0,
        op_sample_decided: false,
        op_sampled: false,
        ..elapsed
    }
}

/// Whether an unlock opens the next sampled gap.
pub open spec fn opens_gap(aux: ThreadStatsAux, enabled: bool) -> bool {
    enabled && !aux.outside_sample_pending && aux.sample_countdown == 0
}

/// When the unlock happened: the end of the critical section, or `now` where
/// that was not measured and is needed.
pub open spec fn unlock_sample_of(
    aux: ThreadStatsAux,
    hold_end: u64,
    enabled: bool,
    now: u64,
) -> u64 {
    if opens_gap(aux, enabled) || (enabled && hold_end == 0) {
        now
    } else {
        hold_end
    }
}

pub open spec fn unlocked(
    aux: ThreadStatsAux,
    hold_end: u64,
    stride: u64,
    enabled: bool,
    now: u64,
) -> ThreadStatsAux {
    let closed = closed_out(aux, hold_end, stride);
    let counted = ThreadStatsAux {
        sample_countdown: if enabled && !aux.outside_sample_pending {
            countdown_after(aux.sample_countdown, stride)
        } else {
            aux.sample_countdown
        },
        ..closed
    };
    if opens_gap(aux, enabled) {
        ThreadStatsAux {
            outside_sample_pending: true,
            outside_unlock_sample: now,
            outside_wait_start_sample: 0,
            outside_wait_total: 0,
            ..counted
        }
    } else {
        counted
    }
}

/// Closes out one unlock of a lock that goes by `class`. Returns the sample to
/// run the width controller's tick at, or 0: a tick only follows an unlock that
/// just contributed evidence.
pub fn record_post_unlock(
    stats: &mut ThreadStats,
    table: &mut ClassStatsTable,
    calibration: &TscCalibration,
    enabled: bool,
    stride: u64,
    hold_end: u64,
    class: u32,
    now: u64,
) -> (r: u64)
    requires
        unlock_fits(old(stats).aux, hold_end, stride),
    ensures
        ({
            let aux = old(stats).aux;
            let outermost = enabled && old(stats).lock_depth == 1;
            let at = unlock_sample_of(aux, hold_end, enabled, now);
            let after = unlocked(aux, hold_end, stride, enabled, now);
            let attributed = outermost && aux.class_sample_armed && is_measured_class(class);
            &&& r == if attributed {
                at
            } else {
                0
            }
            &&& final(stats).aux == if outermost && aux.class_sample_armed {
                ThreadStatsAux { class_sample_armed: false, class_hold_start_sample: 0, ..after }
            } else {
                after
            }
            &&& final(stats).last_unlock@ == if outermost && is_measured_class(class) {
                old(stats).last_unlock@.update(class as int, at)
            } else {
                old(stats).last_unlock@
            }
            &&& final(table).classes@ == if attributed {
                old(table).classes@.update(
                    class as int,
                    old(table).classes@[class as int].with_sample(
                        calibration.elapsed_ns(aux.class_hold_start_sample, at) as u64,
                        outside_ns_of(
                            *calibration,
                            old(stats).last_unlock@[class as int],
                            aux.class_hold_start_sample,
                            wait_span(aux, hold_end),
                            aux.cv_sleep_total,
                        ),
                    ),
                )
            } else {
                old(table).classes@
            }
        }),
        final(stats).ctx == old(stats).ctx,
        final(stats).lock_depth == if enabled {
            depth_after_exit(old(stats).lock_depth)
        } else {
            old(stats).lock_depth
        },
{
    let ghost before = stats.aux;
    let outermost: bool = enabled && exit_lock_scope_depth(&mut stats.lock_depth);
    let wait_total: u64 = span_of_wait(&stats.aux, hold_end);
    let critical_total: u64 = span_of_hold(&stats.aux, hold_end);
    stats.aux.lock_count += 1;
    if hold_end != 0 {
        refresh_thread_elapsed_for_aux(&mut stats.aux, hold_end);
    }
    if stats.aux.op_sampled && wait_total != 0 {
        stats.aux.wait_total += arith::saturating_mul(wait_total, stride);
        stats.aux.wait_sample_count += 1;
    }
    stats.aux.wait_start_sample = 0;
    stats.aux.wait_end_sample = 0;
    let cv_sleep_total: u64 = stats.aux.cv_sleep_total;
    stats.aux.cv_sleep_total = 0;
    if stats.aux.op_sampled && critical_total != 0 {
        stats.aux.hold_total += arith::saturating_mul(critical_total, stride);
        stats.aux.hold_sample_count += 1;
    }
    stats.aux.hold_start_sample = 0;
    finish_operation_sampling(&mut stats.aux);
    assert(stats.aux == closed_out(before, hold_end, stride));
    let begin_next_sample: bool = !stats.aux.outside_sample_pending
        && begin_outside_gap_sample_with_enabled(&mut stats.aux, enabled, stride);
    let post_unlock_sample: u64 = if begin_next_sample || (enabled && hold_end == 0) {
        now
    } else {
        hold_end
    };
    if begin_next_sample {
        stats.aux.outside_sample_pending = true;
        stats.aux.outside_unlock_sample = post_unlock_sample;
        stats.aux.outside_wait_start_sample = 0;
        stats.aux.outside_wait_total = 0;
    }
    assert(stats.aux == unlocked(before, hold_end, stride, enabled, now));
    if outermost {
        if attribute_outermost_class_sample(
            stats,
            table,
            calibration,
            class,
            post_unlock_sample,
            wait_total,
            cv_sleep_total,
        ) {
            return post_unlock_sample;
        }
    }
    0
}

// The CPU count that was last settled on.
pub struct WindowControlState {
    pub last_dynamic_cpu_count: Option<usize>,
}

/// Whether a CPU count was settled on. Without sampling there is nothing to
/// settle.
pub fn dynamic_cpu_affinity_is_stable(
    sampling_enabled: bool,
    control: &WindowControlState,
    current: Option<usize>,
) -> (r: bool)
    ensures
        r == (!sampling_enabled || control.last_dynamic_cpu_count is Some || current is Some),
{
    if !sampling_enabled {
        return true;
    }
    control.last_dynamic_cpu_count.is_some() || current.is_some()
}

/// Keeps the current CPU count, unless one was settled on before.
pub fn dynamic_cpu_affinity_freeze(
    sampling_enabled: bool,
    control: &mut WindowControlState,
    current: Option<usize>,
)
    ensures
        final(control).last_dynamic_cpu_count == if sampling_enabled
            && old(control).last_dynamic_cpu_count is None {
            current
        } else {
            old(control).last_dynamic_cpu_count
        },
{
    if !sampling_enabled {
        return;
    }
    if control.last_dynamic_cpu_count.is_none() {
        control.last_dynamic_cpu_count = current;
    }
}

/// Starts the thread's measurement over.
pub fn dynamic_cpu_affinity_begin_measurement_for_thread(
    stats: &mut ThreadStats,
    calibration: &TscCalibration,
    now_sample: u64,
)
    ensures
        final(stats).aux == (ThreadStatsAux { thread_start_sample: now_sample, ..empty_aux() }),
        final(stats).ctx == (LockSchedThreadCtx {
            thread_start_ns: calibration.sample_ns(now_sample) as u64,
            ..empty_ctx()
        }),
        final(stats).lock_depth == 0,
        final(stats).last_unlock@ == Seq::new(CLASS_COUNT as nat, |class: int| 0u64),
{
    finish_outside_gap_sample(&mut stats.aux);
    reset_thread_measurement_state(stats, calibration, now_sample);
}

/// Time that a thread waits for a lock, or sleeps on a condition variable,
/// never adds to the non-critical section: a longer wait or sleep within the
/// same gap never makes it longer.
pub proof fn law_queueing_never_reads_as_think_time(
    previous_unlock: u64,
    hold_start: u64,
    wait: u64,
    longer_wait: u64,
    sleep: u64,
    longer_sleep: u64,
    calibration: TscCalibration,
)
    requires
        previous_unlock != 0,
        wait <= longer_wait,
        sleep <= longer_sleep,
        // Below the length at which nanoseconds leave 64 bits.
        (hold_start as int) * 1_000_000_000 <= u64::MAX,
    ensures
        outside_ns_of(calibration, previous_unlock, hold_start, longer_wait, longer_sleep)->0
            <= outside_ns_of(calibration, previous_unlock, hold_start, wait, sleep)->0,
{
    let gap = hold_start.saturating_sub(previous_unlock) as int;
    let more = arith::monus(arith::monus(gap, wait as int), sleep as int);
    let less = arith::monus(arith::monus(gap, longer_wait as int), longer_sleep as int);
    assert(less <= more);
    let freq = if calibration.freq_hz == 0 {
        1
    } else {
        calibration.freq_hz as int
    };
    let (a, b) = (less * 1_000_000_000, more * 1_000_000_000);
    assert(a <= b <= u64::MAX);
    vstd::arithmetic::div_mod::lemma_div_is_ordered(a, b, freq);
    assert(b / freq <= b) by (nonlinear_arith)
        requires
            freq >= 1,
            b >= 0,
    ;
    assert(0 <= a / freq) by (nonlinear_arith)
        requires
            freq >= 1,
            a >= 0,
    ;
    vstd::arithmetic::div_mod::lemma_small_mod((a / freq) as nat, 0x1_0000_0000_0000_0000);
    vstd::arithmetic::div_mod::lemma_small_mod((b / freq) as nat, 0x1_0000_0000_0000_0000);
}

// What the measurements amount to.
/// What `stride` operations of `span` each come to, as far as it can be counted.
pub proof fn lemma_weighted(span: u64, stride: u64)
    ensures
        weighted(span, stride) >= 0,
        span * stride <= u64::MAX ==> weighted(span, stride) == stride * span,
        span * stride > u64::MAX ==> weighted(span, stride) == u64::MAX,
        span == 0 ==> weighted(span, stride) == 0,
{
    assert(span * stride >= 0) by (nonlinear_arith);
    assert(span * stride == stride * span) by (nonlinear_arith);
    if span == 0 {
        assert(span * stride == 0) by (nonlinear_arith)
            requires
                span == 0,
        ;
    }
}

/// An unlock adds to the thread's totals and takes nothing from them. The wait and the
/// critical section of a sampled operation count for as many operations as the stride
/// says; an operation that was not sampled adds nothing but itself.
pub proof fn law_totals_accumulate(
    aux: ThreadStatsAux,
    hold_end: u64,
    stride: u64,
    enabled: bool,
    now: u64,
)
    requires
        unlock_fits(aux, hold_end, stride),
    ensures
        ({
            let after = unlocked(aux, hold_end, stride, enabled, now);
            let waited = if aux.wait_start_sample == 0 || hold_end == 0 {
                0
            } else if aux.wait_end_sample != 0 {
                arith::monus(aux.wait_end_sample as int, aux.wait_start_sample as int)
            } else {
                arith::monus(aux.hold_start_sample as int, aux.wait_start_sample as int)
            };
            let held = if aux.hold_start_sample == 0 || hold_end == 0 {
                0
            } else {
                arith::monus(hold_end as int, aux.hold_start_sample as int)
            };
            &&& after.wait_total >= aux.wait_total
            &&& after.hold_total >= aux.hold_total
            &&& after.lock_count - aux.lock_count == 1
            &&& after.outside_gap_total == aux.outside_gap_total
            &&& after.outside_gap_samples == aux.outside_gap_samples
            &&& !aux.op_sampled ==> after.wait_total == aux.wait_total && after.hold_total
                == aux.hold_total && after.wait_sample_count == aux.wait_sample_count
                && after.hold_sample_count == aux.hold_sample_count
            &&& aux.op_sampled && waited * stride <= u64::MAX ==> after.wait_total - aux.wait_total
                == stride * waited
            &&& aux.op_sampled && held * stride <= u64::MAX ==> after.hold_total - aux.hold_total
                == stride * held
            &&& aux.op_sampled ==> after.wait_sample_count - aux.wait_sample_count == (if waited
                > 0 {
                1int
            } else {
                0
            }) && after.hold_sample_count - aux.hold_sample_count == (if held > 0 {
                1int
            } else {
                0
            })
            &&& hold_end != 0 && aux.thread_start_sample != 0 && hold_end
                >= aux.thread_start_sample ==> after.thread_elapsed_total == hold_end
                - aux.thread_start_sample
        }),
{
    lemma_weighted(wait_span(aux, hold_end), stride);
    lemma_weighted(hold_span(aux, hold_end), stride);
}

/// However an operation goes that is sampled, what it adds to the totals is what its
/// caller measured: it waited from `wait_from` to `wait_to`, took the lock at
/// `hold_from` and let it go at `hold_to`. What lies between the unlock before and the
/// lock, without the wait, is the time outside.
pub proof fn law_a_sampled_operation_is_measured(
    aux: ThreadStatsAux,
    wait_from: u64,
    wait_to: u64,
    hold_from: u64,
    hold_to: u64,
    stride: u64,
    outermost: bool,
    now: u64,
)
    requires
        aux.outside_sample_pending,
        !aux.op_sample_decided,
        0 < aux.outside_unlock_sample <= wait_from < wait_to <= hold_from < hold_to,
        aux.wait_total + stride * (wait_to - wait_from) <= u64::MAX,
        aux.hold_total + stride * (hold_to - hold_from) <= u64::MAX,
        aux.outside_gap_total + hold_from <= u64::MAX,
        aux.outside_gap_samples < u64::MAX,
        aux.wait_sample_count < u64::MAX,
        aux.hold_sample_count < u64::MAX,
        aux.lock_count < u64::MAX,
    ensures
        ({
            let waiting = wait_started(sampling_decided(aux, true), wait_from);
            let ready = wait_ended(waiting, wait_from, wait_to);
            let holding = acquired(sampling_decided(ready, true), outermost, hold_from);
            let after = unlocked(holding, hold_to, stride, true, now);
            &&& sampling_decided(aux, true).op_sampled
            &&& unlock_fits(holding, hold_to, stride)
            &&& after.wait_total - aux.wait_total == stride * (wait_to - wait_from)
            &&& after.hold_total - aux.hold_total == stride * (hold_to - hold_from)
            &&& after.outside_gap_total - aux.outside_gap_total == (wait_from
                - aux.outside_unlock_sample) + (hold_from - wait_to)
            &&& after.outside_gap_samples - aux.outside_gap_samples == 1
            &&& after.wait_sample_count - aux.wait_sample_count == 1
            &&& after.hold_sample_count - aux.hold_sample_count == 1
            &&& after.lock_count - aux.lock_count == 1
            &&& outermost ==> holding.class_hold_start_sample == hold_from
                && holding.class_sample_armed
        }),
{
    let waited = (wait_to - wait_from) as u64;
    let held = (hold_to - hold_from) as u64;
    lemma_weighted(waited, stride);
    lemma_weighted(held, stride);
    assert(stride * waited == waited * stride) by (nonlinear_arith);
    assert(stride * held == held * stride) by (nonlinear_arith);
}

/// An operation that is not sampled is counted, and measured in nothing.
pub proof fn law_an_operation_that_is_not_sampled_is_only_counted(
    aux: ThreadStatsAux,
    enabled: bool,
    stride: u64,
    outermost: bool,
    now: u64,
    later: u64,
)
    requires
        !aux.op_sample_decided,
        !aux.outside_sample_pending || !enabled,
        aux.lock_count < u64::MAX,
    ensures
        ({
            let decided = sampling_decided(aux, enabled);
            let after = unlocked(decided, 0, stride, enabled, later);
            &&& !decided.op_sampled
            &&& after.wait_total == aux.wait_total
            &&& after.hold_total == aux.hold_total
            &&& after.outside_gap_total == aux.outside_gap_total
            &&& after.outside_gap_samples == aux.outside_gap_samples
            &&& after.lock_count - aux.lock_count == 1
        }),
{
    lemma_weighted(wait_span(sampling_decided(aux, enabled), 0), stride);
    lemma_weighted(hold_span(sampling_decided(aux, enabled), 0), stride);
}

/// A sample adds its critical section to its class, and the time outside before it where
/// there is one; each goes with a count of its own.
pub proof fn law_class_sums_accumulate(
    stats: ClassStats,
    critical_ns: u64,
    outside_ns: Option<u64>,
)
    requires
        stats.cs_sum_ns + critical_ns <= u64::MAX,
        outside_ns is Some ==> stats.ncs_sum_ns + outside_ns->0 <= u64::MAX,
        stats.cs_count < u64::MAX,
        stats.ncs_count < u64::MAX,
        stats.acquires < u64::MAX,
    ensures
        ({
            let after = stats.with_sample(critical_ns, outside_ns);
            &&& after.cs_sum_ns - stats.cs_sum_ns == critical_ns
            &&& after.cs_count - stats.cs_count == 1
            &&& after.acquires - stats.acquires == 1
            &&& after.ncs_sum_ns - stats.ncs_sum_ns == (if outside_ns is Some {
                outside_ns->0 as int
            } else {
                0
            })
            &&& after.ncs_count - stats.ncs_count == (if outside_ns is Some {
                1int
            } else {
                0
            })
        }),
{
}

/// The time outside before a lock is what lies between the last unlock of its class and
/// the lock, less the waiting and the sleeping in between. A class that was never
/// unlocked has none.
pub proof fn law_time_outside_leaves_waiting_out(
    calibration: TscCalibration,
    previous_unlock: u64,
    hold_start: u64,
    waited: u64,
    slept: u64,
)
    requires
        previous_unlock + waited + slept <= hold_start,
    ensures
        previous_unlock == 0 ==> outside_ns_of(
            calibration,
            previous_unlock,
            hold_start,
            waited,
            slept,
        ) is None,
        previous_unlock > 0 ==> outside_ns_of(
            calibration,
            previous_unlock,
            hold_start,
            waited,
            slept,
        ) == Some(
            calibration.elapsed_ns(
                (previous_unlock + waited + slept) as u64,
                hold_start,
            ) as u64,
        ),
{
}

/// What a thread measured is added to what its process did, each sum to its own.
pub proof fn law_threads_add_to_their_process(totals: ProcessTotals, aux: ThreadStatsAux)
    requires
        totals.thread_elapsed_total + aux.thread_elapsed_total <= u64::MAX,
        totals.wait_total + aux.wait_total <= u64::MAX,
        totals.hold_total + aux.hold_total <= u64::MAX,
        totals.lock_count + aux.lock_count <= u64::MAX,
        totals.outside_gap_total + aux.outside_gap_total <= u64::MAX,
        totals.outside_gap_samples + aux.outside_gap_samples <= u64::MAX,
    ensures
        ({
            let after = totals.with_thread(aux);
            &&& after.thread_elapsed_total - totals.thread_elapsed_total
                == aux.thread_elapsed_total
            &&& after.wait_total - totals.wait_total == aux.wait_total
            &&& after.hold_total - totals.hold_total == aux.hold_total
            &&& after.lock_count - totals.lock_count == aux.lock_count
            &&& after.outside_gap_total - totals.outside_gap_total == aux.outside_gap_total
            &&& after.outside_gap_samples - totals.outside_gap_samples == aux.outside_gap_samples
        }),
{
}

/// A flushed measurement shows each of its sums in nanoseconds, as long as a span of that
/// many cycles takes.
pub proof fn law_a_flush_shows_each_sum(aux: ThreadStatsAux, calibration: TscCalibration)
    ensures
        ({
            let ctx = ctx_of(aux, calibration);
            &&& ctx.thread_elapsed_ns_total == calibration.elapsed_ns(0, aux.thread_elapsed_total)
            &&& ctx.wait_ns_total == calibration.elapsed_ns(0, aux.wait_total)
            &&& ctx.hold_ns_total == calibration.elapsed_ns(0, aux.hold_total)
            &&& ctx.lock_count == aux.lock_count
            &&& ctx.thread_start_ns == if aux.thread_start_sample == 0 {
                0
            } else {
                calibration.sample_ns(aux.thread_start_sample)
            }
            &&& ctx.wait_start_ns == if aux.wait_start_sample == 0 {
                0
            } else {
                calibration.sample_ns(aux.wait_start_sample)
            }
            &&& ctx.hold_start_ns == if aux.hold_start_sample == 0 {
                0
            } else {
                calibration.sample_ns(aux.hold_start_sample)
            }
        }),
{
    arch::lemma_fits(calibration, aux.thread_elapsed_total as int);
    arch::lemma_fits(calibration, aux.wait_total as int);
    arch::lemma_fits(calibration, aux.hold_total as int);
    arch::lemma_fits(
        calibration,
        arith::monus(aux.thread_start_sample as int, calibration.base_cycles as int),
    );
    arch::lemma_fits(
        calibration,
        arith::monus(aux.wait_start_sample as int, calibration.base_cycles as int),
    );
    arch::lemma_fits(
        calibration,
        arith::monus(aux.hold_start_sample as int, calibration.base_cycles as int),
    );
}

/// An unlock counts as of the end of its critical section, and as of `now` where that
/// was not measured or a gap opens.
pub proof fn law_an_unlock_is_dated_by_its_critical_section(
    aux: ThreadStatsAux,
    hold_end: u64,
    enabled: bool,
    now: u64,
)
    ensures
        ({
            let at = unlock_sample_of(aux, hold_end, enabled, now);
            let due = enabled && !aux.outside_sample_pending && aux.sample_countdown == 0;
            &&& at == hold_end || at == now
            &&& !enabled ==> at == hold_end
            &&& hold_end != 0 && !due ==> at == hold_end
            &&& enabled && (hold_end == 0 || due) ==> at == now
        }),
{
}

/// The first unlock after a fresh start opens a gap, and so does every one that the
/// stride makes due while no gap is open; the gap runs from then on.
pub proof fn law_a_due_unlock_opens_a_gap(
    aux: ThreadStatsAux,
    hold_end: u64,
    stride: u64,
    enabled: bool,
    now: u64,
)
    requires
        unlock_fits(aux, hold_end, stride),
    ensures
        ({
            let after = unlocked(aux, hold_end, stride, enabled, now);
            &&& aux.outside_sample_pending ==> after.outside_sample_pending
                && after.outside_unlock_sample == aux.outside_unlock_sample
                && after.sample_countdown == aux.sample_countdown
            &&& !aux.outside_sample_pending && enabled && aux.sample_countdown == 0 ==> {
                &&& after.outside_sample_pending
                &&& after.outside_unlock_sample == now
                &&& after.outside_wait_start_sample == 0
                &&& after.outside_wait_total == 0
                &&& after.sample_countdown == spacing(stride) - 1
            }
            &&& !aux.outside_sample_pending && enabled && aux.sample_countdown > 0 ==> {
                &&& !after.outside_sample_pending
                &&& after.sample_countdown == aux.sample_countdown - 1
            }
            &&& !enabled ==> after.outside_sample_pending == aux.outside_sample_pending
                && after.sample_countdown == aux.sample_countdown
            &&& after.wait_start_sample == 0 && after.wait_end_sample == 0
                && after.hold_start_sample == 0 && after.cv_sleep_total == 0
            &&& !after.op_sampled && !after.op_sample_decided
        }),
{
}

/// A clock that runs back counts for nothing, never for a time that went round: a gap, a
/// wait and a critical section that end before they begin add no time.
pub proof fn law_a_clock_that_runs_back_adds_no_time(
    aux: ThreadStatsAux,
    now: u64,
    outermost: bool,
)
    requires
        aux.outside_gap_samples < u64::MAX,
    ensures
        ({
            let after = acquired(aux, outermost, now);
            let waited = if aux.wait_start_sample == 0 {
                0
            } else if aux.wait_end_sample != 0 {
                aux.wait_end_sample - aux.wait_start_sample
            } else {
                now - aux.wait_start_sample
            };
            let outside = if waited > 0 {
                now - aux.outside_unlock_sample - waited
            } else {
                now - aux.outside_unlock_sample
            };
            &&& aux.outside_sample_pending && outside <= 0 ==> after.outside_gap_total
                == aux.outside_gap_total
            &&& aux.outside_sample_pending && outside > 0 && aux.outside_gap_total + outside
                <= u64::MAX ==> after.outside_gap_total == aux.outside_gap_total + outside
            &&& aux.outside_sample_pending ==> !after.outside_sample_pending
                && after.outside_gap_samples == aux.outside_gap_samples + 1
            &&& aux.outside_sample_pending ==> after.outside_unlock_sample == 0
                && after.outside_wait_start_sample == 0 && after.outside_wait_total == 0
            &&& !aux.outside_sample_pending ==> after.outside_gap_total == aux.outside_gap_total
                && after.outside_gap_samples == aux.outside_gap_samples
            &&& after.hold_start_sample == now
            &&& after.wait_total == aux.wait_total && after.hold_total == aux.hold_total
            &&& outermost ==> after.class_hold_start_sample == now && after.class_sample_armed
            &&& !outermost ==> after.class_hold_start_sample == aux.class_hold_start_sample
                && after.class_sample_armed == aux.class_sample_armed
        }),
        forall|end: u64| end <= aux.hold_start_sample ==> #[trigger] hold_span(aux, end) == 0,
{
}

/// A thread's clock starts with its first sample and not again, and from then on its time
/// is what passed since.
pub proof fn law_a_thread_starts_once(aux: ThreadStatsAux, first: u64, later: u64)
    requires
        aux.thread_start_sample == 0,
        0 < first <= later,
    ensures
        started(aux, first).thread_start_sample == first,
        started(started(aux, first), later).thread_start_sample == first,
        elapsed_refreshed(aux, first).thread_start_sample == first,
        elapsed_refreshed(aux, first).thread_elapsed_total == 0,
        elapsed_refreshed(started(aux, first), later).thread_elapsed_total == later - first,
        elapsed_refreshed(started(aux, first), later).thread_start_sample == first,
        elapsed_refreshed(started(aux, later), first).thread_elapsed_total == 0,
{
}

/// The locks that a thread holds are counted: leaving one undoes entering it.
pub proof fn law_leaving_a_lock_undoes_entering_it(depth: u32)
    ensures
        depth < u32::MAX ==> depth_after_enter(depth) == depth + 1,
        depth > 0 ==> depth_after_exit(depth) == depth - 1,
        depth < u32::MAX ==> depth_after_exit(depth_after_enter(depth)) == depth,
        depth_after_exit(0) == 0,
        depth_after_enter(u32::MAX) == u32::MAX,
{
}

/// A stride is the positive number that is set, with or without white space around it, and
/// otherwise the default one.
pub proof fn law_a_stride_is_the_number_that_is_set(
    before: Seq<char>,
    n: nat,
    after: Seq<char>,
)
    requires
        text::is_blank(before),
        text::is_blank(after),
    ensures
        ({
            let value = before + text::decimal(n) + after;
            &&& 0 < n <= u64::MAX ==> positive_setting(value) == Some(n as int)
            &&& 0 < n <= u64::MAX ==> stride_setting(Some(value)) == n
            &&& n == 0 || n > u64::MAX ==> positive_setting(value) is None
            &&& n == 0 || n > u64::MAX ==> stride_setting(Some(value)) == stride_setting(None)
            &&& stride_setting(Some(before)) == stride_setting(None)
        }),
        stride_setting(None) == DEFAULT_SAMPLE_STRIDE,
{
    text::lemma_decimal(n);
    text::law_trimming_leaves_the_text(before, text::decimal(n), after);
    text::law_a_number_reads_as_it_was_written(n, u64::MAX as int);
    text::law_trimming_leaves_the_text(before, Seq::empty(), Seq::empty());
    assert(before + Seq::<char>::empty() + Seq::<char>::empty() =~= before);
}

/// A wait that begins inside an open gap is noted there once, at its first start, and its
/// length up to its end is kept with the gap. Outside a gap nothing is.
pub proof fn law_a_gap_knows_the_wait_in_it(
    aux: ThreadStatsAux,
    from: u64,
    again: u64,
    to: u64,
)
    requires
        0 < from <= again <= to,
        aux.outside_wait_start_sample == 0,
    ensures
        ({
            let waiting = wait_started(wait_started(aux, from), again);
            let ended = wait_ended(waiting, again, to);
            &&& ended.wait_start_sample == again
            &&& ended.wait_end_sample == to
            &&& aux.outside_sample_pending ==> ended.outside_wait_start_sample == from
                && ended.outside_wait_total == to - from
            &&& !aux.outside_sample_pending ==> ended.outside_wait_start_sample == 0
                && ended.outside_wait_total == aux.outside_wait_total
        }),
{
}

/// Statistics are kept of the managed classes alone.
pub proof fn law_only_managed_classes_are_measured(class: u32)
    ensures
        is_measured_class(class) <==> 1 <= class < 64,
{
}

/// The classes that were acquired at all are reported, each once and in order, and no
/// others; what is said of a width is said only where the loop committed one.
pub proof fn law_acquired_classes_are_reported(
    table: ClassStatsTable,
    averages: Seq<ClassAverages>,
    controller_active: bool,
    classes: Seq<ClassController>,
    class: int,
)
    requires
        1 <= class < CLASS_COUNT,
    ensures
        ({
            let before = classes_text(table, averages, controller_active, classes, class);
            let after = classes_text(table, averages, controller_active, classes, class + 1);
            let entry = classes[class]@;
            let stats = table.classes@[class];
            let line = class_text(class, stats, averages[class], controller_active, entry);
            &&& stats.acquires == 0 ==> after == before
            &&& stats.acquires > 0 ==> after == before + line
        }),
        classes_text(table, averages, controller_active, classes, 1).len() == 0,
        ({
            let entry = classes[class]@;
            has_width(controller_active, entry) <==> controller_active && (entry.width > 0
                || entry.history.len() > 0)
        }),
{
}

/// A new thread has measured nothing: it adds nothing to its process, and shows nothing. Its
/// first unlock opens a gap, and the operation after it is sampled.
pub proof fn law_a_new_thread_has_measured_nothing(
    totals: ProcessTotals,
    calibration: TscCalibration,
    stride: u64,
    now: u64,
)
    ensures
        contributes_nothing(empty_aux()),
        totals.with_thread(empty_aux()) == totals,
        ctx_of(empty_aux(), calibration) == empty_ctx(),
        ({
            let first = unlocked(empty_aux(), 0, stride, true, now);
            &&& first.lock_count == 1
            &&& first.outside_sample_pending
            &&& first.outside_unlock_sample == now
            &&& sampling_decided(first, true).op_sampled
            &&& !sampling_decided(empty_aux(), true).op_sampled
        }),
{
    arch::lemma_fits(calibration, 0);
    assert(calibration.total_ns(0) == 0) by {
        arch::law_time_never_runs_backwards(calibration, 0, 0);
    }
}

/// A thread that has nothing to contribute is one whose every sum is nothing.
pub proof fn law_a_thread_without_sums_contributes_nothing(
    totals: ProcessTotals,
    aux: ThreadStatsAux,
)
    ensures
        contributes_nothing(aux) ==> totals.with_thread(aux) == totals,
        aux.lock_count > 0 || aux.wait_total > 0 || aux.hold_total > 0 || aux.outside_gap_samples
            > 0 || aux.outside_gap_total > 0 || aux.thread_elapsed_total > 0
            ==> !contributes_nothing(aux),
{
}

/// Whether an operation is sampled is decided once: what was decided stays, whatever is
/// switched on or off meanwhile.
pub proof fn law_sampling_is_decided_once(aux: ThreadStatsAux, enabled: bool, later: bool)
    ensures
        ({
            let decided = sampling_decided(aux, enabled);
            &&& decided.op_sample_decided
            &&& sampling_decided(decided, later) == decided
            &&& !aux.op_sample_decided ==> decided.op_sampled == (enabled
                && aux.outside_sample_pending)
            &&& aux.op_sample_decided ==> decided == aux
            &&& decided.wait_total == aux.wait_total && decided.hold_total == aux.hold_total
            &&& decided.sample_countdown == aux.sample_countdown
        }),
{
}

/// The totals have room just where what is added can be counted: then an acquisition takes
/// nothing from them.
pub proof fn law_an_acquisition_fits_where_it_can_be_counted(
    aux: ThreadStatsAux,
    enabled: bool,
    now: u64,
    outermost: bool,
)
    ensures
        aux.outside_gap_total + now <= u64::MAX && aux.outside_gap_samples < u64::MAX
            ==> acquire_fits(aux, enabled, now),
        !aux.outside_sample_pending ==> acquire_fits(aux, enabled, now),
        acquire_fits(aux, enabled, now) && sampling_decided(aux, enabled).op_sampled ==> acquired(
            aux,
            outermost,
            now,
        ).outside_gap_total >= aux.outside_gap_total && acquired(
            aux,
            outermost,
            now,
        ).outside_gap_samples >= aux.outside_gap_samples,
{
}

} // verus!
