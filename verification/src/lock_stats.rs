//! Timing statistics of lock operations with a heatmap of them, and the
//! admission state that a thread shows the scheduler.
//!
//! Times are timing samples; the caller reads the counter and hands the reading
//! over as `now`. A sample of 0 stands for "not measured".
use vstd::prelude::*;

use crate::accordin_shared::lock_stats::{
    advance_periodic_sample, countdown_after, lemma_weighted, parse_positive_u64, positive_setting,
    spacing, weighted, ProcessReport, ProcessTotals,
};
use crate::arith;
use crate::heatmap;
use crate::heatmap::{HeatmapConfig, HeatmapState, HeatmapWriteSummary};
use crate::lb_shared::arch;
use crate::lb_shared::arch::TscCalibration;
use crate::stats_report;
use crate::stats_report::{
    append_number_line, append_text_line, number_line, process_text, text_line, ProcessAverages,
};
use crate::text;

verus! {

pub const DEFAULT_TIMING_SAMPLE_STRIDE: u64 = 8;

/// The CPU of a thread that was granted none.
pub const ADMISSION_CPU_NONE: u32 = u32::MAX;

/// The state of a thread that the scheduler reads.
#[derive(Clone, Copy)]
pub struct LockSchedThreadCtx {
    pub thread_start_ns: u64,
    pub thread_elapsed_ns_total: u64,
    pub wait_ns_total: u64,
    pub wait_start_ns: u64,
    pub hold_ns_total: u64,
    pub hold_start_ns: u64,
    pub lock_count: u64,
    pub admission_owned: u32,
    pub admission_cpu: u32,
    pub admission_requeue_home: u32,
    pub in_critical_section: u32,
    pub slow_path_pending: u32,
}

pub open spec fn empty_ctx() -> LockSchedThreadCtx {
    LockSchedThreadCtx {
        thread_start_ns: 0,
        thread_elapsed_ns_total: 0,
        wait_ns_total: 0,
        wait_start_ns: 0,
        hold_ns_total: 0,
        hold_start_ns: 0,
        lock_count: 0,
        admission_owned: 0,
        admission_cpu: ADMISSION_CPU_NONE,
        admission_requeue_home: 0,
        in_critical_section: 0,
        slow_path_pending: 0,
    }
}

impl LockSchedThreadCtx {
    pub fn new() -> (r: Self)
        ensures
            r == empty_ctx(),
    {
        LockSchedThreadCtx {
            thread_start_ns: 0,
            thread_elapsed_ns_total: 0,
            wait_ns_total: 0,
            wait_start_ns: 0,
            hold_ns_total: 0,
            hold_start_ns: 0,
            lock_count: 0,
            admission_owned: 0,
            admission_cpu: ADMISSION_CPU_NONE,
            admission_requeue_home: 0,
            in_critical_section: 0,
            slow_path_pending: 0,
        }
    }
}

// Admission.
pub fn thread_has_admission(ctx: &LockSchedThreadCtx) -> (r: bool)
    ensures
        r == (ctx.admission_owned != 0),
{
    ctx.admission_owned != 0
}

pub fn mark_slow_path_pending(ctx: &mut LockSchedThreadCtx)
    ensures
        *final(ctx) == (LockSchedThreadCtx {
            slow_path_pending: 1,
            in_critical_section: 0,
            ..*old(ctx)
        }),
{
    ctx.slow_path_pending = 1;
    ctx.in_critical_section = 0;
}

pub fn grant_slow_path_admission(ctx: &mut LockSchedThreadCtx, cpu: u32)
    ensures
        *final(ctx) == (LockSchedThreadCtx {
            admission_owned: 1,
            admission_cpu: cpu,
            admission_requeue_home: 0,
            ..*old(ctx)
        }),
{
    ctx.admission_owned = 1;
    ctx.admission_cpu = cpu;
    ctx.admission_requeue_home = 0;
}

pub fn mark_critical_section_entered(ctx: &mut LockSchedThreadCtx)
    ensures
        *final(ctx) == (LockSchedThreadCtx {
            slow_path_pending: 0,
            in_critical_section: 1,
            admission_requeue_home: 0,
            ..*old(ctx)
        }),
{
    ctx.slow_path_pending = 0;
    ctx.in_critical_section = 1;
    ctx.admission_requeue_home = 0;
}

pub open spec fn without_admission(ctx: LockSchedThreadCtx) -> LockSchedThreadCtx {
    LockSchedThreadCtx {
        admission_owned: 0,
        admission_cpu: ADMISSION_CPU_NONE,
        admission_requeue_home: 0,
        in_critical_section: 0,
        slow_path_pending: 0,
        ..ctx
    }
}

pub fn clear_admission_state(ctx: &mut LockSchedThreadCtx)
    ensures
        *final(ctx) == without_admission(*old(ctx)),
{
    ctx.admission_owned = 0;
    ctx.admission_cpu = ADMISSION_CPU_NONE;
    ctx.admission_requeue_home = 0;
    ctx.in_critical_section = 0;
    ctx.slow_path_pending = 0;
}

// The running measurement.
#[derive(Clone, Copy)]
pub struct ThreadStatsAux {
    pub thread_start_sample: u64,
    pub thread_elapsed_total: u64,
    pub wait_total: u64,
    pub wait_sample_count: u64,
    pub wait_start_sample: u64,
    pub wait_end_sample: u64,
    pub hold_total: u64,
    pub hold_sample_count: u64,
    pub hold_start_sample: u64,
    pub lock_count: u64,
    pub outside_gap_total: u64,
    pub outside_gap_samples: u64,
    pub timing_sample_countdown: u64,
    pub op_sample_decided: bool,
    pub op_sampled: bool,
    pub op_timing_sampled: bool,
    pub outside_sample_countdown: u64,
    pub outside_sample_pending: bool,
    pub outside_unlock_sample: u64,
    pub outside_wait_start_sample: u64,
    pub outside_wait_total: u64,
    pub heatmap_sample_countdown: u64,
    pub heatmap_sample_pending: bool,
    pub heatmap_pending_outside_total: u64,
}

pub open spec fn empty_aux() -> ThreadStatsAux {
    ThreadStatsAux {
        thread_start_sample: 0,
        thread_elapsed_total: 0,
        wait_total: 0,
        wait_sample_count: 0,
        wait_start_sample: 0,
        wait_end_sample: 0,
        hold_total: 0,
        hold_sample_count: 0,
        hold_start_sample: 0,
        lock_count: 0,
        outside_gap_total: 0,
        outside_gap_samples: 0,
        timing_sample_countdown: 0,
        op_sample_decided: false,
        op_sampled: false,
        op_timing_sampled: false,
        outside_sample_countdown: 0,
        outside_sample_pending: false,
        outside_unlock_sample: 0,
        outside_wait_start_sample: 0,
        outside_wait_total: 0,
        heatmap_sample_countdown: 0,
        heatmap_sample_pending: false,
        heatmap_pending_outside_total: 0,
    }
}

impl ThreadStatsAux {
    pub fn new() -> (r: Self)
        ensures
            r == empty_aux(),
    {
        ThreadStatsAux {
            thread_start_sample: 0,
            thread_elapsed_total: 0,
            wait_total: 0,
            wait_sample_count: 0,
            wait_start_sample: 0,
            wait_end_sample: 0,
            hold_total: 0,
            hold_sample_count: 0,
            hold_start_sample: 0,
            lock_count: 0,
            outside_gap_total: 0,
            outside_gap_samples: 0,
            timing_sample_countdown: 0,
            op_sample_decided: false,
            op_sampled: false,
            op_timing_sampled: false,
            outside_sample_countdown: 0,
            outside_sample_pending: false,
            outside_unlock_sample: 0,
            outside_wait_start_sample: 0,
            outside_wait_total: 0,
            heatmap_sample_countdown: 0,
            heatmap_sample_pending: false,
            heatmap_pending_outside_total: 0,
        }
    }
}

// Settings.
/// Whether a variable holds anything but white space.
pub open spec fn is_set(value: Option<String>) -> bool {
    value matches Some(value) && text::trim(value@).len() > 0
}

/// The trimmed text of the first variable that holds any.
pub open spec fn first_set(values: Seq<Option<String>>) -> Option<Seq<char>>
    decreases values.len(),
{
    if values.len() == 0 {
        None
    } else if is_set(values[0]) {
        Some(text::trim(values[0]->0@))
    } else {
        first_set(values.subrange(1, values.len() as int))
    }
}

/// `values` holds the variables in the order they are looked at, `None` where
/// one is not set.
pub fn first_env_string(values: &Vec<Option<String>>) -> (r: Option<String>)
    ensures
        match r {
            Some(value) => first_set(values@) == Some(value@),
            None => first_set(values@) is None,
        },
{
    let mut k: usize = 0;
    proof {
        assert(values@.subrange(0, values@.len() as int) =~= values@);
    }
    while k < values.len()
        invariant
            k <= values@.len(),
            first_set(values@) == first_set(values@.subrange(k as int, values@.len() as int)),
        decreases values@.len() - k,
    {
        let ghost rest = values@.subrange(k as int, values@.len() as int);
        proof {
            assert(rest.subrange(1, rest.len() as int) =~= values@.subrange(
                k as int + 1,
                values@.len() as int,
            ));
            assert(rest[0] == values@[k as int]);
        }
        if let Some(value) = &values[k] {
            let chars: Vec<char> = text::chars_of(value.as_str());
            let range: (usize, usize) = text::trim_range(&chars, 0, chars.len());
            proof {
                assert(chars@.subrange(0, chars@.len() as int) =~= value@);
            }
            if range.0 < range.1 {
                return Some(value.as_str().substring_char(range.0, range.1).to_owned());
            }
        }
        k += 1;
    }
    None
}

/// The first variable from `from` on that holds any text.
pub open spec fn first_set_index(values: Seq<Option<String>>, from: int) -> int
    decreases values.len() - from,
{
    if from >= values.len() {
        values.len() as int
    } else if is_set(values[from]) {
        from
    } else {
        first_set_index(values, from + 1)
    }
}

/// Names with "or" between them.
pub open spec fn alternatives(names: Seq<String>) -> Seq<char>
    decreases names.len(),
{
    if names.len() == 0 {
        Seq::empty()
    } else if names.len() == 1 {
        names[0]@
    } else {
        alternatives(names.drop_last()) + " or "@ + names.last()@
    }
}

fn append_alternatives(out: &mut String, names: &Vec<String>)
    ensures
        final(out)@ == old(out)@ + alternatives(names@),
{
    let ghost before = out@;
    let mut i: usize = 0;
    assert(out@ =~= before + alternatives(names@.take(0)));
    while i < names.len()
        invariant
            i <= names@.len(),
            out@ == before + alternatives(names@.take(i as int)),
        decreases names@.len() - i,
    {
        let ghost longer = names@.take(i as int + 1);
        assert(longer.drop_last() =~= names@.take(i as int));
        if i > 0 {
            out.append(" or ");
        }
        out.append(names[i].as_str());
        assert(out@ =~= before + alternatives(longer));
        i += 1;
    }
    assert(names@.take(i as int) =~= names@);
}

/// What the user is told of the first variable among `keys` that is set and no
/// longer counts. `values` are theirs.
pub fn warn_ignored_env(
    keys: &Vec<String>,
    values: &Vec<Option<String>>,
    replacement_keys: &Vec<String>,
) -> (r: Option<String>)
    requires
        keys@.len() == values@.len(),
    ensures
        ({
            let i = first_set_index(values@, 0);
            match r {
                Some(warning) => {
                    &&& i < values@.len()
                    &&& warning@ == "[lock_stats] ignoring "@ + keys@[i]@ + "="@ + text::trim(
                        values@[i]->0@,
                    ) + "; use "@ + alternatives(replacement_keys@) + " instead"@
                },
                None => i == values@.len(),
            }
        }),
{
    let mut k: usize = 0;
    while k < values.len()
        invariant
            k <= values@.len(),
            keys@.len() == values@.len(),
            first_set_index(values@, 0) == first_set_index(values@, k as int),
        decreases values@.len() - k,
    {
        if let Some(value) = &values[k] {
            let chars: Vec<char> = text::chars_of(value.as_str());
            let range: (usize, usize) = text::trim_range(&chars, 0, chars.len());
            assert(chars@.subrange(0, chars@.len() as int) =~= value@);
            if range.0 < range.1 {
                let mut out: String = "[lock_stats] ignoring ".to_owned();
                out.append(keys[k].as_str());
                out.append("=");
                out.append(value.as_str().substring_char(range.0, range.1));
                out.append("; use ");
                append_alternatives(&mut out, replacement_keys);
                out.append(" instead");
                return Some(out);
            }
        }
        k += 1;
    }
    None
}

/// The positive number that the first variable with any text holds, or
/// `default`.
pub open spec fn number_of(values: Seq<Option<String>>, default: u64) -> int {
    match first_set(values) {
        Some(value) => match positive_setting(value) {
            Some(number) => number,
            None => default as int,
        },
        None => default as int,
    }
}

pub fn parse_env_u64(values: &Vec<Option<String>>, default: u64) -> (r: u64)
    ensures
        r == number_of(values@, default),
{
    match first_env_string(values) {
        Some(value) => match parse_positive_u64(value.as_str()) {
            Some(number) => number,
            None => default,
        },
        None => default,
    }
}

pub fn parse_timing_sample_stride(value: Option<&str>) -> (r: u64)
    ensures
        r == match value {
            Some(value) => match positive_setting(value@) {
                Some(stride) => stride,
                None => DEFAULT_TIMING_SAMPLE_STRIDE as int,
            },
            None => DEFAULT_TIMING_SAMPLE_STRIDE as int,
        },
{
    match value {
        Some(value) => match parse_positive_u64(value) {
            Some(stride) => stride,
            None => DEFAULT_TIMING_SAMPLE_STRIDE,
        },
        None => DEFAULT_TIMING_SAMPLE_STRIDE,
    }
}

/// The stride of outside samples: its own setting, or the timing stride where
/// that holds no number.
pub fn outside_sample_stride(values: &Vec<Option<String>>, timing_stride: u64) -> (r: u64)
    ensures
        r == number_of(values@, timing_stride),
{
    parse_env_u64(values, timing_stride)
}

/// What the heatmap is configured by: for each setting the variables that may
/// hold it, in the order they are looked at.
pub struct HeatmapSettings {
    pub path: Vec<Option<String>>,
    pub sample_stride: Vec<Option<String>>,
    pub window_ns: Vec<Option<String>>,
    pub min_window_samples: Vec<Option<String>>,
    pub max_ns: Vec<Option<String>>,
    pub dynamic_cpu_min_window_samples: Vec<Option<String>>,
    pub dynamic_cpu_confirm_windows: Vec<Option<String>>,
    pub dynamic_cpu_stable_windows: Vec<Option<String>>,
}

/// The heatmap's configuration, or `None` where neither a path asks for it nor
/// the CPU count is controlled by it.
pub fn heatmap_config(settings: &HeatmapSettings, dynamic_cpu_affinity: bool) -> (r: Option<
    HeatmapConfig,
>)
    ensures
        match r {
            Some(config) => {
                &&& first_set(settings.path@) is Some || dynamic_cpu_affinity
                &&& config.wf()
                &&& config.path is Some == first_set(settings.path@) is Some
                &&& config.path matches Some(path) ==> first_set(settings.path@) == Some(path@)
                &&& config.dynamic_cpu_affinity == dynamic_cpu_affinity
                &&& config.sample_stride == heatmap::at_least_one(
                    number_of(
                        settings.sample_stride@,
                        heatmap::DEFAULT_HEATMAP_SAMPLE_STRIDE,
                    ) as u64,
                )
                &&& config.window_ns == heatmap::at_least_one(
                    number_of(settings.window_ns@, heatmap::DEFAULT_HEATMAP_WINDOW_NS) as u64,
                )
                &&& config.min_window_samples == heatmap::at_least_one(
                    number_of(
                        settings.min_window_samples@,
                        heatmap::DEFAULT_HEATMAP_MIN_WINDOW_SAMPLES,
                    ) as u64,
                )
                &&& config.max_ns == heatmap::at_least_one(
                    number_of(settings.max_ns@, heatmap::DEFAULT_HEATMAP_MAX_NS) as u64,
                )
                &&& config.max_bin_index == heatmap::bit_length(config.max_ns as nat)
                &&& config.dynamic_cpu_min_window_samples == heatmap::at_least_one(
                    number_of(
                        settings.dynamic_cpu_min_window_samples@,
                        heatmap::DEFAULT_DYNAMIC_CPU_MIN_WINDOW_SAMPLES,
                    ) as u64,
                )
                &&& config.dynamic_cpu_confirm_windows == heatmap::at_least_one(
                    number_of(
                        settings.dynamic_cpu_confirm_windows@,
                        heatmap::DEFAULT_DYNAMIC_CPU_CONFIRM_WINDOWS,
                    ) as u64,
                )
                &&& config.dynamic_cpu_stable_windows == heatmap::at_least_one(
                    number_of(
                        settings.dynamic_cpu_stable_windows@,
                        heatmap::DEFAULT_DYNAMIC_CPU_STABLE_WINDOWS,
                    ) as u64,
                )
            },
            None => first_set(settings.path@) is None && !dynamic_cpu_affinity,
        },
{
    let path: Option<String> = first_env_string(&settings.path);
    if path.is_none() && !dynamic_cpu_affinity {
        return None;
    }
    Some(
        HeatmapConfig::new(
            path,
            parse_env_u64(&settings.sample_stride, heatmap::DEFAULT_HEATMAP_SAMPLE_STRIDE),
            parse_env_u64(&settings.window_ns, heatmap::DEFAULT_HEATMAP_WINDOW_NS),
            parse_env_u64(
                &settings.min_window_samples,
                heatmap::DEFAULT_HEATMAP_MIN_WINDOW_SAMPLES,
            ),
            parse_env_u64(&settings.max_ns, heatmap::DEFAULT_HEATMAP_MAX_NS),
            dynamic_cpu_affinity,
            parse_env_u64(
                &settings.dynamic_cpu_min_window_samples,
                heatmap::DEFAULT_DYNAMIC_CPU_MIN_WINDOW_SAMPLES,
            ),
            parse_env_u64(
                &settings.dynamic_cpu_confirm_windows,
                heatmap::DEFAULT_DYNAMIC_CPU_CONFIRM_WINDOWS,
            ),
            parse_env_u64(
                &settings.dynamic_cpu_stable_windows,
                heatmap::DEFAULT_DYNAMIC_CPU_STABLE_WINDOWS,
            ),
        ),
    )
}

/// The heatmap's stride counted in sampled gaps, rounded up.
pub open spec fn heatmap_stride_of(heatmap_stride: u64, outside_stride: u64) -> int {
    let heatmap = heatmap::at_least_one(heatmap_stride) as int;
    let outside = heatmap::at_least_one(outside_stride) as int;
    arith::min_int(heatmap + outside - 1, u64::MAX as int) / outside
}

pub fn sampled_heatmap_stride(heatmap_stride: u64, outside_stride: u64) -> (r: u64)
    ensures
        r == heatmap_stride_of(heatmap_stride, outside_stride),
{
    let heatmap: u64 = heatmap_stride.max(1);
    let outside: u64 = outside_stride.max(1);
    heatmap.saturating_add(outside - 1) / outside
}

// Sampling.
pub open spec fn sampling_decided(aux: ThreadStatsAux, timing_stride: u64) -> ThreadStatsAux {
    if aux.op_sample_decided {
        aux
    } else {
        let timing_sampled = aux.timing_sample_countdown == 0;
        ThreadStatsAux {
            timing_sample_countdown: countdown_after(aux.timing_sample_countdown, timing_stride),
            op_timing_sampled: timing_sampled,
            op_sampled: timing_sampled || aux.outside_sample_pending,
            op_sample_decided: true,
            ..aux
        }
    }
}

/// Decides, once per operation, whether the operation is sampled: every
/// `timing_stride`-th one is, and so is one that closes a sampled gap.
pub fn decide_operation_sampling(aux: &mut ThreadStatsAux, timing_stride: u64)
    ensures
        *final(aux) == sampling_decided(*old(aux), timing_stride),
{
    if aux.op_sample_decided {
        return;
    }
    let timing_sampled: bool = advance_periodic_sample(
        &mut aux.timing_sample_countdown,
        timing_stride,
    );
    aux.op_timing_sampled = timing_sampled;
    aux.op_sampled = timing_sampled || aux.outside_sample_pending;
    aux.op_sample_decided = true;
}

pub fn finish_operation_sampling(aux: &mut ThreadStatsAux)
    ensures
        *final(aux) == (ThreadStatsAux {
            op_sample_decided: false,
            op_sampled: false,
            op_timing_sampled: false,
            ..*old(aux)
        }),
{
    aux.op_sample_decided = false;
    aux.op_sampled = false;
    aux.op_timing_sampled = false;
}

pub fn begin_outside_gap_sample(aux: &mut ThreadStatsAux, outside_stride: u64) -> (r: bool)
    ensures
        r == (old(aux).outside_sample_countdown == 0),
        *final(aux) == (ThreadStatsAux {
            outside_sample_countdown: countdown_after(
                old(aux).outside_sample_countdown,
                outside_stride,
            ),
            ..*old(aux)
        }),
{
    advance_periodic_sample(&mut aux.outside_sample_countdown, outside_stride)
}

pub open spec fn gap_finished(aux: ThreadStatsAux) -> ThreadStatsAux {
    ThreadStatsAux {
        outside_sample_pending: false,
        outside_unlock_sample: 0,
        outside_wait_start_sample: 0,
        outside_wait_total: 0,
        ..aux
    }
}

pub fn finish_outside_gap_sample(aux: &mut ThreadStatsAux)
    ensures
        *final(aux) == gap_finished(*old(aux)),
{
    aux.outside_sample_pending = false;
    aux.outside_unlock_sample = 0;
    aux.outside_wait_start_sample = 0;
    aux.outside_wait_total = 0;
}

pub fn next_heatmap_sample(
    aux: &mut ThreadStatsAux,
    heatmap_stride: u64,
    outside_stride: u64,
) -> (r: bool)
    ensures
        r == (old(aux).heatmap_sample_countdown == 0),
        *final(aux) == (ThreadStatsAux {
            heatmap_sample_countdown: countdown_after(
                old(aux).heatmap_sample_countdown,
                heatmap_stride_of(heatmap_stride, outside_stride) as u64,
            ),
            ..*old(aux)
        }),
{
    let sampled_stride: u64 = sampled_heatmap_stride(heatmap_stride, outside_stride);
    advance_periodic_sample(&mut aux.heatmap_sample_countdown, sampled_stride)
}

pub open spec fn elapsed_refreshed(aux: ThreadStatsAux, now_sample: u64) -> ThreadStatsAux {
    if aux.thread_start_sample == 0 {
        ThreadStatsAux { thread_start_sample: now_sample, thread_elapsed_total: 0, ..aux }
    } else {
        ThreadStatsAux {
            thread_elapsed_total: now_sample.saturating_sub(aux.thread_start_sample),
            ..aux
        }
    }
}

pub fn refresh_thread_elapsed_for_aux(aux: &mut ThreadStatsAux, now_sample: u64)
    ensures
        *final(aux) == elapsed_refreshed(*old(aux), now_sample),
{
    if aux.thread_start_sample == 0 {
        aux.thread_start_sample = now_sample;
        aux.thread_elapsed_total = 0;
        return;
    }
    aux.thread_elapsed_total = now_sample.saturating_sub(aux.thread_start_sample);
}

pub open spec fn started(aux: ThreadStatsAux, sample: u64) -> ThreadStatsAux {
    if aux.thread_start_sample == 0 {
        ThreadStatsAux { thread_start_sample: sample, ..aux }
    } else {
        aux
    }
}

pub fn ensure_thread_start_sample(aux: &mut ThreadStatsAux, sample: u64)
    ensures
        *final(aux) == started(*old(aux), sample),
{
    if aux.thread_start_sample == 0 {
        aux.thread_start_sample = sample;
    }
}

pub open spec fn optional_ns(calibration: TscCalibration, sample: u64) -> u64 {
    if sample == 0 {
        0
    } else {
        calibration.sample_ns(sample) as u64
    }
}

pub fn convert_optional_sample_to_ns(calibration: &TscCalibration, sample: u64) -> (r: u64)
    ensures
        r == optional_ns(*calibration, sample),
{
    if sample == 0 {
        0
    } else {
        arch::wait_time_to_ns(calibration, sample)
    }
}

pub open spec fn ctx_with(
    ctx: LockSchedThreadCtx,
    aux: ThreadStatsAux,
    calibration: TscCalibration,
) -> LockSchedThreadCtx {
    LockSchedThreadCtx {
        thread_start_ns: optional_ns(calibration, aux.thread_start_sample),
        thread_elapsed_ns_total: calibration.total_ns(aux.thread_elapsed_total as int) as u64,
        wait_ns_total: calibration.total_ns(aux.wait_total as int) as u64,
        wait_start_ns: optional_ns(calibration, aux.wait_start_sample),
        hold_ns_total: calibration.total_ns(aux.hold_total as int) as u64,
        hold_start_ns: optional_ns(calibration, aux.hold_start_sample),
        lock_count: aux.lock_count,
        ..ctx
    }
}

/// Shows the running measurement in nanoseconds. The admission state stays.
pub fn sync_aux_to_ctx(
    ctx: &mut LockSchedThreadCtx,
    aux: &ThreadStatsAux,
    calibration: &TscCalibration,
)
    ensures
        *final(ctx) == ctx_with(*old(ctx), *aux, *calibration),
{
    ctx.thread_start_ns = convert_optional_sample_to_ns(calibration, aux.thread_start_sample);
    ctx.thread_elapsed_ns_total = arch::wait_time_total_to_ns(
        calibration,
        aux.thread_elapsed_total,
    );
    ctx.wait_ns_total = arch::wait_time_total_to_ns(calibration, aux.wait_total);
    ctx.wait_start_ns = convert_optional_sample_to_ns(calibration, aux.wait_start_sample);
    ctx.hold_ns_total = arch::wait_time_total_to_ns(calibration, aux.hold_total);
    ctx.hold_start_ns = convert_optional_sample_to_ns(calibration, aux.hold_start_sample);
    ctx.lock_count = aux.lock_count;
}

pub fn reset_thread_measurement_state(
    ctx: &mut LockSchedThreadCtx,
    aux: &mut ThreadStatsAux,
    calibration: &TscCalibration,
    now_sample: u64,
)
    ensures
        *final(aux) == (ThreadStatsAux { thread_start_sample: now_sample, ..empty_aux() }),
        *final(ctx) == (LockSchedThreadCtx {
            thread_start_ns: calibration.sample_ns(now_sample) as u64,
            ..empty_ctx()
        }),
{
    *aux = ThreadStatsAux::new();
    aux.thread_start_sample = now_sample;
    *ctx = LockSchedThreadCtx::new();
    ctx.thread_start_ns = arch::wait_time_to_ns(calibration, now_sample);
}

/// Starts the thread's measurement, and its admission state, over.
pub fn dynamic_cpu_affinity_begin_measurement_for_thread(
    ctx: &mut LockSchedThreadCtx,
    aux: &mut ThreadStatsAux,
    calibration: &TscCalibration,
    now_sample: u64,
)
    ensures
        *final(aux) == (ThreadStatsAux { thread_start_sample: now_sample, ..empty_aux() }),
        *final(ctx) == (LockSchedThreadCtx {
            thread_start_ns: calibration.sample_ns(now_sample) as u64,
            ..empty_ctx()
        }),
{
    finish_outside_gap_sample(aux);
    reset_thread_measurement_state(ctx, aux, calibration, now_sample);
}

pub fn record_thread_start(aux: &mut ThreadStatsAux, now_sample: u64)
    ensures
        *final(aux) == if old(aux).thread_start_sample == 0 {
            ThreadStatsAux {
                thread_start_sample: now_sample,
                thread_elapsed_total: 0,
                ..*old(aux)
            }
        } else {
            *old(aux)
        },
{
    if aux.thread_start_sample == 0 {
        aux.thread_start_sample = now_sample;
        aux.thread_elapsed_total = 0;
    }
}

pub open spec fn contributes_nothing(aux: ThreadStatsAux) -> bool {
    &&& aux.thread_elapsed_total == 0
    &&& aux.wait_total == 0
    &&& aux.hold_total == 0
    &&& aux.lock_count == 0
    &&& aux.outside_gap_total == 0
    &&& aux.outside_gap_samples == 0
}

pub open spec fn totals_with(totals: ProcessTotals, aux: ThreadStatsAux) -> ProcessTotals {
    ProcessTotals {
        thread_elapsed_total: totals.thread_elapsed_total.wrapping_add(aux.thread_elapsed_total),
        wait_total: totals.wait_total.wrapping_add(aux.wait_total),
        hold_total: totals.hold_total.wrapping_add(aux.hold_total),
        lock_count: totals.lock_count.wrapping_add(aux.lock_count),
        outside_gap_total: totals.outside_gap_total.wrapping_add(aux.outside_gap_total),
        outside_gap_samples: totals.outside_gap_samples.wrapping_add(aux.outside_gap_samples),
    }
}

/// Moves the thread's measurement into the process totals and starts it over.
pub fn flush_current_thread_stats(
    ctx: &mut LockSchedThreadCtx,
    aux: &mut ThreadStatsAux,
    totals: &mut ProcessTotals,
    calibration: &TscCalibration,
    now_sample: u64,
)
    ensures
        ({
            let refreshed = elapsed_refreshed(*old(aux), now_sample);
            &&& *final(ctx) == ctx_with(*old(ctx), refreshed, *calibration)
            &&& *final(aux) == if contributes_nothing(refreshed) {
                refreshed
            } else {
                empty_aux()
            }
            &&& *final(totals) == totals_with(*old(totals), refreshed)
        }),
{
    refresh_thread_elapsed_for_aux(aux, now_sample);
    sync_aux_to_ctx(ctx, aux, calibration);
    if aux.thread_elapsed_total == 0 && aux.wait_total == 0 && aux.hold_total == 0
        && aux.lock_count == 0 && aux.outside_gap_total == 0 && aux.outside_gap_samples == 0 {
        return;
    }
    totals.thread_elapsed_total = totals.thread_elapsed_total.wrapping_add(
        aux.thread_elapsed_total,
    );
    totals.wait_total = totals.wait_total.wrapping_add(aux.wait_total);
    totals.hold_total = totals.hold_total.wrapping_add(aux.hold_total);
    totals.lock_count = totals.lock_count.wrapping_add(aux.lock_count);
    totals.outside_gap_total = totals.outside_gap_total.wrapping_add(aux.outside_gap_total);
    totals.outside_gap_samples = totals.outside_gap_samples.wrapping_add(aux.outside_gap_samples);
    *aux = ThreadStatsAux::new();
}

/// The lines about a heatmap that was written to `path`.
pub open spec fn written_text(
    config: HeatmapConfig,
    path: Seq<char>,
    summary: HeatmapWriteSummary,
) -> Seq<char> {
    text_line("heatmap_path: "@, path) + number_line(
        "heatmap_sample_stride: "@,
        config.sample_stride as int,
    ) + number_line("heatmap_window_ns: "@, config.window_ns as int) + number_line(
        "heatmap_min_window_samples: "@,
        config.min_window_samples as int,
    ) + number_line("heatmap_total_windows: "@, summary.total_windows as int) + number_line(
        "heatmap_valid_windows: "@,
        summary.valid_windows as int,
    ) + number_line("heatmap_invalid_windows: "@, summary.invalid_windows as int) + text_line(
        "heatmap_window_ewma_alpha: "@,
        "0.20"@,
    ) + number_line("heatmap_max_bin_ns: "@, config.max_ns as int)
}

/// The lines about a controlled CPU count.
pub open spec fn control_text(config: HeatmapConfig, cpus: Option<usize>) -> Seq<char> {
    (match cpus {
        Some(cpus) => number_line("dynamic_cpu_affinity_cpus: "@, cpus as int),
        None => Seq::empty(),
    }) + number_line(
        "dynamic_cpu_min_window_samples: "@,
        config.dynamic_cpu_min_window_samples as int,
    ) + number_line(
        "dynamic_cpu_confirm_windows: "@,
        config.dynamic_cpu_confirm_windows as int,
    ) + number_line("dynamic_cpu_stable_windows: "@, config.dynamic_cpu_stable_windows as int)
}

/// The lines about a heatmap. `written`: what was written, where writing it
/// succeeded.
pub open spec fn heatmap_text(
    config: HeatmapConfig,
    written: Option<HeatmapWriteSummary>,
    cpus: Option<usize>,
) -> Seq<char> {
    (match (config.path, written) {
        (Some(path), Some(summary)) => written_text(config, path@, summary),
        _ => Seq::empty(),
    }) + (if config.dynamic_cpu_affinity {
        control_text(config, cpus)
    } else {
        Seq::empty()
    })
}

fn append_written(
    out: &mut String,
    config: &HeatmapConfig,
    path: &str,
    summary: &HeatmapWriteSummary,
)
    ensures
        final(out)@ == old(out)@ + written_text(*config, path@, *summary),
{
    let ghost before = out@;
    append_text_line(out, "heatmap_path: ", path);
    append_number_line(out, "heatmap_sample_stride: ", config.sample_stride);
    append_number_line(out, "heatmap_window_ns: ", config.window_ns);
    append_number_line(out, "heatmap_min_window_samples: ", config.min_window_samples);
    append_number_line(out, "heatmap_total_windows: ", summary.total_windows as u64);
    append_number_line(out, "heatmap_valid_windows: ", summary.valid_windows as u64);
    append_number_line(out, "heatmap_invalid_windows: ", summary.invalid_windows as u64);
    append_text_line(out, "heatmap_window_ewma_alpha: ", "0.20");
    append_number_line(out, "heatmap_max_bin_ns: ", config.max_ns);
    assert(out@ =~= before + written_text(*config, path@, *summary));
}

fn append_control(out: &mut String, config: &HeatmapConfig, cpus: Option<usize>)
    ensures
        final(out)@ == old(out)@ + control_text(*config, cpus),
{
    let ghost before = out@;
    match cpus {
        Some(cpus) => append_number_line(out, "dynamic_cpu_affinity_cpus: ", cpus as u64),
        None => {},
    }
    append_number_line(
        out,
        "dynamic_cpu_min_window_samples: ",
        config.dynamic_cpu_min_window_samples,
    );
    append_number_line(out, "dynamic_cpu_confirm_windows: ", config.dynamic_cpu_confirm_windows);
    append_number_line(out, "dynamic_cpu_stable_windows: ", config.dynamic_cpu_stable_windows);
    assert(out@ =~= before + control_text(*config, cpus));
}

/// What the process prints. `written` is what was written of its heatmap, where
/// there is one and writing it succeeded; `cpus` is the CPU count that was last
/// set. The averages are texts of those that the report's sums and counts make.
pub fn print_process_stats(
    label: &str,
    report: &ProcessReport,
    averages: &ProcessAverages,
    state: Option<&HeatmapState>,
    written: Option<HeatmapWriteSummary>,
    cpus: Option<usize>,
) -> (r: String)
    ensures
        r@ == process_text(label@, *averages, report.outside_gap_samples) + (match state {
            Some(state) => heatmap_text(state.config, written, cpus),
            None => Seq::empty(),
        }),
{
    let mut out: String = stats_report::process_lines(label, averages, report.outside_gap_samples);
    let ghost head = out@;
    match state {
        Some(state) => {
            let config: &HeatmapConfig = &state.config;
            match (&config.path, written) {
                (Some(path), Some(summary)) => {
                    append_written(&mut out, config, path.as_str(), &summary);
                },
                _ => {
                    assert(out@ =~= head + Seq::<char>::empty());
                },
            }
            if config.dynamic_cpu_affinity {
                append_control(&mut out, config, cpus);
            }
            assert(out@ =~= head + heatmap_text(*config, written, cpus));
        },
        None => {
            assert(out@ =~= head + Seq::<char>::empty());
        },
    }
    out
}

// The course of one operation.
pub open spec fn wait_started(aux: ThreadStatsAux, now: u64) -> ThreadStatsAux {
    let aux = started(aux, now);
    ThreadStatsAux {
        wait_start_sample: now,
        outside_wait_start_sample: if aux.outside_sample_pending && aux.outside_wait_start_sample
            == 0 {
            now
        } else {
            aux.outside_wait_start_sample
        },
        ..aux
    }
}

/// Opens the bracket around a wait for the lock. Returns its start, or 0 where
/// the operation is not sampled.
pub fn record_wait_start(aux: &mut ThreadStatsAux, timing_stride: u64, now: u64) -> (r: u64)
    ensures
        ({
            let decided = sampling_decided(*old(aux), timing_stride);
            &&& r == if decided.op_sampled {
                now
            } else {
                0
            }
            &&& *final(aux) == if decided.op_sampled {
                wait_started(decided, now)
            } else {
                decided
            }
        }),
{
    decide_operation_sampling(aux, timing_stride);
    if !aux.op_sampled {
        return 0;
    }
    ensure_thread_start_sample(aux, now);
    aux.wait_start_sample = now;
    if aux.outside_sample_pending && aux.outside_wait_start_sample == 0 {
        aux.outside_wait_start_sample = now;
    }
    now
}

pub open spec fn wait_ended(aux: ThreadStatsAux, wait_start: u64, now: u64) -> ThreadStatsAux {
    let aux = started(aux, now);
    ThreadStatsAux {
        wait_start_sample: wait_start,
        wait_end_sample: now,
        outside_wait_total: if aux.outside_sample_pending && aux.outside_wait_start_sample != 0 {
            now.saturating_sub(aux.outside_wait_start_sample)
        } else {
            aux.outside_wait_total
        },
        ..aux
    }
}

pub fn record_wait_end(aux: &mut ThreadStatsAux, wait_start: u64, now: u64)
    ensures
        *final(aux) == if wait_start == 0 {
            *old(aux)
        } else {
            wait_ended(*old(aux), wait_start, now)
        },
{
    if wait_start == 0 {
        return;
    }
    ensure_thread_start_sample(aux, now);
    aux.wait_start_sample = wait_start;
    aux.wait_end_sample = now;
    if aux.outside_sample_pending && aux.outside_wait_start_sample != 0 {
        aux.outside_wait_total = now.saturating_sub(aux.outside_wait_start_sample);
    }
}

pub open spec fn wait_at_acquire(aux: ThreadStatsAux, hold_start: u64) -> u64 {
    if aux.wait_start_sample != 0 {
        let wait_end = if aux.wait_end_sample != 0 {
            aux.wait_end_sample
        } else {
            hold_start
        };
        wait_end.saturating_sub(aux.wait_start_sample)
    } else {
        0
    }
}

fn wait_until_hold(aux: &ThreadStatsAux, hold_start: u64) -> (r: u64)
    ensures
        r == wait_at_acquire(*aux, hold_start),
{
    if aux.wait_start_sample != 0 {
        let wait_end: u64 = if aux.wait_end_sample != 0 {
            aux.wait_end_sample
        } else {
            hold_start
        };
        wait_end.saturating_sub(aux.wait_start_sample)
    } else {
        0
    }
}

pub open spec fn gap_at_acquire(aux: ThreadStatsAux, hold_start: u64) -> u64 {
    hold_start.saturating_sub(aux.outside_unlock_sample).saturating_sub(
        wait_at_acquire(aux, hold_start),
    )
}

/// Whether the totals have room for what an acquisition at `now` adds to them. One that
/// is not sampled adds nothing.
pub open spec fn acquire_fits(aux: ThreadStatsAux, timing_stride: u64, now: u64) -> bool {
    sampling_decided(aux, timing_stride).op_sampled && aux.outside_sample_pending ==> {
        &&& aux.outside_gap_total + gap_at_acquire(aux, now) <= u64::MAX
        &&& aux.outside_gap_samples < u64::MAX
    }
}

pub fn acquire_has_room(aux: &ThreadStatsAux, timing_stride: u64, now: u64) -> (r: bool)
    ensures
        r == acquire_fits(*aux, timing_stride, now),
{
    if (aux.op_sample_decided && !aux.op_sampled) || !aux.outside_sample_pending {
        return true;
    }
    let gap: u64 = now.saturating_sub(aux.outside_unlock_sample).saturating_sub(
        wait_until_hold(aux, now),
    );
    aux.outside_gap_samples < u64::MAX && gap <= u64::MAX - aux.outside_gap_total
}

/// The measurement once the lock is acquired at `now`. A sampled gap is closed,
/// and remembered for the heatmap where this one is due for it.
pub open spec fn acquired(
    aux: ThreadStatsAux,
    heatmap_stride: Option<u64>,
    outside_stride: u64,
    now: u64,
) -> ThreadStatsAux {
    let held = ThreadStatsAux { hold_start_sample: now, ..started(aux, now) };
    if held.outside_sample_pending {
        let gap = gap_at_acquire(held, now);
        let counted = ThreadStatsAux {
            outside_gap_total: (held.outside_gap_total + gap) as u64,
            outside_gap_samples: (held.outside_gap_samples + 1) as u64,
            ..held
        };
        let mapped = match heatmap_stride {
            Some(heatmap_stride) => {
                let due = counted.heatmap_sample_countdown == 0;
                ThreadStatsAux {
                    heatmap_sample_countdown: countdown_after(
                        counted.heatmap_sample_countdown,
                        heatmap_stride_of(heatmap_stride, outside_stride) as u64,
                    ),
                    heatmap_sample_pending: due,
                    heatmap_pending_outside_total: if due {
                        gap
                    } else {
                        0
                    },
                    ..counted
                }
            },
            None => counted,
        };
        gap_finished(mapped)
    } else {
        held
    }
}

/// Accounts a lock that was just acquired. `heatmap_stride` is the heatmap's
/// sample stride, `None` where there is no heatmap.
pub fn record_lock_acquired(
    aux: &mut ThreadStatsAux,
    timing_stride: u64,
    heatmap_stride: Option<u64>,
    outside_stride: u64,
    now: u64,
)
    requires
        acquire_fits(*old(aux), timing_stride, now),
    ensures
        ({
            let decided = sampling_decided(*old(aux), timing_stride);
            *final(aux) == if decided.op_sampled {
                acquired(decided, heatmap_stride, outside_stride, now)
            } else {
                decided
            }
        }),
{
    decide_operation_sampling(aux, timing_stride);
    if !aux.op_sampled {
        return;
    }
    ensure_thread_start_sample(aux, now);
    aux.hold_start_sample = now;
    if aux.outside_sample_pending {
        let wait_total: u64 = wait_until_hold(aux, now);
        aux.outside_wait_total = wait_total;
        let outside_gap: u64 = now.saturating_sub(aux.outside_unlock_sample);
        let outside_total: u64 = outside_gap.saturating_sub(wait_total);
        aux.outside_gap_total += outside_total;
        aux.outside_gap_samples += 1;
        if let Some(heatmap_stride) = heatmap_stride {
            if next_heatmap_sample(aux, heatmap_stride, outside_stride) {
                aux.heatmap_sample_pending = true;
                aux.heatmap_pending_outside_total = outside_total;
            } else {
                aux.heatmap_sample_pending = false;
                aux.heatmap_pending_outside_total = 0;
            }
        }
        finish_outside_gap_sample(aux);
    }
}

pub fn record_hold_end_sample(aux: &ThreadStatsAux, now: u64) -> (r: u64)
    ensures
        r == if aux.op_sampled {
            now
        } else {
            0
        },
{
    if !aux.op_sampled {
        return 0;
    }
    now
}

pub open spec fn wait_span(aux: ThreadStatsAux, hold_end: u64) -> u64 {
    if hold_end != 0 {
        wait_at_acquire(aux, aux.hold_start_sample)
    } else {
        0
    }
}

pub open spec fn hold_span(aux: ThreadStatsAux, hold_end: u64) -> u64 {
    if hold_end != 0 && aux.hold_start_sample != 0 {
        hold_end.saturating_sub(aux.hold_start_sample)
    } else {
        0
    }
}

fn span_of_wait(aux: &ThreadStatsAux, hold_end: u64) -> (r: u64)
    ensures
        r == wait_span(*aux, hold_end),
{
    if hold_end != 0 {
        wait_until_hold(aux, aux.hold_start_sample)
    } else {
        0
    }
}

fn span_of_hold(aux: &ThreadStatsAux, hold_end: u64) -> (r: u64)
    ensures
        r == hold_span(*aux, hold_end),
{
    if hold_end != 0 && aux.hold_start_sample != 0 {
        hold_end.saturating_sub(aux.hold_start_sample)
    } else {
        0
    }
}

/// Whether the totals have room for what an unlock adds to them.
pub open spec fn unlock_fits(aux: ThreadStatsAux, hold_end: u64, timing_stride: u64) -> bool {
    &&& aux.lock_count < u64::MAX
    &&& aux.op_timing_sampled ==> {
        &&& aux.wait_total + weighted(wait_span(aux, hold_end), timing_stride) <= u64::MAX
        &&& aux.wait_sample_count < u64::MAX
        &&& aux.hold_total + weighted(hold_span(aux, hold_end), timing_stride) <= u64::MAX
        &&& aux.hold_sample_count < u64::MAX
    }
}

pub fn unlock_has_room(aux: &ThreadStatsAux, hold_end: u64, timing_stride: u64) -> (r: bool)
    ensures
        r == unlock_fits(*aux, hold_end, timing_stride),
{
    if aux.lock_count == u64::MAX {
        return false;
    }
    if !aux.op_timing_sampled {
        return true;
    }
    let wait: u64 = arith::saturating_mul(span_of_wait(aux, hold_end), timing_stride);
    let hold: u64 = arith::saturating_mul(span_of_hold(aux, hold_end), timing_stride);
    wait <= u64::MAX - aux.wait_total && aux.wait_sample_count < u64::MAX && hold <= u64::MAX
        - aux.hold_total && aux.hold_sample_count < u64::MAX
}

/// The measurement once an operation that ended at `hold_end` is closed out.
pub open spec fn closed_out(
    aux: ThreadStatsAux,
    hold_end: u64,
    timing_stride: u64,
) -> ThreadStatsAux {
    let wait = wait_span(aux, hold_end);
    let hold = hold_span(aux, hold_end);
    let elapsed = if hold_end != 0 {
        elapsed_refreshed(aux, hold_end)
    } else {
        aux
    };
    ThreadStatsAux {
        lock_count: (aux.lock_count + 1) as u64,
        wait_total: if aux.op_timing_sampled && wait != 0 {
            (aux.wait_total + weighted(wait, timing_stride)) as u64
        } else {
            aux.wait_total
        },
        wait_sample_count: if aux.op_timing_sampled && wait != 0 {
            (aux.wait_sample_count + 1) as u64
        } else {
            aux.wait_sample_count
        },
        wait_start_sample: 0,
        wait_end_sample: 0,
        hold_total: if aux.op_timing_sampled && hold != 0 {
            (aux.hold_total + weighted(hold, timing_stride)) as u64
        } else {
            aux.hold_total
        },
        hold_sample_count: if aux.op_timing_sampled && hold != 0 {
            (aux.hold_sample_count + 1) as u64
        } else {
            aux.hold_sample_count
        },
        hold_start_sample: 0,
        heatmap_sample_pending: false,
        heatmap_pending_outside_total: if aux.heatmap_sample_pending {
            0
        } else {
            aux.heatmap_pending_outside_total
        },
        op_sample_decided: false,
        op_sampled: false,
        op_timing_sampled: false,
        ..elapsed
    }
}

pub open spec fn unlocked(
    aux: ThreadStatsAux,
    hold_end: u64,
    timing_stride: u64,
    outside_stride: u64,
    now: u64,
) -> ThreadStatsAux {
    let closed = closed_out(aux, hold_end, timing_stride);
    if aux.outside_sample_pending {
        closed
    } else {
        let counted = ThreadStatsAux {
            outside_sample_countdown: countdown_after(
                aux.outside_sample_countdown,
                outside_stride,
            ),
            ..closed
        };
        if aux.outside_sample_countdown == 0 {
            ThreadStatsAux {
                outside_sample_pending: true,
                outside_unlock_sample: now,
                outside_wait_start_sample: 0,
                outside_wait_total: 0,
                ..counted
            }
        } else {
            counted
        }
    }
}

/// A sample for the heatmap, in nanoseconds.
#[derive(Clone, Copy, Debug, PartialEq, Eq, Structural)]
pub struct HeatmapSample {
    pub time_ns: u64,
    pub critical_ns: u64,
    pub outside_ns: u64,
}

/// Closes out one unlock. Returns the sample to record in the heatmap, where
/// one was pending and its critical section was measured.
pub fn record_post_unlock(
    aux: &mut ThreadStatsAux,
    calibration: &TscCalibration,
    timing_stride: u64,
    outside_stride: u64,
    hold_end: u64,
    now: u64,
) -> (r: Option<HeatmapSample>)
    requires
        unlock_fits(*old(aux), hold_end, timing_stride),
    ensures
        *final(aux) == unlocked(*old(aux), hold_end, timing_stride, outside_stride, now),
        r == if old(aux).heatmap_sample_pending && hold_end != 0 {
            Some(
                HeatmapSample {
                    time_ns: calibration.sample_ns(hold_end) as u64,
                    critical_ns: calibration.elapsed_ns(
                        old(aux).hold_start_sample,
                        hold_end,
                    ) as u64,
                    outside_ns: calibration.total_ns(
                        old(aux).heatmap_pending_outside_total as int,
                    ) as u64,
                },
            )
        } else {
            None
        },
{
    let ghost before = *aux;
    let wait_total: u64 = span_of_wait(aux, hold_end);
    let critical_total: u64 = span_of_hold(aux, hold_end);
    aux.lock_count += 1;
    if hold_end != 0 {
        refresh_thread_elapsed_for_aux(aux, hold_end);
    }
    if aux.op_timing_sampled && wait_total != 0 {
        aux.wait_total += arith::saturating_mul(wait_total, timing_stride);
        aux.wait_sample_count += 1;
    }
    aux.wait_start_sample = 0;
    aux.wait_end_sample = 0;
    if aux.op_timing_sampled && critical_total != 0 {
        aux.hold_total += arith::saturating_mul(critical_total, timing_stride);
        aux.hold_sample_count += 1;
    }
    let mut sample: Option<HeatmapSample> = None;
    if aux.heatmap_sample_pending {
        if hold_end != 0 {
            sample =
            Some(
                HeatmapSample {
                    time_ns: arch::wait_time_to_ns(calibration, hold_end),
                    critical_ns: arch::wait_time_elapsed_ns_between(
                        calibration,
                        aux.hold_start_sample,
                        hold_end,
                    ),
                    outside_ns: arch::wait_time_total_to_ns(
                        calibration,
                        aux.heatmap_pending_outside_total,
                    ),
                },
            );
        }
        aux.heatmap_sample_pending = false;
        aux.heatmap_pending_outside_total = 0;
    }
    aux.hold_start_sample = 0;
    finish_operation_sampling(aux);
    assert(*aux == closed_out(before, hold_end, timing_stride));
    if !aux.outside_sample_pending && begin_outside_gap_sample(aux, outside_stride) {
        aux.outside_sample_pending = true;
        aux.outside_unlock_sample = now;
        aux.outside_wait_start_sample = 0;
        aux.outside_wait_total = 0;
    }
    sample
}

/// An operation that is not timed leaves every timing total as it was, and an
/// unlock leaves nothing of the operation open.
pub proof fn law_unsampled_operations_add_no_time(
    aux: ThreadStatsAux,
    hold_end: u64,
    timing_stride: u64,
    outside_stride: u64,
    now: u64,
)
    requires
        !aux.op_timing_sampled,
    ensures
        ({
            let after = unlocked(aux, hold_end, timing_stride, outside_stride, now);
            &&& after.wait_total == aux.wait_total
            &&& after.hold_total == aux.hold_total
            &&& after.outside_gap_total == aux.outside_gap_total
            &&& after.wait_start_sample == 0
            &&& after.wait_end_sample == 0
            &&& after.hold_start_sample == 0
            &&& !after.op_sample_decided
            &&& !after.op_sampled
            &&& !after.heatmap_sample_pending
        }),
{
}

/// An unlock adds to the thread's totals and takes nothing from them. The wait and the
/// critical section of a timed operation count for as many operations as the stride
/// says; an operation that was not timed adds nothing but itself.
pub proof fn law_totals_accumulate(
    aux: ThreadStatsAux,
    hold_end: u64,
    timing_stride: u64,
    outside_stride: u64,
    now: u64,
)
    requires
        unlock_fits(aux, hold_end, timing_stride),
    ensures
        ({
            let after = unlocked(aux, hold_end, timing_stride, outside_stride, now);
            let waited = if aux.wait_start_sample == 0 || hold_end == 0 {
                0
            } else if aux.wait_end_sample != 0 {
                arith::monus(aux.wait_end_sample as int, aux.wait_start_sample as int)
            } else {
                arith::monus(aux.hold_start_sample as int, aux.wait_start_sample as int)
            };
            let held = if aux.hold_start_sample == 0 || hold_end == 0 {
                0
            } else {
                arith::monus(hold_end as int, aux.hold_start_sample as int)
            };
            &&& after.wait_total >= aux.wait_total
            &&& after.hold_total >= aux.hold_total
            &&& after.lock_count - aux.lock_count == 1
            &&& after.outside_gap_total == aux.outside_gap_total
            &&& after.outside_gap_samples == aux.outside_gap_samples
            &&& !aux.op_timing_sampled ==> after.wait_total == aux.wait_total && after.hold_total
                == aux.hold_total && after.wait_sample_count == aux.wait_sample_count
                && after.hold_sample_count == aux.hold_sample_count
            &&& aux.op_timing_sampled && waited * timing_stride <= u64::MAX ==> after.wait_total
                - aux.wait_total == timing_stride * waited
            &&& aux.op_timing_sampled && held * timing_stride <= u64::MAX ==> after.hold_total
                - aux.hold_total == timing_stride * held
            &&& aux.op_timing_sampled ==> after.wait_sample_count - aux.wait_sample_count == (
            if waited > 0 {
                1int
            } else {
                0
            }) && after.hold_sample_count - aux.hold_sample_count == (if held > 0 {
                1int
            } else {
                0
            })
            &&& hold_end != 0 && aux.thread_start_sample != 0 && hold_end
                >= aux.thread_start_sample ==> after.thread_elapsed_total == hold_end
                - aux.thread_start_sample
        }),
{
    lemma_weighted(wait_span(aux, hold_end), timing_stride);
    lemma_weighted(hold_span(aux, hold_end), timing_stride);
}

/// However an operation goes that is timed and closes a sampled gap, what it adds to the
/// totals is what its caller measured: it waited from `wait_from` to `wait_to`, took the
/// lock at `hold_from` and let it go at `hold_to`. What lies between the unlock before
/// and the lock, without the wait, is the time outside, and what the heatmap gets of it
/// where it is due.
pub proof fn law_a_timed_operation_is_measured(
    aux: ThreadStatsAux,
    wait_from: u64,
    wait_to: u64,
    hold_from: u64,
    hold_to: u64,
    timing_stride: u64,
    outside_stride: u64,
    heatmap_stride: Option<u64>,
    now: u64,
)
    requires
        aux.outside_sample_pending,
        !aux.op_sample_decided,
        aux.timing_sample_countdown == 0,
        0 < aux.outside_unlock_sample <= wait_from < wait_to <= hold_from < hold_to,
        aux.wait_total + timing_stride * (wait_to - wait_from) <= u64::MAX,
        aux.hold_total + timing_stride * (hold_to - hold_from) <= u64::MAX,
        aux.outside_gap_total + hold_from <= u64::MAX,
        aux.outside_gap_samples < u64::MAX,
        aux.wait_sample_count < u64::MAX,
        aux.hold_sample_count < u64::MAX,
        aux.lock_count < u64::MAX,
    ensures
        ({
            let waiting = wait_started(sampling_decided(aux, timing_stride), wait_from);
            let ready = wait_ended(waiting, wait_from, wait_to);
            let holding = acquired(
                sampling_decided(ready, timing_stride),
                heatmap_stride,
                outside_stride,
                hold_from,
            );
            let after = unlocked(holding, hold_to, timing_stride, outside_stride, now);
            let outside = (wait_from - aux.outside_unlock_sample) + (hold_from - wait_to);
            &&& sampling_decided(aux, timing_stride).op_sampled
            &&& sampling_decided(aux, timing_stride).op_timing_sampled
            &&& unlock_fits(holding, hold_to, timing_stride)
            &&& after.wait_total - aux.wait_total == timing_stride * (wait_to - wait_from)
            &&& after.hold_total - aux.hold_total == timing_stride * (hold_to - hold_from)
            &&& after.outside_gap_total - aux.outside_gap_total == outside
            &&& after.outside_gap_samples - aux.outside_gap_samples == 1
            &&& after.wait_sample_count - aux.wait_sample_count == 1
            &&& after.hold_sample_count - aux.hold_sample_count == 1
            &&& after.lock_count - aux.lock_count == 1
            &&& holding.hold_start_sample == hold_from
            &&& heatmap_stride is Some && aux.heatmap_sample_countdown == 0 ==> {
                &&& holding.heatmap_sample_pending
                &&& holding.heatmap_pending_outside_total == outside
            }
            &&& heatmap_stride is Some && aux.heatmap_sample_countdown > 0 ==> {
                &&& !holding.heatmap_sample_pending
                &&& holding.heatmap_sample_countdown == aux.heatmap_sample_countdown - 1
            }
        }),
{
    let waited = (wait_to - wait_from) as u64;
    let held = (hold_to - hold_from) as u64;
    lemma_weighted(waited, timing_stride);
    lemma_weighted(held, timing_stride);
    assert(timing_stride * waited == waited * timing_stride) by (nonlinear_arith);
    assert(timing_stride * held == held * timing_stride) by (nonlinear_arith);
}

/// Every operation that the stride makes due is timed, and no other; one that closes a
/// gap is sampled, too. What was decided of an operation stays.
pub proof fn law_operations_are_timed_when_due(aux: ThreadStatsAux, timing_stride: u64)
    ensures
        ({
            let decided = sampling_decided(aux, timing_stride);
            &&& decided.op_sample_decided
            &&& aux.op_sample_decided ==> decided == aux
            &&& !aux.op_sample_decided && aux.timing_sample_countdown == 0 ==> {
                &&& decided.op_timing_sampled && decided.op_sampled
                &&& decided.timing_sample_countdown == spacing(timing_stride) - 1
            }
            &&& !aux.op_sample_decided && aux.timing_sample_countdown > 0 ==> {
                &&& !decided.op_timing_sampled
                &&& decided.op_sampled == aux.outside_sample_pending
                &&& decided.timing_sample_countdown == aux.timing_sample_countdown - 1
            }
            &&& sampling_decided(decided, timing_stride) == decided
        }),
{
}

/// An unlock that the stride makes due opens a gap while none is open, and the gap runs
/// from then on.
pub proof fn law_a_due_unlock_opens_a_gap(
    aux: ThreadStatsAux,
    hold_end: u64,
    timing_stride: u64,
    outside_stride: u64,
    now: u64,
)
    ensures
        ({
            let after = unlocked(aux, hold_end, timing_stride, outside_stride, now);
            &&& aux.outside_sample_pending ==> after.outside_sample_pending
                && after.outside_unlock_sample == aux.outside_unlock_sample
                && after.outside_sample_countdown == aux.outside_sample_countdown
            &&& !aux.outside_sample_pending && aux.outside_sample_countdown == 0 ==> {
                &&& after.outside_sample_pending
                &&& after.outside_unlock_sample == now
                &&& after.outside_wait_start_sample == 0
                &&& after.outside_wait_total == 0
                &&& after.outside_sample_countdown == spacing(outside_stride) - 1
            }
            &&& !aux.outside_sample_pending && aux.outside_sample_countdown > 0 ==> {
                &&& !after.outside_sample_pending
                &&& after.outside_sample_countdown == aux.outside_sample_countdown - 1
            }
            &&& after.wait_start_sample == 0 && after.wait_end_sample == 0
                && after.hold_start_sample == 0
            &&& !after.op_sampled && !after.op_sample_decided && !after.op_timing_sampled
            &&& !after.heatmap_sample_pending
            &&& after.timing_sample_countdown == aux.timing_sample_countdown
            &&& after.heatmap_sample_countdown == aux.heatmap_sample_countdown
        }),
{
}

/// The heatmap is due after as many sampled gaps as it takes to cover its own stride of
/// operations, and not one more.
pub proof fn law_the_heatmap_stride_is_rounded_up(heatmap_stride: u64, outside_stride: u64)
    requires
        spacing(heatmap_stride) + spacing(outside_stride) - 1 <= u64::MAX,
    ensures
        ({
            let gaps = heatmap_stride_of(heatmap_stride, outside_stride);
            &&& gaps >= 1
            &&& gaps * spacing(outside_stride) >= spacing(heatmap_stride)
            &&& (gaps - 1) * spacing(outside_stride) < spacing(heatmap_stride)
        }),
{
    let wanted = spacing(heatmap_stride) as int;
    let each = spacing(outside_stride) as int;
    let gaps = heatmap_stride_of(heatmap_stride, outside_stride);
    let total = wanted + each - 1;
    vstd::arithmetic::div_mod::lemma_fundamental_div_mod(total, each);
    vstd::arithmetic::div_mod::lemma_mod_bound(total, each);
    assert(gaps >= 1 && gaps * each >= wanted && (gaps - 1) * each < wanted) by (nonlinear_arith)
        requires
            total == each * gaps + total % each,
            0 <= total % each < each,
            total == wanted + each - 1,
            wanted >= 1,
            each >= 1,
    ;
}

/// What a thread measured is added to what its process did, each sum to its own.
pub proof fn law_threads_add_to_their_process(totals: ProcessTotals, aux: ThreadStatsAux)
    requires
        totals.thread_elapsed_total + aux.thread_elapsed_total <= u64::MAX,
        totals.wait_total + aux.wait_total <= u64::MAX,
        totals.hold_total + aux.hold_total <= u64::MAX,
        totals.lock_count + aux.lock_count <= u64::MAX,
        totals.outside_gap_total + aux.outside_gap_total <= u64::MAX,
        totals.outside_gap_samples + aux.outside_gap_samples <= u64::MAX,
    ensures
        ({
            let after = totals_with(totals, aux);
            &&& after.thread_elapsed_total - totals.thread_elapsed_total
                == aux.thread_elapsed_total
            &&& after.wait_total - totals.wait_total == aux.wait_total
            &&& after.hold_total - totals.hold_total == aux.hold_total
            &&& after.lock_count - totals.lock_count == aux.lock_count
            &&& after.outside_gap_total - totals.outside_gap_total == aux.outside_gap_total
            &&& after.outside_gap_samples - totals.outside_gap_samples == aux.outside_gap_samples
        }),
{
}

/// The thread's statistics show each sum in nanoseconds, as long as a span of that many
/// cycles takes, and leave its admission alone.
pub proof fn law_a_flush_shows_each_sum(
    ctx: LockSchedThreadCtx,
    aux: ThreadStatsAux,
    calibration: TscCalibration,
)
    ensures
        ({
            let after = ctx_with(ctx, aux, calibration);
            &&& after.thread_elapsed_ns_total == calibration.elapsed_ns(0, aux.thread_elapsed_total)
            &&& after.wait_ns_total == calibration.elapsed_ns(0, aux.wait_total)
            &&& after.hold_ns_total == calibration.elapsed_ns(0, aux.hold_total)
            &&& after.lock_count == aux.lock_count
            &&& after.admission_owned == ctx.admission_owned
            &&& after.admission_cpu == ctx.admission_cpu
            &&& after.admission_requeue_home == ctx.admission_requeue_home
            &&& after.in_critical_section == ctx.in_critical_section
            &&& after.slow_path_pending == ctx.slow_path_pending
        }),
{
    arch::lemma_fits(calibration, aux.thread_elapsed_total as int);
    arch::lemma_fits(calibration, aux.wait_total as int);
    arch::lemma_fits(calibration, aux.hold_total as int);
}

/// Of several variables that may hold a setting, the first that holds more than white
/// space counts, without the white space around it.
pub proof fn law_the_first_variable_with_any_text_counts(values: Seq<Option<String>>, k: int)
    requires
        0 <= k < values.len(),
        values[k] is Some,
        text::trim(values[k]->0@).len() > 0,
        forall|j: int|
            0 <= j < k ==> (#[trigger] values[j]) is None || text::trim(values[j]->0@).len() == 0,
    ensures
        first_set(values) == Some(text::trim(values[k]->0@)),
    decreases k,
{
    if k > 0 {
        let rest = values.subrange(1, values.len() as int);
        assert(!is_set(values[0]));
        assert forall|j: int| 0 <= j < k - 1 implies (#[trigger] rest[j]) is None || text::trim(
            rest[j]->0@,
        ).len() == 0 by {
            assert(rest[j] == values[j + 1]);
        }
        assert(rest[k - 1] == values[k]);
        law_the_first_variable_with_any_text_counts(rest, k - 1);
    }
}

/// A clock that runs back counts for nothing, never for a time that went round: a gap, a
/// wait and a critical section that end before they begin add no time.
pub proof fn law_a_clock_that_runs_back_adds_no_time(
    aux: ThreadStatsAux,
    heatmap_stride: Option<u64>,
    outside_stride: u64,
    now: u64,
)
    requires
        aux.outside_gap_samples < u64::MAX,
    ensures
        ({
            let after = acquired(aux, heatmap_stride, outside_stride, now);
            let waited = if aux.wait_start_sample == 0 {
                0
            } else if aux.wait_end_sample != 0 {
                aux.wait_end_sample - aux.wait_start_sample
            } else {
                now - aux.wait_start_sample
            };
            let outside = if waited > 0 {
                now - aux.outside_unlock_sample - waited
            } else {
                now - aux.outside_unlock_sample
            };
            &&& aux.outside_sample_pending && outside <= 0 ==> after.outside_gap_total
                == aux.outside_gap_total
            &&& aux.outside_sample_pending && outside > 0 && aux.outside_gap_total + outside
                <= u64::MAX ==> after.outside_gap_total == aux.outside_gap_total + outside
            &&& aux.outside_sample_pending ==> !after.outside_sample_pending
                && after.outside_gap_samples == aux.outside_gap_samples + 1
            &&& aux.outside_sample_pending ==> after.outside_unlock_sample == 0
                && after.outside_wait_start_sample == 0 && after.outside_wait_total == 0
            &&& !aux.outside_sample_pending ==> after.outside_gap_total == aux.outside_gap_total
                && after.outside_gap_samples == aux.outside_gap_samples
                && after.heatmap_sample_pending == aux.heatmap_sample_pending
            &&& aux.outside_sample_pending && heatmap_stride is Some ==> {
                &&& after.heatmap_sample_pending == (aux.heatmap_sample_countdown == 0)
                &&& after.heatmap_pending_outside_total == if aux.heatmap_sample_countdown == 0
                    && outside > 0 {
                    outside
                } else {
                    0
                }
            }
            &&& heatmap_stride is None ==> after.heatmap_sample_pending
                == aux.heatmap_sample_pending && after.heatmap_sample_countdown
                == aux.heatmap_sample_countdown
            &&& after.hold_start_sample == now
            &&& after.wait_total == aux.wait_total && after.hold_total == aux.hold_total
        }),
        forall|end: u64| end <= aux.hold_start_sample ==> #[trigger] hold_span(aux, end) == 0,
{
}

/// A thread's clock starts with its first sample and not again, and from then on its time
/// is what passed since.
pub proof fn law_a_thread_starts_once(aux: ThreadStatsAux, first: u64, later: u64)
    requires
        aux.thread_start_sample == 0,
        0 < first <= later,
    ensures
        started(aux, first).thread_start_sample == first,
        started(started(aux, first), later).thread_start_sample == first,
        elapsed_refreshed(aux, first).thread_start_sample == first,
        elapsed_refreshed(aux, first).thread_elapsed_total == 0,
        elapsed_refreshed(started(aux, first), later).thread_elapsed_total == later - first,
        elapsed_refreshed(started(aux, first), later).thread_start_sample == first,
        elapsed_refreshed(started(aux, later), first).thread_elapsed_total == 0,
{
}

/// A wait that begins inside an open gap is noted there once, at its first start, and its
/// length up to its end is kept with the gap. Outside a gap nothing is.
pub proof fn law_a_gap_knows_the_wait_in_it(
    aux: ThreadStatsAux,
    from: u64,
    again: u64,
    to: u64,
)
    requires
        0 < from <= again <= to,
        aux.outside_wait_start_sample == 0,
    ensures
        ({
            let waiting = wait_started(wait_started(aux, from), again);
            let ended = wait_ended(waiting, again, to);
            &&& ended.wait_start_sample == again
            &&& ended.wait_end_sample == to
            &&& aux.outside_sample_pending ==> ended.outside_wait_start_sample == from
                && ended.outside_wait_total == to - from
            &&& !aux.outside_sample_pending ==> ended.outside_wait_start_sample == 0
                && ended.outside_wait_total == aux.outside_wait_total
        }),
{
}

/// A number is the positive one that the first variable with any text holds, and the
/// default where that is none.
pub proof fn law_a_number_is_what_the_first_variable_holds(
    values: Seq<Option<String>>,
    n: nat,
    default: u64,
)
    ensures
        first_set(values) == Some(text::decimal(n)) ==> number_of(values, default) == if 0 < n
            <= u64::MAX {
            n as int
        } else {
            default as int
        },
        first_set(values) is None ==> number_of(values, default) == default,
{
    text::lemma_decimal(n);
    text::law_trimming_leaves_the_text(Seq::empty(), text::decimal(n), Seq::empty());
    text::law_a_number_reads_as_it_was_written(n, u64::MAX as int);
}

/// A new thread has measured nothing: it adds nothing to its process. Its first operation is
/// timed, its first unlock opens a gap, and the first gap that is closed is due for the
/// heatmap.
pub proof fn law_a_new_thread_has_measured_nothing(
    totals: ProcessTotals,
    timing_stride: u64,
    outside_stride: u64,
    heatmap_stride: u64,
    now: u64,
    later: u64,
)
    requires
        0 < now <= later,
    ensures
        contributes_nothing(empty_aux()),
        totals_with(totals, empty_aux()) == totals,
        sampling_decided(empty_aux(), timing_stride).op_timing_sampled,
        ({
            let first = unlocked(empty_aux(), 0, timing_stride, outside_stride, now);
            let second = acquired(
                sampling_decided(first, timing_stride),
                Some(heatmap_stride),
                outside_stride,
                later,
            );
            &&& first.lock_count == 1
            &&& first.outside_sample_pending
            &&& first.outside_unlock_sample == now
            &&& second.heatmap_sample_pending
            &&& second.heatmap_pending_outside_total == later - now
        }),
{
}

/// A thread that gives its admission up has none, on no CPU and for nothing pending, and
/// what was measured of it stays.
pub proof fn law_admission_is_given_up_whole(ctx: LockSchedThreadCtx)
    ensures
        ({
            let after = without_admission(ctx);
            &&& after.admission_owned == 0
            &&& after.admission_cpu == ADMISSION_CPU_NONE
            &&& after.admission_requeue_home == 0
            &&& after.in_critical_section == 0
            &&& after.slow_path_pending == 0
            &&& after.thread_start_ns == ctx.thread_start_ns
            &&& after.thread_elapsed_ns_total == ctx.thread_elapsed_ns_total
            &&& after.wait_ns_total == ctx.wait_ns_total
            &&& after.wait_start_ns == ctx.wait_start_ns
            &&& after.hold_ns_total == ctx.hold_ns_total
            &&& after.hold_start_ns == ctx.hold_start_ns
            &&& after.lock_count == ctx.lock_count
        }),
        without_admission(empty_ctx()) == empty_ctx(),
{
}

/// A thread that has nothing to contribute is one whose every sum is nothing.
pub proof fn law_a_thread_without_sums_contributes_nothing(
    totals: ProcessTotals,
    aux: ThreadStatsAux,
)
    ensures
        contributes_nothing(aux) ==> totals_with(totals, aux) == totals,
        aux.lock_count > 0 || aux.wait_total > 0 || aux.hold_total > 0 || aux.outside_gap_samples
            > 0 || aux.outside_gap_total > 0 || aux.thread_elapsed_total > 0
            ==> !contributes_nothing(aux),
{
}

/// The totals have room just where what is added can be counted: then an acquisition takes
/// nothing from them.
pub proof fn law_an_acquisition_fits_where_it_can_be_counted(
    aux: ThreadStatsAux,
    timing_stride: u64,
    heatmap_stride: Option<u64>,
    outside_stride: u64,
    now: u64,
)
    ensures
        aux.outside_gap_total + now <= u64::MAX && aux.outside_gap_samples < u64::MAX
            ==> acquire_fits(aux, timing_stride, now),
        !aux.outside_sample_pending ==> acquire_fits(aux, timing_stride, now),
        acquire_fits(aux, timing_stride, now) && sampling_decided(aux, timing_stride).op_sampled
            ==> {
            let after = acquired(aux, heatmap_stride, outside_stride, now);
            &&& after.outside_gap_total >= aux.outside_gap_total
            &&& after.outside_gap_samples >= aux.outside_gap_samples
        },
{
}

} // verus!
