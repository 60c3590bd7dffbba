//! Timing samples. A sample is a reading of the cycle counter; a calibration
//! ties readings to nanoseconds.
use vstd::prelude::*;

use crate::accordin_shared::env;
use crate::arith;
use crate::text;

verus! {

pub const NS_PER_SEC: u128 = 1_000_000_000;

pub const KHZ_TO_HZ: u64 = 1_000;

/// Wall-clock time over which the counter is measured where its frequency is
/// not published.
pub const CALIBRATION_WINDOW_NS: u64 = 20_000_000;

/// One reading of the counter with the time it was taken at, and the counter's
/// frequency.
#[derive(Clone, Copy)]
pub struct TscCalibration {
    pub base_cycles: u64,
    pub base_ns: u64,
    pub freq_hz: u64,
}

/// Nanoseconds that `cycles` take, reduced to 64 bits.
pub open spec fn cycles_ns(cycles: int, freq_hz: u64) -> int {
    let freq = if freq_hz == 0 {
        1
    } else {
        freq_hz as int
    };
    cycles * 1_000_000_000 / freq % 0x1_0000_0000_0000_0000
}

impl TscCalibration {
    pub open spec fn total_ns(self, cycles: int) -> int {
        cycles_ns(cycles, self.freq_hz)
    }

    /// The time of a reading. One from before the anchor counts as the anchor.
    pub open spec fn sample_ns(self, sample: u64) -> int {
        arith::min_int(
            self.base_ns + self.total_ns(arith::monus(sample as int, self.base_cycles as int)),
            u64::MAX as int,
        )
    }

    pub open spec fn elapsed_ns(self, start: u64, end: u64) -> int {
        self.total_ns(arith::monus(end as int, start as int))
    }
}

pub fn scale_cycles_to_ns(delta_cycles: u64, freq_hz: u64) -> (r: u64)
    ensures
        r == cycles_ns(delta_cycles as int, freq_hz),
{
    let freq: u64 = freq_hz.max(1);
    let scaled: u128 = delta_cycles as u128 * NS_PER_SEC / freq as u128;
    arith::low_u64(scaled)
}

pub fn convert_sample_to_ns(calibration: &TscCalibration, sample_cycles: u64) -> (r: u64)
    ensures
        r == calibration.sample_ns(sample_cycles),
{
    let delta_cycles: u64 = sample_cycles.saturating_sub(calibration.base_cycles);
    calibration.base_ns.saturating_add(scale_cycles_to_ns(delta_cycles, calibration.freq_hz))
}

pub fn elapsed_sample_ns(calibration: &TscCalibration, start_cycles: u64, end_cycles: u64) -> (r:
    u64)
    ensures
        r == calibration.elapsed_ns(start_cycles, end_cycles),
{
    scale_cycles_to_ns(end_cycles.saturating_sub(start_cycles), calibration.freq_hz)
}

/// The frequency that a `kHz` file of the kernel states, where it reads as a
/// number.
pub fn published_freq_hz(contents: &str) -> (r: Option<u64>)
    ensures
        match r {
            Some(freq_hz) => ({
                let khz = text::unsigned(text::trim(contents@), u64::MAX as int);
                &&& khz is Some
                &&& freq_hz == if khz->0 == 0 {
                    1
                } else {
                    arith::min_int(khz->0 * KHZ_TO_HZ, u64::MAX as int)
                }
            }),
            None => text::unsigned(text::trim(contents@), u64::MAX as int) is None,
        },
{
    match env::number(contents, u64::MAX) {
        Some(khz) => Some(arith::saturating_mul(khz, KHZ_TO_HZ).max(1)),
        None => None,
    }
}

pub open spec fn states_frequency(contents: Option<String>) -> bool {
    contents matches Some(contents) && text::unsigned(
        text::trim(contents@),
        u64::MAX as int,
    ) is Some
}

/// The frequency that the first of the files which states one states.
/// `candidates` holds the files' contents, `None` where one cannot be read.
pub fn detect_tsc_frequency_hz(candidates: &Vec<Option<String>>) -> (r: Option<u64>)
    ensures
        match r {
            Some(freq_hz) => exists|k: int|
                {
                    &&& 0 <= k < candidates@.len()
                    &&& #[trigger] states_frequency(candidates@[k])
                    &&& forall|j: int| 0 <= j < k ==> !#[trigger] states_frequency(candidates@[j])
                    &&& ({
                        let khz = text::unsigned(
                            text::trim(candidates@[k]->0@),
                            u64::MAX as int,
                        )->0;
                        freq_hz == if khz == 0 {
                            1
                        } else {
                            arith::min_int(khz * KHZ_TO_HZ, u64::MAX as int)
                        }
                    })
                },
            None => forall|j: int|
                0 <= j < candidates@.len() ==> !#[trigger] states_frequency(candidates@[j]),
        },
{
    let mut k: usize = 0;
    while k < candidates.len()
        invariant
            k <= candidates@.len(),
            forall|j: int| 0 <= j < k ==> !#[trigger] states_frequency(candidates@[j]),
        decreases candidates@.len() - k,
    {
        if let Some(contents) = &candidates[k] {
            if let Some(freq_hz) = published_freq_hz(contents.as_str()) {
                assert(states_frequency(candidates@[k as int]));
                return Some(freq_hz);
            }
        }
        k += 1;
    }
    None
}

/// Whether the readings cover enough wall-clock time to measure the frequency.
pub fn calibration_done(start_ns: u64, now_ns: u64) -> (r: bool)
    ensures
        r == (now_ns - start_ns >= CALIBRATION_WINDOW_NS),
{
    now_ns.saturating_sub(start_ns) >= CALIBRATION_WINDOW_NS
}

/// The frequency that `delta_cycles` over `delta_ns` amount to, reduced to 64
/// bits and never 0 before that.
pub fn measured_freq_hz(delta_cycles: u64, delta_ns: u64) -> (r: u64)
    ensures
        ({
            let ns = if delta_ns == 0 {
                1
            } else {
                delta_ns as int
            };
            let freq = delta_cycles as int * 1_000_000_000 / ns;
            r == (if freq == 0 {
                1
            } else {
                freq
            }) % 0x1_0000_0000_0000_0000
        }),
{
    let freq: u128 = delta_cycles as u128 * NS_PER_SEC / delta_ns.max(1) as u128;
    arith::low_u64(freq.max(1))
}

/// The reading halfway between the two that enclose the anchor's time.
pub fn anchor_cycles(start_cycles: u64, end_cycles: u64) -> (r: u64)
    ensures
        r == if end_cycles >= start_cycles {
            start_cycles + (end_cycles - start_cycles) / 2
        } else {
            start_cycles as int
        },
{
    start_cycles.saturating_add(end_cycles.saturating_sub(start_cycles) / 2)
}

pub fn wait_time_to_ns(calibration: &TscCalibration, sample_cycles: u64) -> (r: u64)
    ensures
        r == calibration.sample_ns(sample_cycles),
{
    convert_sample_to_ns(calibration, sample_cycles)
}

pub fn wait_time_elapsed_ns_between(
    calibration: &TscCalibration,
    start_cycles: u64,
    end_cycles: u64,
) -> (r: u64)
    ensures
        r == calibration.elapsed_ns(start_cycles, end_cycles),
{
    elapsed_sample_ns(calibration, start_cycles, end_cycles)
}

/// Nanoseconds that a total of cycles amounts to.
pub fn wait_time_total_to_ns(calibration: &TscCalibration, total_cycles: u64) -> (r: u64)
    ensures
        r == calibration.total_ns(total_cycles as int),
{
    scale_cycles_to_ns(total_cycles, calibration.freq_hz)
}

/// A reading from before the anchor never converts to a time before it.
pub proof fn law_samples_saturate_to_the_anchor(calibration: TscCalibration, sample: u64)
    requires
        sample <= calibration.base_cycles,
    ensures
        calibration.sample_ns(sample) == calibration.base_ns,
{
    let freq = if calibration.freq_hz == 0 {
        1
    } else {
        calibration.freq_hz as int
    };
    assert(0int * 1_000_000_000 / freq == 0) by (nonlinear_arith)
        requires
            freq > 0,
    ;
}

/// Nanoseconds are what the cycles take at the counter's frequency, rounded down: as
/// long as they fit, a span of `end - start` cycles takes that long, a total as well,
/// and a reading is that long after the anchor.
pub proof fn law_time_is_cycles_over_frequency(
    calibration: TscCalibration,
    start: u64,
    end: u64,
    ns: int,
)
    requires
        calibration.freq_hz > 0,
        start <= end,
        0 <= ns <= u64::MAX,
        ns * calibration.freq_hz <= (end - start) * 1_000_000_000,
        (end - start) * 1_000_000_000 < (ns + 1) * calibration.freq_hz,
    ensures
        calibration.elapsed_ns(start, end) == ns,
        calibration.total_ns(end - start) == ns,
        start == calibration.base_cycles && calibration.base_ns + ns <= u64::MAX
            ==> calibration.sample_ns(end) == calibration.base_ns + ns,
{
    let freq = calibration.freq_hz as int;
    let total = (end - start) * 1_000_000_000;
    vstd::arithmetic::div_mod::lemma_fundamental_div_mod(total, freq);
    vstd::arithmetic::div_mod::lemma_mod_bound(total, freq);
    let q = total / freq;
    assert(q == ns) by (nonlinear_arith)
        requires
            total == freq * q + total % freq,
            0 <= total % freq < freq,
            ns * freq <= total,
            total < (ns + 1) * freq,
    ;
    vstd::arithmetic::div_mod::lemma_small_mod(ns as nat, 0x1_0000_0000_0000_0000);
}

/// A span that ends before it starts takes no time, and a reading from before the
/// anchor is one at the anchor.
pub proof fn law_time_never_runs_backwards(calibration: TscCalibration, start: u64, end: u64)
    requires
        end <= start,
    ensures
        calibration.elapsed_ns(start, end) == 0,
        start == calibration.base_cycles ==> calibration.sample_ns(end) == calibration.base_ns,
{
    let freq = if calibration.freq_hz == 0 {
        1
    } else {
        calibration.freq_hz as int
    };
    assert(0int * 1_000_000_000 / freq == 0) by (nonlinear_arith)
        requires
            freq > 0,
    ;
}

pub proof fn lemma_fits(calibration: TscCalibration, cycles: int)
    requires
        cycles >= 0,
    ensures
        0 <= calibration.total_ns(cycles) <= u64::MAX,
{
    let freq = if calibration.freq_hz == 0 {
        1
    } else {
        calibration.freq_hz as int
    };
    vstd::arithmetic::div_mod::lemma_mod_bound(
        cycles * 1_000_000_000 / freq,
        0x1_0000_0000_0000_0000,
    );
}

} // verus!
