//! The heatmap of critical-section and outside times, and the control of the
//! CPU count by it.
//!
//! Samples are counted per time window and per pair of power-of-two bins. The
//! mean of a window, its moving average and the CPU count it asks for are
//! floating-point estimates made outside; the control gets the counts they
//! round to, and keeps the values behind them as the bit patterns it was
//! handed.
use vstd::arithmetic::power2::pow2;
use vstd::prelude::*;

use crate::arith;
use crate::text;

verus! {

pub const DEFAULT_HEATMAP_SAMPLE_STRIDE: u64 = 64;

pub const DEFAULT_HEATMAP_WINDOW_NS: u64 = 1_000_000;

pub const DEFAULT_HEATMAP_MIN_WINDOW_SAMPLES: u64 = 1;

pub const DEFAULT_DYNAMIC_CPU_MIN_WINDOW_SAMPLES: u64 = 1;

pub const DEFAULT_DYNAMIC_CPU_CONFIRM_WINDOWS: u64 = 3;

pub const DEFAULT_DYNAMIC_CPU_STABLE_WINDOWS: u64 = 9;

pub const DEFAULT_HEATMAP_MAX_NS: u64 = 1_048_576;

/// Windows left out after the CPU count changed.
pub const DYNAMIC_CPU_DISCARD_WINDOWS_AFTER_UPDATE: u64 = 20;

// Bins.
/// Binary digits of `n`.
pub open spec fn bit_length(n: nat) -> nat
    decreases n,
{
    if n == 0 {
        0
    } else {
        1 + bit_length(n / 2)
    }
}

/// A number lies between the powers of two that its number of digits stands
/// for.
pub proof fn lemma_bit_length(n: nat)
    ensures
        n == 0 <==> bit_length(n) == 0,
        n > 0 ==> pow2((bit_length(n) - 1) as nat) <= n < pow2(bit_length(n)),
    decreases n,
{
    if n > 0 {
        lemma_bit_length(n / 2);
        vstd::arithmetic::power2::lemma_pow2_unfold(bit_length(n));
        if n / 2 > 0 {
            vstd::arithmetic::power2::lemma_pow2_unfold((bit_length(n) - 1) as nat);
        } else {
            vstd::arithmetic::power2::lemma2_to64();
        }
    }
}

proof fn lemma_bit_length_bound(n: nat, bits: nat)
    requires
        n < pow2(bits),
    ensures
        bit_length(n) <= bits,
    decreases bits,
{
    lemma_bit_length(n);
    if bit_length(n) > bits {
        let low = (bit_length(n) - 1) as nat;
        if bits < low {
            vstd::arithmetic::power2::lemma_pow2_strictly_increases(bits, low);
        }
    }
}

/// The bin of a value: 0 for 0, and otherwise the number of its binary digits.
pub fn raw_heatmap_bin_index(ns: u64) -> (r: usize)
    ensures
        r == bit_length(ns as nat),
        r <= 64,
{
    let mut rest: u64 = ns;
    let mut bits: usize = 0;
    proof {
        vstd::arithmetic::power2::lemma2_to64();
        lemma_bit_length_bound(ns as nat, 64);
    }
    while rest > 0
        invariant
            bits + bit_length(rest as nat) == bit_length(ns as nat),
            bit_length(ns as nat) <= 64,
        decreases rest,
    {
        rest = rest / 2;
        bits += 1;
    }
    bits
}

pub open spec fn bin_of(ns: u64, max_bin_index: usize) -> int {
    arith::min_int(bit_length(ns as nat) as int, max_bin_index as int)
}

pub fn heatmap_bin_index(ns: u64, max_bin_index: usize) -> (r: usize)
    ensures
        r == bin_of(ns, max_bin_index),
{
    raw_heatmap_bin_index(ns).min(max_bin_index)
}

pub open spec fn bin_lower(bin_index: int) -> int {
    if bin_index <= 0 {
        0
    } else {
        pow2((bin_index - 1) as nat) as int
    }
}

pub open spec fn bin_upper(bin_index: int, max_bin_index: int) -> int {
    if bin_index <= 0 {
        0
    } else if bin_index == max_bin_index {
        u64::MAX as int
    } else {
        pow2(bin_index as nat) - 1
    }
}

fn power_of_two(exponent: usize) -> (r: u64)
    requires
        exponent < 64,
    ensures
        r == pow2(exponent as nat),
{
    proof {
        vstd::arithmetic::power2::lemma2_to64();
    }
    let mut power: u64 = 1;
    let mut i: usize = 0;
    while i < exponent
        invariant
            i <= exponent < 64,
            power == pow2(i as nat),
        decreases exponent - i,
    {
        proof {
            vstd::arithmetic::power2::lemma_pow2_unfold((i + 1) as nat);
            vstd::arithmetic::power2::lemma_pow2_strictly_increases((i + 1) as nat, 64);
            vstd::arithmetic::power2::lemma2_to64();
        }
        power = power * 2;
        i += 1;
    }
    power
}

/// The smallest value of a bin.
pub fn heatmap_bin_lower_ns(bin_index: usize) -> (r: u64)
    requires
        bin_index <= 64,
    ensures
        r == bin_lower(bin_index as int),
{
    if bin_index == 0 {
        0
    } else {
        power_of_two(bin_index - 1)
    }
}

/// The largest value of a bin. The last bin has no upper bound.
pub fn heatmap_bin_upper_ns(bin_index: usize, max_bin_index: usize) -> (r: u64)
    requires
        bin_index < 64 || bin_index == max_bin_index,
    ensures
        r == bin_upper(bin_index as int, max_bin_index as int),
{
    if bin_index == 0 {
        0
    } else if bin_index == max_bin_index {
        u64::MAX
    } else {
        let power: u64 = power_of_two(bin_index);
        proof {
            vstd::arithmetic::power2::lemma_pow2_pos(bin_index as nat);
        }
        power - 1
    }
}

/// Every value lies within the bounds of its own bin.
pub proof fn law_values_lie_within_their_bins(ns: u64, max_bin_index: usize)
    requires
        max_bin_index > 0,
    ensures
        bin_lower(bin_of(ns, max_bin_index)) <= ns <= bin_upper(
            bin_of(ns, max_bin_index),
            max_bin_index as int,
        ),
{
    lemma_bit_length(ns as nat);
    let bits = bit_length(ns as nat);
    if bits > max_bin_index {
        let low = (max_bin_index - 1) as nat;
        if low < bits - 1 {
            vstd::arithmetic::power2::lemma_pow2_strictly_increases(low, (bits - 1) as nat);
        }
    }
}

/// Bins follow one another without a gap.
pub proof fn law_bins_are_adjacent(bin_index: int, max_bin_index: int)
    requires
        0 < bin_index < max_bin_index,
    ensures
        bin_upper(bin_index, max_bin_index) + 1 == bin_lower(bin_index + 1),
        bin_lower(bin_index) <= bin_upper(bin_index, max_bin_index),
{
    vstd::arithmetic::power2::lemma_pow2_strictly_increases(
        (bin_index - 1) as nat,
        bin_index as nat,
    );
}

// Configuration.
pub struct HeatmapConfig {
    pub path: Option<String>,
    pub sample_stride: u64,
    pub window_ns: u64,
    pub min_window_samples: u64,
    pub max_ns: u64,
    pub max_bin_index: usize,
    pub dynamic_cpu_affinity: bool,
    pub dynamic_cpu_min_window_samples: u64,
    pub dynamic_cpu_confirm_windows: u64,
    pub dynamic_cpu_stable_windows: u64,
}

pub open spec fn at_least_one(value: u64) -> u64 {
    if value == 0 {
        1
    } else {
        value
    }
}

impl HeatmapConfig {
    pub open spec fn wf(self) -> bool {
        &&& self.window_ns > 0
        &&& 0 < self.max_bin_index <= 64
    }

    pub fn new(
        path: Option<String>,
        sample_stride: u64,
        window_ns: u64,
        min_window_samples: u64,
        max_ns: u64,
        dynamic_cpu_affinity: bool,
        dynamic_cpu_min_window_samples: u64,
        dynamic_cpu_confirm_windows: u64,
        dynamic_cpu_stable_windows: u64,
    ) -> (r: Self)
        ensures
            r.wf(),
            r.path == path,
            r.sample_stride == at_least_one(sample_stride),
            r.window_ns == at_least_one(window_ns),
            r.min_window_samples == at_least_one(min_window_samples),
            r.max_ns == at_least_one(max_ns),
            r.max_bin_index == bit_length(at_least_one(max_ns) as nat),
            r.dynamic_cpu_affinity == dynamic_cpu_affinity,
            r.dynamic_cpu_min_window_samples == at_least_one(dynamic_cpu_min_window_samples),
            r.dynamic_cpu_confirm_windows == at_least_one(dynamic_cpu_confirm_windows),
            r.dynamic_cpu_stable_windows == at_least_one(dynamic_cpu_stable_windows),
    {
        let max_ns: u64 = max_ns.max(1);
        HeatmapConfig {
            path,
            sample_stride: sample_stride.max(1),
            window_ns: window_ns.max(1),
            min_window_samples: min_window_samples.max(1),
            max_ns,
            max_bin_index: raw_heatmap_bin_index(max_ns),
            dynamic_cpu_affinity,
            dynamic_cpu_min_window_samples: dynamic_cpu_min_window_samples.max(1),
            dynamic_cpu_confirm_windows: dynamic_cpu_confirm_windows.max(1),
            dynamic_cpu_stable_windows: dynamic_cpu_stable_windows.max(1),
        }
    }
}

// Counted samples.
/// A window and a pair of bins.
pub type BinKey = (u64, usize, usize);

/// How often a pair of bins was seen in a window.
#[derive(Clone, Copy, Debug, PartialEq, Eq, Structural)]
pub struct WindowEntry {
    pub window_index: u64,
    pub critical_bin: usize,
    pub outside_bin: usize,
    pub count: u64,
}

impl WindowEntry {
    pub open spec fn key(self) -> BinKey {
        (self.window_index, self.critical_bin, self.outside_bin)
    }
}

/// The order of keys: by window, then by critical bin, then by outside bin.
pub open spec fn key_lt(a: BinKey, b: BinKey) -> bool {
    a.0 < b.0 || (a.0 == b.0 && (a.1 < b.1 || (a.1 == b.1 && a.2 < b.2)))
}

pub open spec fn sorted(entries: Seq<WindowEntry>) -> bool {
    forall|i: int, j: int|
        0 <= i < j < entries.len() ==> key_lt(
            (#[trigger] entries[i]).key(),
            (#[trigger] entries[j]).key(),
        )
}

pub open spec fn has_key(entries: Seq<WindowEntry>, key: BinKey) -> bool {
    exists|i: int| 0 <= i < entries.len() && (#[trigger] entries[i]).key() == key
}

/// How often a key was counted, 0 where it never was.
pub open spec fn count_of(entries: Seq<WindowEntry>, key: BinKey) -> int {
    if has_key(entries, key) {
        let i = choose|i: int| 0 <= i < entries.len() && (#[trigger] entries[i]).key() == key;
        entries[i].count as int
    } else {
        0
    }
}

pub open spec fn total_count(entries: Seq<WindowEntry>) -> int
    decreases entries.len(),
{
    if entries.len() == 0 {
        0
    } else {
        total_count(entries.drop_last()) + entries.last().count
    }
}

/// Samples of one window.
pub open spec fn window_count(entries: Seq<WindowEntry>, window_index: u64) -> int
    decreases entries.len(),
{
    if entries.len() == 0 {
        0
    } else {
        window_count(entries.drop_last(), window_index) + if entries.last().window_index
            == window_index {
            entries.last().count as int
        } else {
            0
        }
    }
}

/// The samples of every window, in the order of their keys.
pub struct WindowTable {
    pub entries: Vec<WindowEntry>,
}

proof fn lemma_window_count_bound(entries: Seq<WindowEntry>, window_index: u64)
    ensures
        0 <= window_count(entries, window_index) <= total_count(entries),
    decreases entries.len(),
{
    if entries.len() > 0 {
        lemma_window_count_bound(entries.drop_last(), window_index);
    }
}

proof fn lemma_total_take(entries: Seq<WindowEntry>, i: int)
    requires
        0 <= i <= entries.len(),
    ensures
        0 <= total_count(entries.take(i)) <= total_count(entries),
    decreases entries.len() - i,
{
    lemma_window_count_bound(entries.take(i), 0);
    if i < entries.len() {
        lemma_total_take(entries, i + 1);
        assert(entries.take(i + 1).drop_last() =~= entries.take(i));
    } else {
        assert(entries.take(i) =~= entries);
    }
}

/// Counting one more of an entry adds one to its own window and to the total.
proof fn lemma_bump_counts(entries: Seq<WindowEntry>, i: int, bumped: WindowEntry, w: u64)
    requires
        0 <= i < entries.len(),
        bumped.key() == entries[i].key(),
        bumped.count == entries[i].count + 1,
    ensures
        total_count(entries.update(i, bumped)) == total_count(entries) + 1,
        window_count(entries.update(i, bumped), w) == window_count(entries, w) + if w
            == bumped.window_index {
            1int
        } else {
            0
        },
    decreases entries.len(),
{
    let after = entries.update(i, bumped);
    if i == entries.len() - 1 {
        assert(after.drop_last() =~= entries.drop_last());
    } else {
        assert(after.drop_last() =~= entries.drop_last().update(i, bumped));
        lemma_bump_counts(entries.drop_last(), i, bumped, w);
    }
}

proof fn lemma_insert_counts(entries: Seq<WindowEntry>, i: int, fresh: WindowEntry, w: u64)
    requires
        0 <= i <= entries.len(),
        fresh.count == 1,
    ensures
        total_count(entries.insert(i, fresh)) == total_count(entries) + 1,
        window_count(entries.insert(i, fresh), w) == window_count(entries, w) + if w
            == fresh.window_index {
            1int
        } else {
            0
        },
    decreases entries.len(),
{
    let after = entries.insert(i, fresh);
    if i == entries.len() {
        assert(after.drop_last() =~= entries);
    } else {
        assert(after.drop_last() =~= entries.drop_last().insert(i, fresh));
        assert(after.last() == entries.last());
        lemma_insert_counts(entries.drop_last(), i, fresh, w);
    }
}

proof fn lemma_count_of(entries: Seq<WindowEntry>, i: int)
    requires
        sorted(entries),
        0 <= i < entries.len(),
    ensures
        has_key(entries, entries[i].key()),
        count_of(entries, entries[i].key()) == entries[i].count,
{
    let key = entries[i].key();
    assert(has_key(entries, key));
    let j = choose|j: int| 0 <= j < entries.len() && (#[trigger] entries[j]).key() == key;
    assert(entries[j].key() == key);
    if i < j {
        assert(key_lt(entries[i].key(), entries[j].key()));
    } else if j < i {
        assert(key_lt(entries[j].key(), entries[i].key()));
    }
}

/// What counting one more sample of `key` makes of the counts.
pub open spec fn counted_one(
    before: Seq<WindowEntry>,
    after: Seq<WindowEntry>,
    key: BinKey,
) -> bool {
    &&& forall|k: BinKey| #[trigger] count_of(after, k) == count_of(before, k) + if k == key {
        1int
    } else {
        0
    }
    &&& forall|k: BinKey| #[trigger] has_key(after, k) == (k == key || has_key(before, k))
    &&& total_count(after) == total_count(before) + 1
    &&& forall|w: u64|
        #[trigger] window_count(after, w) == window_count(before, w) + if w == key.0 {
            1int
        } else {
            0
        }
}

impl WindowTable {
    /// The keys are in order, so that each occurs once, and the counts add up.
    pub open spec fn wf(self) -> bool {
        &&& sorted(self.entries@)
        &&& total_count(self.entries@) <= u64::MAX
    }

    pub fn new() -> (r: Self)
        ensures
            r.wf(),
            r.entries@ == Seq::<WindowEntry>::empty(),
    {
        WindowTable { entries: Vec::new() }
    }

    /// Whether one more sample can be counted.
    pub fn has_room(&self) -> (r: bool)
        requires
            self.wf(),
        ensures
            r == (total_count(self.entries@) < u64::MAX),
    {
        let mut total: u64 = 0;
        let mut i: usize = 0;
        while i < self.entries.len()
            invariant
                self.wf(),
                i <= self.entries@.len(),
                total == total_count(self.entries@.take(i as int)),
            decreases self.entries@.len() - i,
        {
            proof {
                lemma_total_take(self.entries@, i as int + 1);
                assert(self.entries@.take(i as int + 1).drop_last() =~= self.entries@.take(
                    i as int,
                ));
            }
            total += self.entries[i].count;
            i += 1;
        }
        proof {
            assert(self.entries@.take(self.entries@.len() as int) =~= self.entries@);
        }
        total < u64::MAX
    }

    /// Counts one more sample of a key.
    pub fn count(&mut self, window_index: u64, critical_bin: usize, outside_bin: usize)
        requires
            old(self).wf(),
            total_count(old(self).entries@) < u64::MAX,
        ensures
            final(self).wf(),
            counted_one(
                old(self).entries@,
                final(self).entries@,
                (window_index, critical_bin, outside_bin),
            ),
    {
        let ghost before = self.entries@;
        let ghost key = (window_index, critical_bin, outside_bin);
        let mut at: usize = 0;
        while at < self.entries.len() && Self::precedes(
            &self.entries[at],
            window_index,
            critical_bin,
            outside_bin,
        )
            invariant
                at <= self.entries@.len(),
                key == (window_index, critical_bin, outside_bin),
                forall|i: int| 0 <= i < at ==> key_lt((#[trigger] self.entries@[i]).key(), key),
            decreases self.entries@.len() - at,
        {
            at += 1;
        }
        if at < self.entries.len() && self.entries[at].window_index == window_index
            && self.entries[at].critical_bin == critical_bin && self.entries[at].outside_bin
            == outside_bin {
            let mut bumped: WindowEntry = self.entries[at];
            proof {
                lemma_total_take(before, at as int);
                lemma_total_take(before, at as int + 1);
                assert(before.take(at as int + 1).drop_last() =~= before.take(at as int));
            }
            bumped.count += 1;
            self.entries.set(at, bumped);
            proof {
                let after = self.entries@;
                assert(after =~= before.update(at as int, bumped));
                lemma_bump_counts(before, at as int, bumped, 0);
                assert forall|w: u64| #[trigger]
                    window_count(after, w) == window_count(before, w) + if w == key.0 {
                        1int
                    } else {
                        0
                    } by {
                    lemma_bump_counts(before, at as int, bumped, w);
                }
                Self::lemma_bumped(before, at as int, bumped);
            }
        } else {
            let fresh: WindowEntry = WindowEntry {
                window_index,
                critical_bin,
                outside_bin,
                count: 1,
            };
            self.entries.insert(at, fresh);
            proof {
                let after = self.entries@;
                assert(after =~= before.insert(at as int, fresh));
                lemma_insert_counts(before, at as int, fresh, 0);
                assert forall|w: u64| #[trigger]
                    window_count(after, w) == window_count(before, w) + if w == key.0 {
                        1int
                    } else {
                        0
                    } by {
                    lemma_insert_counts(before, at as int, fresh, w);
                }
                Self::lemma_inserted(before, at as int, fresh);
            }
        }
    }

    fn precedes(
        entry: &WindowEntry,
        window_index: u64,
        critical_bin: usize,
        outside_bin: usize,
    ) -> (r: bool)
        ensures
            r == key_lt(entry.key(), (window_index, critical_bin, outside_bin)),
    {
        entry.window_index < window_index || (entry.window_index == window_index && (
        entry.critical_bin < critical_bin || (entry.critical_bin == critical_bin
            && entry.outside_bin < outside_bin)))
    }

    proof fn lemma_bumped(before: Seq<WindowEntry>, at: int, bumped: WindowEntry)
        requires
            sorted(before),
            0 <= at < before.len(),
            bumped.key() == before[at].key(),
            bumped.count == before[at].count + 1,
        ensures
            sorted(before.update(at, bumped)),
            forall|k: BinKey| #[trigger] count_of(before.update(at, bumped), k) == count_of(
                before,
                k,
            ) + if k == bumped.key() {
                1int
            } else {
                0
            },
            forall|k: BinKey| #[trigger] has_key(before.update(at, bumped), k) == (k
                == bumped.key() || has_key(before, k)),
    {
        let after = before.update(at, bumped);
        assert forall|i: int| 0 <= i < after.len() implies (#[trigger] after[i]).key()
            == before[i].key() by {}
        assert(sorted(after));
        assert forall|k: BinKey| #[trigger] has_key(after, k) == (k == bumped.key() || has_key(
            before,
            k,
        )) by {
            if has_key(before, k) {
                let i = choose|i: int| 0 <= i < before.len() && (#[trigger] before[i]).key() == k;
                assert(after[i].key() == k);
            }
            if k == bumped.key() {
                assert(after[at].key() == k);
            }
            if has_key(after, k) {
                let i = choose|i: int| 0 <= i < after.len() && (#[trigger] after[i]).key() == k;
                assert(before[i].key() == k);
            }
        }
        assert forall|k: BinKey| #[trigger] count_of(after, k) == count_of(before, k) + if k
            == bumped.key() {
            1int
        } else {
            0
        } by {
            if has_key(after, k) {
                let i = choose|i: int| 0 <= i < after.len() && (#[trigger] after[i]).key() == k;
                lemma_count_of(after, i);
                lemma_count_of(before, i);
                if i != at && k == bumped.key() {
                    lemma_count_of(after, at);
                    lemma_count_of(before, at);
                }
            } else {
                assert(!has_key(before, k) && k != bumped.key());
            }
        }
    }

    proof fn lemma_inserted(before: Seq<WindowEntry>, at: int, fresh: WindowEntry)
        requires
            sorted(before),
            0 <= at <= before.len(),
            forall|i: int| 0 <= i < at ==> key_lt((#[trigger] before[i]).key(), fresh.key()),
            at < before.len() ==> !key_lt(before[at].key(), fresh.key()) && before[at].key()
                != fresh.key(),
            fresh.count == 1,
        ensures
            sorted(before.insert(at, fresh)),
            forall|k: BinKey| #[trigger] count_of(before.insert(at, fresh), k) == count_of(
                before,
                k,
            ) + if k == fresh.key() {
                1int
            } else {
                0
            },
            forall|k: BinKey| #[trigger] has_key(before.insert(at, fresh), k) == (k == fresh.key()
                || has_key(before, k)),
    {
        let after = before.insert(at, fresh);
        assert forall|i: int| at <= i < before.len() implies key_lt(
            fresh.key(),
            (#[trigger] before[i]).key(),
        ) by {
            if i > at {
                assert(key_lt(before[at].key(), before[i].key()));
            }
        }
        assert forall|i: int, j: int| 0 <= i < j < after.len() implies key_lt(
            (#[trigger] after[i]).key(),
            (#[trigger] after[j]).key(),
        ) by {
            let a = if i < at {
                i
            } else {
                i - 1
            };
            let b = if j < at {
                j
            } else {
                j - 1
            };
            if i != at {
                assert(after[i] == before[a]);
            }
            if j != at {
                assert(after[j] == before[b]);
            }
            if i != at && j != at {
                assert(key_lt(before[a].key(), before[b].key()));
            }
        }
        assert(!has_key(before, fresh.key())) by {
            if has_key(before, fresh.key()) {
                let i = choose|i: int|
                    0 <= i < before.len() && (#[trigger] before[i]).key() == fresh.key();
                assert(before[i].key() == fresh.key());
            }
        }
        assert forall|k: BinKey| #[trigger] has_key(after, k) == (k == fresh.key() || has_key(
            before,
            k,
        )) by {
            if has_key(before, k) {
                let i = choose|i: int| 0 <= i < before.len() && (#[trigger] before[i]).key() == k;
                let j = if i < at {
                    i
                } else {
                    i + 1
                };
                assert(after[j] == before[i]);
                assert(after[j].key() == k);
            }
            if k == fresh.key() {
                assert(after[at].key() == k);
            }
            if has_key(after, k) {
                let j = choose|j: int| 0 <= j < after.len() && (#[trigger] after[j]).key() == k;
                if j != at {
                    let i = if j < at {
                        j
                    } else {
                        j - 1
                    };
                    assert(before[i] == after[j]);
                    assert(before[i].key() == k);
                }
            }
        }
        assert forall|k: BinKey| #[trigger] count_of(after, k) == count_of(before, k) + if k
            == fresh.key() {
            1int
        } else {
            0
        } by {
            if k == fresh.key() {
                lemma_count_of(after, at);
                assert(after[at] == fresh);
                assert(!has_key(before, k));
            } else if has_key(before, k) {
                let i = choose|i: int| 0 <= i < before.len() && (#[trigger] before[i]).key() == k;
                let j = if i < at {
                    i
                } else {
                    i + 1
                };
                assert(after[j] == before[i]);
                lemma_count_of(before, i);
                lemma_count_of(after, j);
            } else {
                assert(!has_key(after, k));
            }
        }
    }

    /// Samples of one window.
    pub fn window_samples(&self, window_index: u64) -> (r: u64)
        requires
            self.wf(),
        ensures
            r == window_count(self.entries@, window_index),
    {
        let mut samples: u64 = 0;
        let mut i: usize = 0;
        while i < self.entries.len()
            invariant
                self.wf(),
                i <= self.entries@.len(),
                samples == window_count(self.entries@.take(i as int), window_index),
            decreases self.entries@.len() - i,
        {
            proof {
                let next = self.entries@.take(i as int + 1);
                assert(next.drop_last() =~= self.entries@.take(i as int));
                lemma_window_count_bound(next, window_index);
                lemma_total_take(self.entries@, i as int + 1);
            }
            if self.entries[i].window_index == window_index {
                samples += self.entries[i].count;
            }
            i += 1;
        }
        proof {
            assert(self.entries@.take(self.entries@.len() as int) =~= self.entries@);
        }
        samples
    }
}

// Control of the CPU count.
/// How far the control got. The moving averages and the sum of targets are bit
/// patterns.
#[derive(Clone, Copy, Debug, PartialEq, Eq, Structural)]
pub struct WindowControlState {
    pub next_window_index: u64,
    pub critical_mean_ewma: Option<u64>,
    pub outside_mean_ewma: Option<u64>,
    pub last_dynamic_cpu_count: Option<usize>,
    pub pending_dynamic_cpu_count: Option<usize>,
    pub pending_dynamic_cpu_confirmations: u64,
    pub stable_dynamic_cpu_count: bool,
    pub stable_dynamic_cpu_confirmations: u64,
    pub stable_dynamic_cpu_target_sum: u64,
    pub stable_dynamic_cpu_target_samples: u64,
    pub dynamic_cpu_discard_windows_remaining: u64,
    pub dynamic_cpu_affinity_frozen: bool,
}

pub open spec fn fresh_control() -> WindowControlState {
    WindowControlState {
        next_window_index: 0,
        critical_mean_ewma: None,
        outside_mean_ewma: None,
        last_dynamic_cpu_count: None,
        pending_dynamic_cpu_count: None,
        pending_dynamic_cpu_confirmations: 0,
        stable_dynamic_cpu_count: false,
        stable_dynamic_cpu_confirmations: 0,
        stable_dynamic_cpu_target_sum: 0,
        stable_dynamic_cpu_target_samples: 0,
        dynamic_cpu_discard_windows_remaining: 0,
        dynamic_cpu_affinity_frozen: false,
    }
}

impl Default for WindowControlState {
    fn default() -> (r: Self)
        ensures
            r == fresh_control(),
    {
        WindowControlState {
            next_window_index: 0,
            critical_mean_ewma: None,
            outside_mean_ewma: None,
            last_dynamic_cpu_count: None,
            pending_dynamic_cpu_count: None,
            pending_dynamic_cpu_confirmations: 0,
            stable_dynamic_cpu_count: false,
            stable_dynamic_cpu_confirmations: 0,
            stable_dynamic_cpu_target_sum: 0,
            stable_dynamic_cpu_target_samples: 0,
            dynamic_cpu_discard_windows_remaining: 0,
            dynamic_cpu_affinity_frozen: false,
        }
    }
}

impl WindowControlState {
    pub open spec fn pending_cleared(self) -> WindowControlState {
        WindowControlState {
            pending_dynamic_cpu_count: None,
            pending_dynamic_cpu_confirmations: 0,
            ..self
        }
    }

    pub open spec fn stability_reset(self) -> WindowControlState {
        WindowControlState {
            stable_dynamic_cpu_confirmations: 0,
            stable_dynamic_cpu_target_sum: 0,
            stable_dynamic_cpu_target_samples: 0,
            ..self
        }
    }

    /// Whether the counts of windows can still be advanced.
    pub open spec fn has_room(self) -> bool {
        &&& self.pending_dynamic_cpu_confirmations < u64::MAX
        &&& self.stable_dynamic_cpu_confirmations < u64::MAX
        &&& self.stable_dynamic_cpu_target_samples < u64::MAX
    }

    pub fn counts_have_room(&self) -> (r: bool)
        ensures
            r == self.has_room(),
    {
        self.pending_dynamic_cpu_confirmations < u64::MAX && self.stable_dynamic_cpu_confirmations
            < u64::MAX && self.stable_dynamic_cpu_target_samples < u64::MAX
    }
}

/// What the estimates make of one window: the moving averages with the window
/// taken in, the CPU count they ask for, if they are usable, and the sum of
/// targets with this one taken in together with the CPU count its average asks
/// for.
#[derive(Clone, Copy)]
pub struct WindowEstimate {
    pub critical_ewma: u64,
    pub outside_ewma: u64,
    pub target: Option<usize>,
    pub target_sum: u64,
    pub averaged: Option<usize>,
}

pub fn clear_pending_dynamic_cpu_change(control: &mut WindowControlState)
    ensures
        *final(control) == old(control).pending_cleared(),
{
    control.pending_dynamic_cpu_count = None;
    control.pending_dynamic_cpu_confirmations = 0;
}

pub fn reset_dynamic_cpu_stability(control: &mut WindowControlState)
    ensures
        *final(control) == old(control).stability_reset(),
{
    control.stable_dynamic_cpu_confirmations = 0;
    control.stable_dynamic_cpu_target_sum = 0;
    control.stable_dynamic_cpu_target_samples = 0;
}

/// The count that a target proposes, if it is another one than the current.
/// Otherwise nothing is pending any more.
pub fn dynamic_cpu_candidate(control: &mut WindowControlState, target: usize) -> (r: Option<usize>)
    ensures
        r == if old(control).last_dynamic_cpu_count == Some(target) {
            None
        } else {
            Some(target)
        },
        *final(control) == if old(control).last_dynamic_cpu_count == Some(target) {
            old(control).pending_cleared()
        } else {
            *old(control)
        },
{
    if let Some(current) = control.last_dynamic_cpu_count {
        if current == target {
            clear_pending_dynamic_cpu_change(control);
            return None;
        }
    }
    Some(target)
}

/// A window that does not change the count. Enough of them in a row settle it:
/// it is stable where the average of their targets agrees with it, and moves to
/// that average where it does not.
pub open spec fn unchanged_window(
    control: WindowControlState,
    stable_windows: u64,
    estimate: WindowEstimate,
) -> (WindowControlState, Option<usize>) {
    match control.last_dynamic_cpu_count {
        None => (control, None),
        Some(current) => if control.stable_dynamic_cpu_count {
            (control, None)
        } else {
            let counted = WindowControlState {
                stable_dynamic_cpu_confirmations: (control.stable_dynamic_cpu_confirmations
                    + 1) as u64,
                stable_dynamic_cpu_target_sum: estimate.target_sum,
                stable_dynamic_cpu_target_samples: (control.stable_dynamic_cpu_target_samples
                    + 1) as u64,
                ..control
            };
            if counted.stable_dynamic_cpu_confirmations < stable_windows {
                (counted, None)
            } else {
                let settled = counted.pending_cleared();
                match estimate.averaged {
                    None => (settled, None),
                    Some(averaged) => if averaged == current {
                        (WindowControlState { stable_dynamic_cpu_count: true, ..settled }, None)
                    } else {
                        (settled, Some(averaged))
                    },
                }
            }
        },
    }
}

/// What a window makes of the pending change: a first count, or a change of a
/// stable one, needs the same proposal over enough windows.
pub open spec fn confirmed_count(
    control: WindowControlState,
    confirm_windows: u64,
    stable_windows: u64,
    estimate: WindowEstimate,
) -> (WindowControlState, Option<usize>) {
    match estimate.target {
        None => (control, None),
        Some(target) => if control.last_dynamic_cpu_count is Some
            && !control.stable_dynamic_cpu_count {
            unchanged_window(control, stable_windows, estimate)
        } else if control.last_dynamic_cpu_count == Some(target) {
            unchanged_window(control.pending_cleared(), stable_windows, estimate)
        } else {
            let voted = WindowControlState {
                pending_dynamic_cpu_count: Some(target),
                pending_dynamic_cpu_confirmations: if control.pending_dynamic_cpu_count == Some(
                    target,
                ) {
                    (control.pending_dynamic_cpu_confirmations + 1) as u64
                } else {
                    1
                },
                ..control
            };
            let needed = if control.stable_dynamic_cpu_count {
                stable_windows
            } else {
                confirm_windows
            };
            if voted.pending_dynamic_cpu_confirmations >= needed {
                (voted, Some(target))
            } else {
                unchanged_window(voted, stable_windows, estimate)
            }
        },
    }
}

/// The control once a window's estimate is taken in. A new count starts the
/// measurement over.
pub open spec fn estimated(
    control: WindowControlState,
    confirm_windows: u64,
    stable_windows: u64,
    estimate: WindowEstimate,
) -> (WindowControlState, Option<usize>) {
    let averaged = WindowControlState {
        critical_mean_ewma: Some(estimate.critical_ewma),
        outside_mean_ewma: Some(estimate.outside_ewma),
        ..control
    };
    let (after, count) = confirmed_count(averaged, confirm_windows, stable_windows, estimate);
    match count {
        Some(count) => (
            WindowControlState {
                last_dynamic_cpu_count: Some(count),
                critical_mean_ewma: None,
                outside_mean_ewma: None,
                stable_dynamic_cpu_count: false,
                dynamic_cpu_discard_windows_remaining: DYNAMIC_CPU_DISCARD_WINDOWS_AFTER_UPDATE,
                ..after.pending_cleared().stability_reset()
            },
            Some(count),
        ),
        None => (after, None),
    }
}

/// The control advanced to the next completed window that counts, and that
/// window. Windows with too few samples are passed over, and so are the windows
/// right after a change.
pub open spec fn advanced(
    control: WindowControlState,
    entries: Seq<WindowEntry>,
    min_samples: u64,
    current: u64,
) -> (WindowControlState, Option<u64>)
    decreases current - control.next_window_index,
{
    let window = control.next_window_index;
    if window >= current {
        (control, None)
    } else {
        let passed = WindowControlState { next_window_index: (window + 1) as u64, ..control };
        if window_count(entries, window) < min_samples {
            advanced(passed, entries, min_samples, current)
        } else if control.dynamic_cpu_discard_windows_remaining != 0 {
            advanced(
                WindowControlState {
                    dynamic_cpu_discard_windows_remaining: (
                    control.dynamic_cpu_discard_windows_remaining - 1) as u64,
                    ..passed
                },
                entries,
                min_samples,
                current,
            )
        } else {
            (passed, Some(window))
        }
    }
}

/// Samples, counted per window and bins, with the control they drive.
pub struct HeatmapState {
    pub config: HeatmapConfig,
    pub base_window_ns: u64,
    pub windows: WindowTable,
    pub control: WindowControlState,
}

pub open spec fn bins_within(entries: Seq<WindowEntry>, max_bin_index: usize) -> bool {
    forall|i: int|
        0 <= i < entries.len() ==> (#[trigger] entries[i]).critical_bin <= max_bin_index
            && entries[i].outside_bin <= max_bin_index
}

impl HeatmapState {
    pub open spec fn wf(self) -> bool {
        &&& self.config.wf()
        &&& self.windows.wf()
        &&& bins_within(self.windows.entries@, self.config.max_bin_index)
    }

    pub fn new(config: HeatmapConfig) -> (r: Self)
        requires
            config.wf(),
        ensures
            r.wf(),
            r.config == config,
            r.base_window_ns == 0,
            r.windows.entries@ == Seq::<WindowEntry>::empty(),
            r.control == fresh_control(),
    {
        HeatmapState {
            config,
            base_window_ns: 0,
            windows: WindowTable::new(),
            control: WindowControlState::default(),
        }
    }

    /// The window that a time falls into. The first sample opens the first
    /// window.
    pub open spec fn window_at(self, sample_time_ns: u64) -> int {
        let base = if self.base_window_ns == 0 {
            sample_time_ns
        } else {
            self.base_window_ns
        };
        arith::monus(sample_time_ns as int, base as int) / self.config.window_ns as int
    }

    /// Counts a sample. Where the CPU count is controlled by the samples, the
    /// window that the control is now to be advanced to is returned.
    pub fn record_sample(&mut self, sample_time_ns: u64, critical_ns: u64, outside_ns: u64) -> (r:
        Option<u64>)
        requires
            old(self).wf(),
            total_count(old(self).windows.entries@) < u64::MAX,
        ensures
            final(self).wf(),
            final(self).config == old(self).config,
            final(self).control == old(self).control,
            final(self).base_window_ns == if old(self).base_window_ns == 0 {
                sample_time_ns
            } else {
                old(self).base_window_ns
            },
            counted_one(
                old(self).windows.entries@,
                final(self).windows.entries@,
                (
                    old(self).window_at(sample_time_ns) as u64,
                    bin_of(critical_ns, old(self).config.max_bin_index) as usize,
                    bin_of(outside_ns, old(self).config.max_bin_index) as usize,
                ),
            ),
            match r {
                Some(window) => old(self).config.dynamic_cpu_affinity && window == old(
                    self,
                ).window_at(sample_time_ns),
                None => !old(self).config.dynamic_cpu_affinity,
            },
    {
        let ghost before = self.windows.entries@;
        if self.base_window_ns == 0 {
            self.base_window_ns = sample_time_ns;
        }
        let window_index: u64 = sample_time_ns.saturating_sub(self.base_window_ns)
            / self.config.window_ns;
        let critical_bin: usize = heatmap_bin_index(critical_ns, self.config.max_bin_index);
        let outside_bin: usize = heatmap_bin_index(outside_ns, self.config.max_bin_index);
        self.windows.count(window_index, critical_bin, outside_bin);
        proof {
            let after = self.windows.entries@;
            assert forall|i: int| 0 <= i < after.len() implies (#[trigger] after[i]).critical_bin
                <= self.config.max_bin_index && after[i].outside_bin
                <= self.config.max_bin_index by {
                let k = after[i].key();
                assert(has_key(after, k));
                if k != (window_index, critical_bin, outside_bin) {
                    assert(has_key(before, k));
                    let j = choose|j: int|
                        0 <= j < before.len() && (#[trigger] before[j]).key() == k;
                    assert(before[j].key() == k);
                }
            }
        }
        if self.config.dynamic_cpu_affinity {
            Some(window_index)
        } else {
            None
        }
    }

    /// Advances the control towards the window that is still open, up to the
    /// next completed window that counts. `None` once there is none left, or
    /// where the count is frozen.
    pub fn next_completed_window(&mut self, current_window_index: u64) -> (r: Option<u64>)
        requires
            old(self).wf(),
        ensures
            final(self).wf(),
            (final(self).control, r) == if old(self).control.dynamic_cpu_affinity_frozen {
                (old(self).control, None)
            } else {
                advanced(
                    old(self).control,
                    old(self).windows.entries@,
                    old(self).config.dynamic_cpu_min_window_samples,
                    current_window_index,
                )
            },
            *final(self) == (HeatmapState { control: final(self).control, ..*old(self) }),
    {
        if self.control.dynamic_cpu_affinity_frozen {
            return None;
        }
        let ghost entries = self.windows.entries@;
        let ghost min_samples = self.config.dynamic_cpu_min_window_samples;
        while self.control.next_window_index < current_window_index
            invariant
                self.wf(),
                *self == (HeatmapState { control: self.control, ..*old(self) }),
                !old(self).control.dynamic_cpu_affinity_frozen,
                entries == self.windows.entries@,
                min_samples == self.config.dynamic_cpu_min_window_samples,
                advanced(self.control, entries, min_samples, current_window_index) == advanced(
                    old(self).control,
                    entries,
                    min_samples,
                    current_window_index,
                ),
            decreases current_window_index - self.control.next_window_index,
        {
            let window_index: u64 = self.control.next_window_index;
            let samples: u64 = self.windows.window_samples(window_index);
            self.control.next_window_index = window_index + 1;
            if samples >= self.config.dynamic_cpu_min_window_samples {
                if self.control.dynamic_cpu_discard_windows_remaining != 0 {
                    self.control.dynamic_cpu_discard_windows_remaining -= 1;
                } else {
                    return Some(window_index);
                }
            }
        }
        None
    }

    /// Takes the completed windows in, one for each call, up to the window that is
    /// still open. `last` is the estimate of the window that the call before
    /// returned, and `count` what the windows so far change the CPU count to: the
    /// last of them decides. `None`: no window is left.
    pub fn next_dynamic_cpu_count(
        &mut self,
        current_window_index: u64,
        last: Option<&WindowEstimate>,
        count: &mut Option<usize>,
    ) -> (r: Option<u64>)
        requires
            old(self).wf(),
            last is Some ==> old(self).control.has_room(),
        ensures
            final(self).wf(),
            ({
                let taken = match last {
                    Some(estimate) => estimated(
                        old(self).control,
                        old(self).config.dynamic_cpu_confirm_windows,
                        old(self).config.dynamic_cpu_stable_windows,
                        *estimate,
                    ),
                    None => (old(self).control, *old(count)),
                };
                &&& *final(count) == taken.1
                &&& (final(self).control, r) == if taken.0.dynamic_cpu_affinity_frozen {
                    (taken.0, None)
                } else {
                    advanced(
                        taken.0,
                        old(self).windows.entries@,
                        old(self).config.dynamic_cpu_min_window_samples,
                        current_window_index,
                    )
                }
            }),
            *final(self) == (HeatmapState { control: final(self).control, ..*old(self) }),
    {
        if let Some(estimate) = last {
            *count = self.apply_window_estimate(estimate);
        }
        self.next_completed_window(current_window_index)
    }

    /// Takes the estimate of a window in, and returns the CPU count to change
    /// to, if it asks for a change.
    pub fn apply_window_estimate(&mut self, estimate: &WindowEstimate) -> (r: Option<usize>)
        requires
            old(self).wf(),
            old(self).control.has_room(),
        ensures
            final(self).wf(),
            (final(self).control, r) == estimated(
                old(self).control,
                old(self).config.dynamic_cpu_confirm_windows,
                old(self).config.dynamic_cpu_stable_windows,
                *estimate,
            ),
            *final(self) == (HeatmapState { control: final(self).control, ..*old(self) }),
    {
        let mut control: WindowControlState = self.control;
        control.critical_mean_ewma = Some(estimate.critical_ewma);
        control.outside_mean_ewma = Some(estimate.outside_ewma);
        let count: Option<usize> = self.confirmed_dynamic_cpu_count(&mut control, estimate);
        if let Some(cpu_count) = count {
            control.last_dynamic_cpu_count = Some(cpu_count);
            control.critical_mean_ewma = None;
            control.outside_mean_ewma = None;
            clear_pending_dynamic_cpu_change(&mut control);
            control.stable_dynamic_cpu_count = false;
            reset_dynamic_cpu_stability(&mut control);
            control.dynamic_cpu_discard_windows_remaining =
            DYNAMIC_CPU_DISCARD_WINDOWS_AFTER_UPDATE;
        }
        self.control = control;
        count
    }

    pub fn confirmed_dynamic_cpu_count(
        &self,
        control: &mut WindowControlState,
        estimate: &WindowEstimate,
    ) -> (r: Option<usize>)
        requires
            old(control).has_room(),
        ensures
            (*final(control), r) == confirmed_count(
                *old(control),
                self.config.dynamic_cpu_confirm_windows,
                self.config.dynamic_cpu_stable_windows,
                *estimate,
            ),
    {
        let target: usize = match estimate.target {
            Some(target) => target,
            None => return None,
        };
        if control.last_dynamic_cpu_count.is_some() && !control.stable_dynamic_cpu_count {
            return self.record_dynamic_cpu_unchanged_window(control, estimate);
        }
        let candidate: usize = match dynamic_cpu_candidate(control, target) {
            Some(candidate) => candidate,
            None => return self.record_dynamic_cpu_unchanged_window(control, estimate),
        };
        let repeated: bool = match control.pending_dynamic_cpu_count {
            Some(pending) => pending == candidate,
            None => false,
        };
        if repeated {
            control.pending_dynamic_cpu_confirmations += 1;
        } else {
            control.pending_dynamic_cpu_count = Some(candidate);
            control.pending_dynamic_cpu_confirmations = 1;
        }
        let required: u64 = if control.stable_dynamic_cpu_count {
            self.config.dynamic_cpu_stable_windows
        } else {
            self.config.dynamic_cpu_confirm_windows
        };
        if control.pending_dynamic_cpu_confirmations >= required {
            Some(candidate)
        } else {
            self.record_dynamic_cpu_unchanged_window(control, estimate)
        }
    }

    pub fn record_dynamic_cpu_unchanged_window(
        &self,
        control: &mut WindowControlState,
        estimate: &WindowEstimate,
    ) -> (r: Option<usize>)
        requires
            old(control).stable_dynamic_cpu_confirmations < u64::MAX,
            old(control).stable_dynamic_cpu_target_samples < u64::MAX,
        ensures
            (*final(control), r) == unchanged_window(
                *old(control),
                self.config.dynamic_cpu_stable_windows,
                *estimate,
            ),
    {
        let current: usize = match control.last_dynamic_cpu_count {
            Some(current) => current,
            None => return None,
        };
        if control.stable_dynamic_cpu_count {
            return None;
        }
        control.stable_dynamic_cpu_confirmations += 1;
        control.stable_dynamic_cpu_target_sum = estimate.target_sum;
        control.stable_dynamic_cpu_target_samples += 1;
        if control.stable_dynamic_cpu_confirmations < self.config.dynamic_cpu_stable_windows {
            return None;
        }
        clear_pending_dynamic_cpu_change(control);
        let averaged: usize = match estimate.averaged {
            Some(averaged) => averaged,
            None => return None,
        };
        if averaged == current {
            control.stable_dynamic_cpu_count = true;
            None
        } else {
            Some(averaged)
        }
    }

    /// Whether the controlled CPU count has settled. Where nothing is
    /// controlled there is nothing to settle.
    pub fn dynamic_cpu_affinity_is_stable(&self) -> (r: bool)
        ensures
            r == (!self.config.dynamic_cpu_affinity || (
            self.control.last_dynamic_cpu_count is Some && self.control.stable_dynamic_cpu_count)),
    {
        if !self.config.dynamic_cpu_affinity {
            return true;
        }
        self.control.last_dynamic_cpu_count.is_some() && self.control.stable_dynamic_cpu_count
    }

    /// Keeps the CPU count as it is from now on.
    pub fn dynamic_cpu_affinity_freeze(&mut self)
        ensures
            *final(self) == (HeatmapState { control: final(self).control, ..*old(self) }),
            final(self).control == if old(self).config.dynamic_cpu_affinity {
                WindowControlState {
                    dynamic_cpu_affinity_frozen: true,
                    stable_dynamic_cpu_count: old(self).control.last_dynamic_cpu_count is Some,
                    ..old(self).control.pending_cleared().stability_reset()
                }
            } else {
                old(self).control
            },
    {
        if !self.config.dynamic_cpu_affinity {
            return;
        }
        let mut control: WindowControlState = self.control;
        control.dynamic_cpu_affinity_frozen = true;
        clear_pending_dynamic_cpu_change(&mut control);
        reset_dynamic_cpu_stability(&mut control);
        control.stable_dynamic_cpu_count = control.last_dynamic_cpu_count.is_some();
        self.control = control;
    }
}

/// The control after the same estimate in `n` windows.
pub open spec fn confirm_run(
    control: WindowControlState,
    confirm_windows: u64,
    stable_windows: u64,
    estimate: WindowEstimate,
    n: nat,
) -> (WindowControlState, Option<usize>)
    decreases n,
{
    if n == 0 {
        (control, None)
    } else {
        confirmed_count(
            confirm_run(control, confirm_windows, stable_windows, estimate, (n - 1) as nat).0,
            confirm_windows,
            stable_windows,
            estimate,
        )
    }
}

/// A count is left only once another one was asked for in enough windows in a
/// row: the confirming windows for a first count, the stable windows for one
/// that has settled. Until then it stays as settled as it was.
pub proof fn law_a_count_changes_only_after_enough_windows(
    control: WindowControlState,
    confirm_windows: u64,
    stable_windows: u64,
    estimate: WindowEstimate,
    n: nat,
)
    requires
        control.last_dynamic_cpu_count is None || control.stable_dynamic_cpu_count,
        control.pending_dynamic_cpu_count is None,
        estimate.target is Some,
        control.last_dynamic_cpu_count != estimate.target,
        1 <= n <= if control.stable_dynamic_cpu_count {
            stable_windows
        } else {
            confirm_windows
        },
    ensures
        ({
            let (after, count) = confirm_run(control, confirm_windows, stable_windows, estimate, n);
            let needed = if control.stable_dynamic_cpu_count {
                stable_windows
            } else {
                confirm_windows
            };
            &&& count == if n == needed {
                estimate.target
            } else {
                None
            }
            &&& after == (WindowControlState {
                pending_dynamic_cpu_count: estimate.target,
                pending_dynamic_cpu_confirmations: n as u64,
                ..control
            })
        }),
    decreases n,
{
    reveal_with_fuel(confirm_run, 2);
    if n > 1 {
        law_a_count_changes_only_after_enough_windows(
            control,
            confirm_windows,
            stable_windows,
            estimate,
            (n - 1) as nat,
        );
    }
}

/// A new count settles in the window that completes the stable windows, if the
/// average of their targets agrees with it, and in none before.
pub proof fn law_a_new_count_settles_after_the_stable_windows(
    control: WindowControlState,
    confirm_windows: u64,
    stable_windows: u64,
    estimate: WindowEstimate,
    n: nat,
)
    requires
        control.last_dynamic_cpu_count is Some,
        !control.stable_dynamic_cpu_count,
        control.stable_dynamic_cpu_confirmations == 0,
        control.stable_dynamic_cpu_target_samples == 0,
        estimate.target is Some,
        estimate.averaged == control.last_dynamic_cpu_count,
        1 <= n <= stable_windows,
    ensures
        ({
            let (after, count) = confirm_run(control, confirm_windows, stable_windows, estimate, n);
            &&& count is None
            &&& after.last_dynamic_cpu_count == control.last_dynamic_cpu_count
            &&& after.stable_dynamic_cpu_count == (n == stable_windows)
            &&& after.stable_dynamic_cpu_confirmations == n
            &&& after.stable_dynamic_cpu_target_samples == n
        }),
    decreases n,
{
    reveal_with_fuel(confirm_run, 2);
    if n > 1 {
        law_a_new_count_settles_after_the_stable_windows(
            control,
            confirm_windows,
            stable_windows,
            estimate,
            (n - 1) as nat,
        );
    }
}

/// The windows right after a change do not count, however many samples they
/// have.
pub proof fn law_windows_after_a_change_are_discarded(
    control: WindowControlState,
    entries: Seq<WindowEntry>,
    min_samples: u64,
    current: u64,
)
    requires
        current <= control.next_window_index + control.dynamic_cpu_discard_windows_remaining,
    ensures
        advanced(control, entries, min_samples, current).1 is None,
    decreases current - control.next_window_index,
{
    let window = control.next_window_index;
    if window < current {
        let passed = WindowControlState { next_window_index: (window + 1) as u64, ..control };
        if window_count(entries, window) < min_samples {
            // A window that was passed over leaves as many to discard as before.
            law_windows_after_a_change_are_discarded(passed, entries, min_samples, current);
        } else {
            law_windows_after_a_change_are_discarded(
                WindowControlState {
                    dynamic_cpu_discard_windows_remaining: (
                    control.dynamic_cpu_discard_windows_remaining - 1) as u64,
                    ..passed
                },
                entries,
                min_samples,
                current,
            );
        }
    }
}

// Writing the heatmap out.
/// What a written heatmap holds.
#[derive(Clone, Copy, Debug, PartialEq, Eq, Structural)]
pub struct HeatmapWriteSummary {
    pub total_windows: usize,
    pub valid_windows: usize,
    pub invalid_windows: usize,
}

/// Whether the entry at `i` is the first one of its window.
pub open spec fn opens_window(entries: Seq<WindowEntry>, i: int) -> bool {
    i == 0 || entries[i].window_index != entries[i - 1].window_index
}

/// Windows among the first `n` entries.
pub open spec fn windows_among(entries: Seq<WindowEntry>, n: int) -> int
    decreases n,
{
    if n <= 0 {
        0
    } else {
        windows_among(entries, n - 1) + if opens_window(entries, n - 1) {
            1int
        } else {
            0
        }
    }
}

/// Those of them with at least `min_samples` samples.
pub open spec fn valid_among(entries: Seq<WindowEntry>, min_samples: u64, n: int) -> int
    decreases n,
{
    if n <= 0 {
        0
    } else {
        valid_among(entries, min_samples, n - 1) + if opens_window(entries, n - 1) && window_count(
            entries,
            entries[n - 1].window_index,
        ) >= min_samples {
            1int
        } else {
            0
        }
    }
}

pub open spec fn window_start(base_window_ns: u64, window_index: u64, window_ns: u64) -> int {
    arith::min_int(
        base_window_ns + arith::min_int(window_index * window_ns, u64::MAX as int),
        u64::MAX as int,
    )
}

pub open spec fn comma(n: int) -> Seq<char> {
    seq![','] + text::decimal(n as nat)
}

/// The line of one entry. `averages` is the text of the four averages of its
/// window.
pub open spec fn row_text(
    label: Seq<char>,
    state: HeatmapState,
    entry: WindowEntry,
    averages: Seq<char>,
) -> Seq<char> {
    let samples = window_count(state.windows.entries@, entry.window_index);
    let start = window_start(state.base_window_ns, entry.window_index, state.config.window_ns);
    let end = arith::min_int(start + state.config.window_ns, u64::MAX as int);
    let max = state.config.max_bin_index as int;
    label + comma(entry.window_index as int) + comma(start) + comma(end) + comma(samples) + comma(
        if samples >= state.config.min_window_samples {
            1
        } else {
            0
        },
    ) + seq![','] + averages + comma(entry.critical_bin as int) + comma(
        bin_lower(entry.critical_bin as int),
    ) + comma(bin_upper(entry.critical_bin as int, max)) + comma(entry.outside_bin as int) + comma(
        bin_lower(entry.outside_bin as int),
    ) + comma(bin_upper(entry.outside_bin as int, max)) + comma(entry.count as int) + seq!['\n']
}

/// The lines of the first `n` entries. `averages` holds one text per window.
pub open spec fn rows_text(
    label: Seq<char>,
    state: HeatmapState,
    averages: Seq<String>,
    n: int,
) -> Seq<char>
    decreases n,
{
    if n <= 0 {
        Seq::empty()
    } else {
        rows_text(label, state, averages, n - 1) + row_text(
            label,
            state,
            state.windows.entries@[n - 1],
            averages[windows_among(state.windows.entries@, n) - 1]@,
        )
    }
}

pub const HEATMAP_HEADER: &'static str =
    "stats_label,window_index,window_start_ns,window_end_ns,window_sample_count,window_valid,window_avg_critical_ns_est,window_avg_outside_ns_est,window_avg_critical_ns_ewma,window_avg_outside_ns_ewma,critical_bin_index,critical_bin_lo_ns,critical_bin_hi_ns,outside_bin_index,outside_bin_lo_ns,outside_bin_hi_ns,count\n";

fn append_comma(out: &mut String, n: u64)
    ensures
        final(out)@ == old(out)@ + comma(n as int),
{
    proof {
        reveal_strlit(",");
        assert(","@ =~= seq![',']);
    }
    out.append(",");
    text::append_decimal(out, n);
    assert(out@ =~= old(out)@ + comma(n as int));
}

fn append_row(out: &mut String, label: &str, state: &HeatmapState, i: usize, averages: &str)
    requires
        state.wf(),
        i < state.windows.entries@.len(),
    ensures
        final(out)@ == old(out)@ + row_text(
            label@,
            *state,
            state.windows.entries@[i as int],
            averages@,
        ),
{
    let entry: WindowEntry = state.windows.entries[i];
    let max: usize = state.config.max_bin_index;
    let samples: u64 = state.windows.window_samples(entry.window_index);
    let start: u64 = state.base_window_ns.saturating_add(
        arith::saturating_mul(entry.window_index, state.config.window_ns),
    );
    let end: u64 = start.saturating_add(state.config.window_ns);
    proof {
        reveal_strlit(",");
        reveal_strlit("\n");
        assert(","@ =~= seq![',']);
        assert("\n"@ =~= seq!['\n']);
    }
    let mut row: String = label.to_owned();
    append_comma(&mut row, entry.window_index);
    append_comma(&mut row, start);
    append_comma(&mut row, end);
    append_comma(&mut row, samples);
    append_comma(
        &mut row,
        if samples >= state.config.min_window_samples {
            1
        } else {
            0
        },
    );
    row.append(",");
    row.append(averages);
    append_comma(&mut row, entry.critical_bin as u64);
    append_comma(&mut row, heatmap_bin_lower_ns(entry.critical_bin));
    append_comma(&mut row, heatmap_bin_upper_ns(entry.critical_bin, max));
    append_comma(&mut row, entry.outside_bin as u64);
    append_comma(&mut row, heatmap_bin_lower_ns(entry.outside_bin));
    append_comma(&mut row, heatmap_bin_upper_ns(entry.outside_bin, max));
    append_comma(&mut row, entry.count);
    row.append("\n");
    assert(row@ == row_text(label@, *state, entry, averages@));
    out.append(row.as_str());
}

proof fn lemma_windows_among_grow(entries: Seq<WindowEntry>, m: int, n: int)
    requires
        0 <= m <= n,
    ensures
        0 <= windows_among(entries, m) <= windows_among(entries, n) <= n,
        m < n ==> windows_among(entries, m + 1) <= windows_among(entries, n),
        n > 0 ==> windows_among(entries, n) >= 1,
    decreases n,
{
    if n > 0 {
        if m < n {
            lemma_windows_among_grow(entries, m, n - 1);
        } else {
            lemma_windows_among_grow(entries, m - 1, n - 1);
        }
    }
}

/// Windows that hold any sample, in the order in which their averages are to be
/// handed to the writer.
pub fn sampled_windows(state: &HeatmapState) -> (r: Vec<u64>)
    requires
        state.wf(),
    ensures
        r@.len() == windows_among(state.windows.entries@, state.windows.entries@.len() as int),
        forall|i: int|
            0 <= i < state.windows.entries@.len() ==> r@[windows_among(
                state.windows.entries@,
                i + 1,
            ) - 1] == (#[trigger] state.windows.entries@[i]).window_index,
{
    let ghost entries = state.windows.entries@;
    let mut windows: Vec<u64> = Vec::new();
    let mut i: usize = 0;
    while i < state.windows.entries.len()
        invariant
            entries == state.windows.entries@,
            i <= entries.len(),
            windows@.len() == windows_among(entries, i as int),
            forall|k: int|
                0 <= k < i ==> windows@[windows_among(entries, k + 1) - 1] == (
                #[trigger] entries[k]).window_index,
        decreases entries.len() - i,
    {
        let opens: bool = i == 0 || state.windows.entries[i].window_index
            != state.windows.entries[i - 1].window_index;
        let ghost before = windows@;
        proof {
            lemma_windows_among_grow(entries, i as int, i as int + 1);
            assert forall|k: int| 0 <= k < i implies 1 <= windows_among(entries, #[trigger] (k + 1))
                <= before.len() by {
                lemma_windows_among_grow(entries, k + 1, i as int);
                lemma_windows_among_grow(entries, 0, k + 1);
            }
        }
        if opens {
            windows.push(state.windows.entries[i].window_index);
        } else {
            assert(windows@[windows_among(entries, i as int) - 1] == entries[i
                - 1].window_index);
        }
        proof {
            assert forall|k: int| 0 <= k <= i implies windows@[windows_among(entries, k + 1) - 1]
                == (#[trigger] entries[k]).window_index by {
                if k < i {
                    let m = k + 1;
                    assert(1 <= windows_among(entries, m) <= before.len());
                    assert(before[windows_among(entries, k + 1) - 1] == entries[k].window_index);
                }
            }
        }
        i += 1;
    }
    windows
}

/// The heatmap as comma-separated lines, one per bin that holds any sample,
/// with what they amount to. `averages` holds the text of the four averages of
/// each window, in the order of the windows.
pub fn write_heatmap_csv_to_writer(
    label: &str,
    state: &HeatmapState,
    averages: &Vec<String>,
) -> (r: (String, HeatmapWriteSummary))
    requires
        state.wf(),
        averages@.len() == windows_among(
            state.windows.entries@,
            state.windows.entries@.len() as int,
        ),
    ensures
        ({
            let entries = state.windows.entries@;
            let n = entries.len() as int;
            &&& r.0@ == HEATMAP_HEADER@ + rows_text(label@, *state, averages@, n)
            &&& r.1.total_windows == windows_among(entries, n)
            &&& r.1.valid_windows == valid_among(entries, state.config.min_window_samples, n)
            &&& r.1.invalid_windows == windows_among(entries, n) - valid_among(
                entries,
                state.config.min_window_samples,
                n,
            )
        }),
{
    let ghost entries = state.windows.entries@;
    let ghost n = entries.len() as int;
    let mut out: String = String::new();
    out.append(HEATMAP_HEADER);
    assert(out@ =~= HEATMAP_HEADER@);
    let mut total: usize = 0;
    let mut valid: usize = 0;
    let mut i: usize = 0;
    while i < state.windows.entries.len()
        invariant
            state.wf(),
            entries == state.windows.entries@,
            n == entries.len(),
            i <= n,
            averages@.len() == windows_among(entries, n),
            out@ == HEATMAP_HEADER@ + rows_text(label@, *state, averages@, i as int),
            total == windows_among(entries, i as int),
            valid == valid_among(entries, state.config.min_window_samples, i as int),
            valid <= total <= i,
        decreases n - i,
    {
        let window_index: u64 = state.windows.entries[i].window_index;
        let opens: bool = i == 0 || window_index != state.windows.entries[i - 1].window_index;
        if opens {
            total += 1;
            if state.windows.window_samples(window_index) >= state.config.min_window_samples {
                valid += 1;
            }
        }
        proof {
            lemma_windows_among_grow(entries, i as int + 1, n);
            lemma_windows_among_grow(entries, 0, i as int + 1);
        }
        let ghost before = out@;
        append_row(&mut out, label, state, i, averages[total - 1].as_str());
        proof {
            assert(out@ =~= HEATMAP_HEADER@ + rows_text(label@, *state, averages@, i as int + 1));
        }
        i += 1;
    }
    (
        out,
        HeatmapWriteSummary {
            total_windows: total,
            valid_windows: valid,
            invalid_windows: total.saturating_sub(valid),
        },
    )
}

/// A sample is counted in the window that its time falls into: a window starts a whole
/// number of window lengths after the first sample, and ends one length later. The
/// first sample opens the first window, and one from before it falls into that too.
pub proof fn law_a_sample_lies_in_its_window(state: HeatmapState, sample_time_ns: u64)
    requires
        state.config.window_ns > 0,
    ensures
        ({
            let length = state.config.window_ns as int;
            let w = state.window_at(sample_time_ns);
            &&& state.base_window_ns == 0 ==> w == 0
            &&& sample_time_ns < state.base_window_ns ==> w == 0
            &&& state.base_window_ns != 0 && sample_time_ns >= state.base_window_ns ==> {
                &&& 0 <= w <= u64::MAX
                &&& state.base_window_ns + w * length <= sample_time_ns
                &&& sample_time_ns < state.base_window_ns + (w + 1) * length
            }
        }),
{
    let length = state.config.window_ns as int;
    if state.base_window_ns != 0 && sample_time_ns >= state.base_window_ns {
        let since = sample_time_ns - state.base_window_ns;
        let w = state.window_at(sample_time_ns);
        vstd::arithmetic::div_mod::lemma_fundamental_div_mod(since, length);
        vstd::arithmetic::div_mod::lemma_mod_bound(since, length);
        assert(w * length <= since < (w + 1) * length) by (nonlinear_arith)
            requires
                since == length * w + since % length,
                0 <= since % length < length,
        ;
        assert(0 <= w <= since) by (nonlinear_arith)
            requires
                w * length <= since < (w + 1) * length,
                length > 0,
                since >= 0,
        ;
    } else {
        vstd::arithmetic::div_mod::lemma_small_mod(0, length as nat);
        vstd::arithmetic::div_mod::lemma_fundamental_div_mod(0, length);
        assert(0int / length == 0) by (nonlinear_arith)
            requires
                length > 0,
        ;
    }
}

/// Later samples are counted in the same window or a later one, and two that are less
/// than a window length apart in the same or in adjacent ones.
pub proof fn law_windows_follow_the_samples(state: HeatmapState, earlier: u64, later: u64)
    requires
        state.config.window_ns > 0,
        state.base_window_ns != 0,
        earlier <= later,
    ensures
        state.window_at(earlier) <= state.window_at(later),
        later - earlier < state.config.window_ns ==> state.window_at(later) <= state.window_at(
            earlier,
        ) + 1,
        later - earlier >= state.config.window_ns && earlier >= state.base_window_ns
            ==> state.window_at(later) > state.window_at(earlier),
{
    law_a_sample_lies_in_its_window(state, earlier);
    law_a_sample_lies_in_its_window(state, later);
    let length = state.config.window_ns as int;
    let (a, b) = (state.window_at(earlier), state.window_at(later));
    if earlier >= state.base_window_ns {
        let (x, y) = (earlier - state.base_window_ns, later - state.base_window_ns);
        assert(a <= b) by (nonlinear_arith)
            requires
                a * length <= x,
                x <= y,
                y < (b + 1) * length,
                length > 0,
        ;
        if y - x < length {
            assert(b <= a + 1) by (nonlinear_arith)
                requires
                    b * length <= y,
                    x < (a + 1) * length,
                    y - x < length,
                    length > 0,
            ;
        } else {
            assert(b > a) by (nonlinear_arith)
                requires
                    a * length <= x,
                    y < (b + 1) * length,
                    y - x >= length,
                    length > 0,
            ;
        }
    } else if later >= state.base_window_ns {
        if later - earlier < length {
            assert(b <= 1) by (nonlinear_arith)
                requires
                    b * length <= later - state.base_window_ns,
                    later - state.base_window_ns < length,
                    length > 0,
            ;
        }
    }
}

/// What a row shows as the start of a window is no later than any sample in it, and what
/// it shows as the end is after all of them.
pub proof fn law_a_row_spans_the_samples_of_its_window(state: HeatmapState, sample_time_ns: u64)
    requires
        state.config.window_ns > 0,
        state.base_window_ns != 0,
        sample_time_ns >= state.base_window_ns,
        sample_time_ns + state.config.window_ns <= u64::MAX,
    ensures
        ({
            let length = state.config.window_ns as int;
            let w = state.window_at(sample_time_ns);
            let start = window_start(state.base_window_ns, w as u64, state.config.window_ns);
            &&& start <= sample_time_ns < start + length
            &&& w == 0 ==> start == state.base_window_ns
        }),
{
    law_a_sample_lies_in_its_window(state, sample_time_ns);
    let length = state.config.window_ns as int;
    let w = state.window_at(sample_time_ns);
    assert((w + 1) * length == w * length + length) by (nonlinear_arith);
    assert(0 <= w * length) by (nonlinear_arith)
        requires
            w >= 0,
            length > 0,
    ;
}

/// A sample is counted once: under its key, in its window and in all, and nowhere else.
pub proof fn law_a_sample_is_counted_once(
    before: Seq<WindowEntry>,
    after: Seq<WindowEntry>,
    key: BinKey,
    other: BinKey,
    window: u64,
)
    requires
        counted_one(before, after, key),
        other != key,
        window != key.0,
    ensures
        count_of(after, key) == count_of(before, key) + 1,
        has_key(after, key),
        count_of(after, other) == count_of(before, other),
        has_key(after, other) == has_key(before, other),
        window_count(after, key.0) == window_count(before, key.0) + 1,
        window_count(after, window) == window_count(before, window),
        total_count(after) == total_count(before) + 1,
{
}

/// The windows from `from` up to `to` that have enough samples to count.
pub open spec fn full_windows(
    entries: Seq<WindowEntry>,
    min_samples: u64,
    from: int,
    to: int,
) -> int
    decreases to - from,
{
    if from >= to {
        0
    } else {
        full_windows(entries, min_samples, from + 1, to) + if window_count(entries, from as u64)
            >= min_samples {
            1int
        } else {
            0
        }
    }
}

proof fn lemma_full_windows_grow(
    entries: Seq<WindowEntry>,
    min_samples: u64,
    from: int,
    to: int,
)
    ensures
        0 <= full_windows(entries, min_samples, from, to),
    decreases to - from,
{
    if from < to {
        lemma_full_windows_grow(entries, min_samples, from + 1, to);
    }
}

/// The window that is taken next is completed, has enough samples, and is the first such
/// one once as many of them were passed over as are to be discarded. Where there is none,
/// all completed windows were looked at, and those with enough samples were taken off
/// what is to be discarded. Nothing else changes.
pub proof fn law_the_first_full_window_is_taken(
    control: WindowControlState,
    entries: Seq<WindowEntry>,
    min_samples: u64,
    current: u64,
)
    ensures
        ({
            let (after, taken) = advanced(control, entries, min_samples, current);
            let from = control.next_window_index as int;
            let discard = control.dynamic_cpu_discard_windows_remaining as int;
            &&& match taken {
                Some(window) => {
                    &&& from <= window < current
                    &&& window_count(entries, window) >= min_samples
                    &&& full_windows(entries, min_samples, from, window as int) == discard
                    &&& after.next_window_index == window + 1
                    &&& after.dynamic_cpu_discard_windows_remaining == 0
                },
                None => {
                    &&& full_windows(entries, min_samples, from, current as int) <= discard
                    &&& after.next_window_index == if from < current {
                        current as int
                    } else {
                        from
                    }
                    &&& after.dynamic_cpu_discard_windows_remaining == discard - full_windows(
                        entries,
                        min_samples,
                        from,
                        current as int,
                    )
                },
            }
            &&& after == (WindowControlState {
                next_window_index: after.next_window_index,
                dynamic_cpu_discard_windows_remaining: after.dynamic_cpu_discard_windows_remaining,
                ..control
            })
        }),
    decreases current - control.next_window_index,
{
    let window = control.next_window_index;
    if window < current {
        let passed = WindowControlState { next_window_index: (window + 1) as u64, ..control };
        if window_count(entries, window) < min_samples {
            law_the_first_full_window_is_taken(passed, entries, min_samples, current);
        } else if control.dynamic_cpu_discard_windows_remaining != 0 {
            let fewer = WindowControlState {
                dynamic_cpu_discard_windows_remaining: (
                control.dynamic_cpu_discard_windows_remaining - 1) as u64,
                ..passed
            };
            law_the_first_full_window_is_taken(fewer, entries, min_samples, current);
        }
    }
}

/// A change of the count starts all measurement over and discards the next twenty windows;
/// a window that changes nothing keeps the count, and its averages are taken in.
pub proof fn law_a_change_starts_the_measurement_over(
    control: WindowControlState,
    confirm_windows: u64,
    stable_windows: u64,
    estimate: WindowEstimate,
)
    ensures
        ({
            let (after, change) = estimated(control, confirm_windows, stable_windows, estimate);
            &&& match change {
                Some(count) => {
                    &&& after.last_dynamic_cpu_count == Some(count)
                    &&& count == estimate.target->0 || Some(count) == estimate.averaged
                    &&& after.critical_mean_ewma is None && after.outside_mean_ewma is None
                    &&& !after.stable_dynamic_cpu_count
                    &&& after.pending_dynamic_cpu_count is None
                    &&& after.pending_dynamic_cpu_confirmations == 0
                    &&& after.stable_dynamic_cpu_confirmations == 0
                    &&& after.stable_dynamic_cpu_target_sum == 0
                    &&& after.stable_dynamic_cpu_target_samples == 0
                    &&& after.dynamic_cpu_discard_windows_remaining == 20
                },
                None => {
                    &&& after.last_dynamic_cpu_count == control.last_dynamic_cpu_count
                    &&& after.critical_mean_ewma == Some(estimate.critical_ewma)
                    &&& after.outside_mean_ewma == Some(estimate.outside_ewma)
                    &&& after.dynamic_cpu_discard_windows_remaining
                        == control.dynamic_cpu_discard_windows_remaining
                    &&& control.stable_dynamic_cpu_count ==> after.stable_dynamic_cpu_count
                },
            }
            &&& after.next_window_index == control.next_window_index
            &&& after.dynamic_cpu_affinity_frozen == control.dynamic_cpu_affinity_frozen
            &&& estimate.target is None ==> change is None && after == (WindowControlState {
                critical_mean_ewma: Some(estimate.critical_ewma),
                outside_mean_ewma: Some(estimate.outside_ewma),
                ..control
            })
        }),
{
}

/// A window that asks for another count than the last one did starts the confirmation over
/// with itself as the first.
pub proof fn law_another_proposal_starts_over(
    control: WindowControlState,
    confirm_windows: u64,
    stable_windows: u64,
    estimate: WindowEstimate,
)
    requires
        control.last_dynamic_cpu_count is None || control.stable_dynamic_cpu_count,
        estimate.target is Some,
        control.last_dynamic_cpu_count != estimate.target,
        control.pending_dynamic_cpu_count != estimate.target,
        confirm_windows > 1,
        stable_windows > 1,
    ensures
        ({
            let (after, change) = estimated(control, confirm_windows, stable_windows, estimate);
            &&& change is None
            &&& after.pending_dynamic_cpu_count == estimate.target
            &&& after.pending_dynamic_cpu_confirmations == 1
        }),
{
}

/// A settled count that a window agrees with stays, and what was pending is dropped.
pub proof fn law_agreement_drops_what_is_pending(
    control: WindowControlState,
    confirm_windows: u64,
    stable_windows: u64,
    estimate: WindowEstimate,
)
    requires
        control.stable_dynamic_cpu_count,
        estimate.target is Some,
        control.last_dynamic_cpu_count == estimate.target,
    ensures
        ({
            let (after, change) = estimated(control, confirm_windows, stable_windows, estimate);
            &&& change is None
            &&& after.pending_dynamic_cpu_count is None
            &&& after.pending_dynamic_cpu_confirmations == 0
            &&& after.stable_dynamic_cpu_count
        }),
{
}

/// A new count is not changed by single windows: until the stable windows are complete no
/// target moves it, each one is taken in, and then the average of all of them decides.
pub proof fn law_the_average_settles_a_new_count(
    control: WindowControlState,
    confirm_windows: u64,
    stable_windows: u64,
    estimate: WindowEstimate,
)
    requires
        control.last_dynamic_cpu_count is Some,
        !control.stable_dynamic_cpu_count,
        estimate.target is Some,
        control.has_room(),
    ensures
        ({
            let (after, change) = estimated(control, confirm_windows, stable_windows, estimate);
            let complete = control.stable_dynamic_cpu_confirmations + 1 >= stable_windows;
            &&& change == if complete && estimate.averaged is Some && estimate.averaged
                != control.last_dynamic_cpu_count {
                estimate.averaged
            } else {
                None
            }
            &&& change is None ==> {
                &&& after.stable_dynamic_cpu_count == (complete && estimate.averaged
                    == control.last_dynamic_cpu_count)
                &&& after.stable_dynamic_cpu_confirmations
                    == control.stable_dynamic_cpu_confirmations + 1
                &&& after.stable_dynamic_cpu_target_samples
                    == control.stable_dynamic_cpu_target_samples + 1
                &&& after.stable_dynamic_cpu_target_sum == estimate.target_sum
            }
        }),
{
}

/// The windows among the entries of a heatmap are as many as there are distinct ones, and
/// those with enough samples are among them.
pub proof fn law_each_window_is_reported_once(
    entries: Seq<WindowEntry>,
    min_samples: u64,
    n: int,
)
    requires
        sorted(entries),
        0 <= n <= entries.len(),
    ensures
        ({
            let seen = Set::new(
                |w: u64| exists|i: int| 0 <= i < n && (#[trigger] entries[i]).window_index == w,
            );
            let full = Set::new(
                |w: u64|
                    window_count(entries, w) >= min_samples && exists|i: int|
                        0 <= i < n && (#[trigger] entries[i]).window_index == w,
            );
            &&& seen.finite() && windows_among(entries, n) == seen.len()
            &&& full.finite() && valid_among(entries, min_samples, n) == full.len()
        }),
    decreases n,
{
    let seen = Set::new(
        |w: u64| exists|i: int| 0 <= i < n && (#[trigger] entries[i]).window_index == w,
    );
    let full = Set::new(
        |w: u64|
            window_count(entries, w) >= min_samples && exists|i: int|
                0 <= i < n && (#[trigger] entries[i]).window_index == w,
    );
    if n == 0 {
        assert(seen =~= Set::empty());
        assert(full =~= Set::empty());
    } else {
        law_each_window_is_reported_once(entries, min_samples, n - 1);
        let before = Set::new(
            |w: u64| exists|i: int| 0 <= i < n - 1 && (#[trigger] entries[i]).window_index == w,
        );
        let full_before = Set::new(
            |w: u64|
                window_count(entries, w) >= min_samples && exists|i: int|
                    0 <= i < n - 1 && (#[trigger] entries[i]).window_index == w,
        );
        let w = entries[n - 1].window_index;
        assert forall|x: u64| #[trigger] seen.contains(x) <==> before.contains(x) || x == w by {
            if seen.contains(x) {
                let i = choose|i: int| 0 <= i < n && (#[trigger] entries[i]).window_index == x;
                assert(i < n - 1 || x == w);
            }
            if before.contains(x) {
                let i = choose|i: int| 0 <= i < n - 1 && (#[trigger] entries[i]).window_index == x;
                assert(entries[i].window_index == x);
            }
            if x == w {
                assert(entries[n - 1].window_index == x);
            }
        }
        assert(seen =~= before.insert(w));
        if opens_window(entries, n - 1) {
            assert(!before.contains(w)) by {
                if before.contains(w) {
                    let i = choose|i: int|
                        0 <= i < n - 1 && (#[trigger] entries[i]).window_index == w;
                    assert(key_lt(entries[n - 2].key(), entries[n - 1].key()));
                    if i < n - 2 {
                        assert(key_lt(entries[i].key(), entries[n - 2].key()));
                    }
                }
            }
        } else {
            assert(entries[n - 2].window_index == w);
            assert(before.contains(w));
        }
        if window_count(entries, w) >= min_samples {
            assert forall|x: u64| #[trigger] full.contains(x) <==> full_before.contains(x) || x
                == w by {
                assert(full.contains(x) <==> seen.contains(x) && window_count(entries, x)
                    >= min_samples);
                assert(full_before.contains(x) <==> before.contains(x) && window_count(entries, x)
                    >= min_samples);
            }
            assert(full =~= full_before.insert(w));
            assert(full_before.contains(w) <==> before.contains(w));
        } else {
            assert forall|x: u64| #[trigger] full.contains(x) <==> full_before.contains(x) by {
                assert(full.contains(x) <==> seen.contains(x) && window_count(entries, x)
                    >= min_samples);
                assert(full_before.contains(x) <==> before.contains(x) && window_count(entries, x)
                    >= min_samples);
            }
            assert(full =~= full_before);
        }
    }
}

/// A number at the end of a line is a column of its own.
proof fn lemma_number_column(s: Seq<char>, n: int)
    requires
        n >= 0,
    ensures
        text::split(s + comma(n), ',') == text::split(s, ',').push(text::decimal(n as nat)),
{
    let digits = text::decimal(n as nat);
    text::lemma_decimal(n as nat);
    assert forall|i: int| 0 <= i < digits.len() implies digits[i] != ',' by {
        assert(text::is_digit(digits[i]));
    }
    text::law_a_last_piece_comes_last(s, ',', digits);
    assert(s + comma(n) =~= s + seq![','] + digits);
}

/// So is one that the line ends with.
proof fn lemma_last_column(s: Seq<char>, n: int)
    requires
        n >= 0,
    ensures
        text::split(s + comma(n) + seq!['\n'], ',') == text::split(s, ',').push(
            text::decimal(n as nat) + seq!['\n'],
        ),
{
    let digits = text::decimal(n as nat);
    let last = digits + seq!['\n'];
    text::lemma_decimal(n as nat);
    assert forall|i: int| 0 <= i < last.len() implies last[i] != ',' by {
        if i < digits.len() {
            assert(last[i] == digits[i]);
            assert(text::is_digit(digits[i]));
        }
    }
    text::law_a_last_piece_comes_last(s, ',', last);
    assert(s + comma(n) + seq!['\n'] =~= s + seq![','] + last);
}

proof fn lemma_five_columns(s: Seq<char>, a: int, b: int, c: int, d: int, e: int)
    requires
        a >= 0,
        b >= 0,
        c >= 0,
        d >= 0,
        e >= 0,
    ensures
        ({
            let before = text::split(s, ',');
            let n = before.len() as int;
            let all = text::split(s + comma(a) + comma(b) + comma(c) + comma(d) + comma(e), ',');
            &&& all.len() == n + 5
            &&& forall|k: int| 0 <= k < n ==> #[trigger] all[k] == before[k]
            &&& all[n] == text::decimal(a as nat)
            &&& all[n + 1] == text::decimal(b as nat)
            &&& all[n + 2] == text::decimal(c as nat)
            &&& all[n + 3] == text::decimal(d as nat)
            &&& all[n + 4] == text::decimal(e as nat)
        }),
{
    lemma_number_column(s, a);
    lemma_number_column(s + comma(a), b);
    lemma_number_column(s + comma(a) + comma(b), c);
    lemma_number_column(s + comma(a) + comma(b) + comma(c), d);
    lemma_number_column(s + comma(a) + comma(b) + comma(c) + comma(d), e);
}

/// The line of an entry has each number in its column: what the window is, when it starts
/// and ends, how many samples it has and whether these are enough, its averages, and then
/// the two bins with their bounds, and the count.
pub proof fn law_a_row_has_each_number_in_its_column(
    label: Seq<char>,
    state: HeatmapState,
    entry: WindowEntry,
    averages: Seq<char>,
)
    requires
        state.wf(),
        entry.critical_bin <= state.config.max_bin_index,
        entry.outside_bin <= state.config.max_bin_index,
        forall|i: int| 0 <= i < label.len() ==> label[i] != ',',
    ensures
        ({
            let columns = text::split(row_text(label, state, entry, averages), ',');
            let shown = text::split(averages, ',');
            let m = shown.len() as int;
            let samples = window_count(state.windows.entries@, entry.window_index);
            let start = window_start(
                state.base_window_ns,
                entry.window_index,
                state.config.window_ns,
            );
            let max = state.config.max_bin_index as int;
            &&& columns.len() == m + 13
            &&& columns[0] == label
            &&& columns[1] == text::decimal(entry.window_index as nat)
            &&& columns[2] == text::decimal(start as nat)
            &&& start + state.config.window_ns <= u64::MAX ==> columns[3] == text::decimal(
                (start + state.config.window_ns) as nat,
            )
            &&& columns[4] == text::decimal(samples as nat)
            &&& samples >= state.config.min_window_samples ==> columns[5] == text::decimal(1)
            &&& samples < state.config.min_window_samples ==> columns[5] == text::decimal(0)
            &&& forall|k: int| 0 <= k < m ==> #[trigger] columns[6 + k] == shown[k]
            &&& columns[m + 6] == text::decimal(entry.critical_bin as nat)
            &&& columns[m + 7] == text::decimal(bin_lower(entry.critical_bin as int) as nat)
            &&& columns[m + 8] == text::decimal(bin_upper(entry.critical_bin as int, max) as nat)
            &&& columns[m + 9] == text::decimal(entry.outside_bin as nat)
            &&& columns[m + 10] == text::decimal(bin_lower(entry.outside_bin as int) as nat)
            &&& columns[m + 11] == text::decimal(bin_upper(entry.outside_bin as int, max) as nat)
            &&& columns[m + 12] == text::decimal(entry.count as nat) + seq!['\n']
        }),
{
    let samples = window_count(state.windows.entries@, entry.window_index);
    let start = window_start(state.base_window_ns, entry.window_index, state.config.window_ns);
    let end = arith::min_int(start + state.config.window_ns, u64::MAX as int);
    let max = state.config.max_bin_index as int;
    let valid: int = if samples >= state.config.min_window_samples {
        1
    } else {
        0
    };
    lemma_window_count_bound(state.windows.entries@, entry.window_index);
    assert(0 <= entry.window_index * state.config.window_ns) by (nonlinear_arith);
    if entry.critical_bin > 0 {
        vstd::arithmetic::power2::lemma_pow2_pos((entry.critical_bin - 1) as nat);
        vstd::arithmetic::power2::lemma_pow2_pos(entry.critical_bin as nat);
    }
    if entry.outside_bin > 0 {
        vstd::arithmetic::power2::lemma_pow2_pos((entry.outside_bin - 1) as nat);
        vstd::arithmetic::power2::lemma_pow2_pos(entry.outside_bin as nat);
    }
    text::law_a_text_splits_at_its_separators(label, ',', label);
    lemma_five_columns(label, entry.window_index as int, start, end, samples, valid);
    let head = label + comma(entry.window_index as int) + comma(start) + comma(end) + comma(samples)
        + comma(valid);
    text::law_joined_texts_split_apart(head, ',', averages);
    let middle = head + seq![','] + averages;
    let shown = text::split(averages, ',');
    let m = shown.len() as int;
    let (critical, outside) = (entry.critical_bin as int, entry.outside_bin as int);
    lemma_five_columns(
        middle,
        critical,
        bin_lower(critical),
        bin_upper(critical, max),
        outside,
        bin_lower(outside),
    );
    let bins = middle + comma(critical) + comma(bin_lower(critical)) + comma(
        bin_upper(critical, max),
    ) + comma(outside) + comma(bin_lower(outside));
    lemma_number_column(bins, bin_upper(outside, max));
    lemma_last_column(bins + comma(bin_upper(outside, max)), entry.count as int);
    let columns = text::split(row_text(label, state, entry, averages), ',');
    assert(row_text(label, state, entry, averages) == bins + comma(bin_upper(outside, max)) + comma(
        entry.count as int,
    ) + seq!['\n']);
    let two = text::split(middle, ',');
    assert(two.len() == m + 6);
    assert forall|k: int| 0 <= k < m implies #[trigger] columns[6 + k] == shown[k] by {
        assert(columns[6 + k] == two[6 + k]);
    }
    assert(columns[0] == two[0] && columns[1] == two[1] && columns[2] == two[2] && columns[3]
        == two[3] && columns[4] == two[4] && columns[5] == two[5]);
}

/// A fresh control starts with the first window: it takes that one as soon as it is over,
/// where it has enough samples.
pub proof fn law_a_fresh_control_starts_with_the_first_window(
    entries: Seq<WindowEntry>,
    min_samples: u64,
    current: u64,
)
    requires
        window_count(entries, 0) >= min_samples,
    ensures
        current > 0 ==> advanced(fresh_control(), entries, min_samples, current).1 == Some(0u64),
        current == 0 ==> advanced(fresh_control(), entries, min_samples, current) == (
            fresh_control(),
            None::<u64>,
        ),
        fresh_control().last_dynamic_cpu_count is None,
        !fresh_control().dynamic_cpu_affinity_frozen,
{
}

/// Entries are in the order of their windows, those of a window in that of their critical
/// bins, and those of one bin in that of their outside bins; no key is there twice.
pub proof fn law_entries_are_in_order(entries: Seq<WindowEntry>, i: int, j: int)
    requires
        sorted(entries),
        0 <= i < j < entries.len(),
    ensures
        entries[i].window_index <= entries[j].window_index,
        entries[i].window_index == entries[j].window_index ==> entries[i].critical_bin
            <= entries[j].critical_bin,
        entries[i].window_index == entries[j].window_index && entries[i].critical_bin
            == entries[j].critical_bin ==> entries[i].outside_bin < entries[j].outside_bin,
{
    assert(key_lt(entries[i].key(), entries[j].key()));
}

/// What is counted under a key is the count of its entry, and nothing without one.
pub proof fn law_a_count_is_that_of_its_entry(entries: Seq<WindowEntry>, i: int, key: BinKey)
    requires
        sorted(entries),
        0 <= i < entries.len(),
    ensures
        count_of(
            entries,
            (entries[i].window_index, entries[i].critical_bin, entries[i].outside_bin),
        ) == entries[i].count,
        (forall|k: int|
            0 <= k < entries.len() ==> ((#[trigger] entries[k]).window_index, entries[k].critical_bin, entries[k].outside_bin)
                != key) ==> count_of(entries, key) == 0,
{
    lemma_count_of(entries, i);
    if has_key(entries, key) {
        let k = choose|k: int| 0 <= k < entries.len() && (#[trigger] entries[k]).key() == key;
        assert((entries[k].window_index, entries[k].critical_bin, entries[k].outside_bin) == key);
    }
}

/// Every entry has its line, after those before it, with the averages of its own window:
/// the ones of the first window come first, and each further window has the next.
pub proof fn law_every_entry_has_its_line(
    label: Seq<char>,
    state: HeatmapState,
    averages: Seq<String>,
    n: int,
)
    requires
        state.wf(),
        0 <= n < state.windows.entries@.len(),
    ensures
        rows_text(label, state, averages, 0).len() == 0,
        ({
            let entries = state.windows.entries@;
            let seen = Set::new(
                |w: u64|
                    exists|i: int| 0 <= i < n + 1 && (#[trigger] entries[i]).window_index == w,
            );
            &&& seen.len() >= 1
            &&& rows_text(label, state, averages, n + 1) == rows_text(label, state, averages, n)
                + row_text(label, state, entries[n], averages[seen.len() - 1]@)
        }),
{
    let entries = state.windows.entries@;
    law_each_window_is_reported_once(entries, 0, n + 1);
    let seen = Set::new(
        |w: u64| exists|i: int| 0 <= i < n + 1 && (#[trigger] entries[i]).window_index == w,
    );
    assert(entries[n].window_index == entries[n].window_index);
    assert(seen.contains(entries[n].window_index));
    assert(seen.len() >= 1) by {
        if seen.len() == 0 {
            assert(seen =~= Set::empty());
        }
    }
}

/// No sample is in a bin past the last one.
pub proof fn law_every_bin_is_within_the_last(state: HeatmapState, i: int)
    requires
        state.wf(),
        0 <= i < state.windows.entries@.len(),
    ensures
        state.windows.entries@[i].critical_bin <= state.config.max_bin_index <= 64,
        state.windows.entries@[i].outside_bin <= state.config.max_bin_index,
{
}

} // verus!
