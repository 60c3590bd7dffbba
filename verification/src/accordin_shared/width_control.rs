//! Per-class widths: how many CPUs may serve the waiters of a lock class at
//! once.
//!
//! Widths are either configured or found by a feedback loop that runs once per
//! window. The loop's model of a class is a floating-point estimate made
//! outside; the loop gets the seed it rounds to, and keeps the averages behind
//! it as the bit patterns it was handed.
use vstd::prelude::*;

use crate::accordin_shared::env;
use crate::accordin_shared::lock_class::{CLASS_COUNT, MAX_LOCK_CLASSES, UNMANAGED_LOCK_ID};
use crate::text;

verus! {

/// Ceiling for every width-shaped value that is configured. Zero still means
/// unlimited.
pub const MAX_STATIC_WIDTH: u32 = 4096;

pub const DEFAULT_HOLDOFF_WINDOWS: u32 = 3;

pub const MAX_HOLDOFF_WINDOWS: u32 = 1024;

pub const DEFAULT_DEADZONE: u32 = 1;

pub const DEFAULT_TICK_WINDOW_NS: u64 = 10_000_000;

/// The narrowest width at which a class under high-frequency contention keeps
/// making progress. Configured widths are exempt from it.
pub const DEFAULT_MIN_WIDTH: u32 = 2;

/// Sampled acquires that a class must have contributed since its last width
/// change before the loop may move it again.
pub const MIN_ACQUIRES_PER_DECISION: u64 = 32;

/// Recent committed widths kept per class.
pub const WIDTH_HISTORY_LEN: usize = 8;

/// Managed class ranks: every class but the unmanaged one.
pub const MANAGED_CLASS_COUNT: u32 = 63;

// Settings.
/// The width a setting asks for, confined to the static maximum.
pub open spec fn width_setting(value: Seq<char>) -> Option<u32> {
    match text::unsigned(text::trim(value), u32::MAX as int) {
        Some(width) => Some(
            if width < MAX_STATIC_WIDTH {
                width as u32
            } else {
                MAX_STATIC_WIDTH
            },
        ),
        None => None,
    }
}

/// The class and the width that an entry `class:width` names, where it is well
/// formed and the class is a managed one.
pub open spec fn class_map_entry(entry: Seq<char>) -> Option<(int, u32)> {
    let entry = text::trim(entry);
    let colon = text::find_from(entry, ':', 0);
    if colon >= entry.len() {
        None
    } else {
        let class = text::unsigned(text::trim(entry.subrange(0, colon)), u32::MAX as int);
        let width = width_setting(entry.subrange(colon + 1, entry.len() as int));
        match (class, width) {
            (Some(class), Some(width)) => if class != UNMANAGED_LOCK_ID && class
                < MAX_LOCK_CLASSES {
                Some((class, width))
            } else {
                None
            },
            _ => None,
        }
    }
}

/// `widths` with the entries of a class map applied in order. Entries that are
/// not well formed change nothing.
pub open spec fn with_entries(widths: Seq<u32>, entries: Seq<Seq<char>>) -> Seq<u32>
    decreases entries.len(),
{
    if entries.len() == 0 {
        widths
    } else {
        let before = with_entries(widths, entries.drop_last());
        match class_map_entry(entries.last()) {
            Some((class, width)) => before.update(class, width),
            None => before,
        }
    }
}

/// The widths that the static settings ask for, if either is present.
pub open spec fn static_widths(
    fixed: Option<Seq<char>>,
    class_map: Option<Seq<char>>,
) -> Option<Seq<u32>> {
    if fixed is None && class_map is None {
        None
    } else {
        let value = match fixed {
            Some(fixed) => match width_setting(fixed) {
                Some(width) => width,
                None => 0,
            },
            None => 0,
        };
        let base = Seq::new(
            CLASS_COUNT as nat,
            |class: int| if class == UNMANAGED_LOCK_ID { 0 } else { value },
        );
        match class_map {
            Some(class_map) => Some(with_entries(base, text::split(class_map, ','))),
            None => Some(base),
        }
    }
}

pub fn enabled(value: Option<&str>) -> (r: bool)
    ensures
        r == match value {
            Some(value) => text::is_truthy(value@),
            None => false,
        },
{
    env::env_flag(value)
}

/// The statically configured widths, indexed by class, or `None` where neither
/// setting is present or width control is off. Index 0 is the unmanaged class
/// and stays 0.
pub fn fixed_class_widths(
    enabled: bool,
    fixed: Option<&str>,
    class_map: Option<&str>,
) -> (r: Option<[u32; CLASS_COUNT]>)
    ensures
        match r {
            Some(widths) => enabled && static_widths(env::text_of(fixed), env::text_of(class_map))
                == Some(widths@),
            None => !enabled || (fixed is None && class_map is None),
        },
{
    if !enabled {
        return None;
    }
    parse_fixed_class_widths(fixed, class_map)
}

/// Whether the settings ask for static widths. With width control off there is
/// no width to fix.
pub fn fixed_widths_present_with(
    enabled: bool,
    fixed: Option<&str>,
    class_map: Option<&str>,
) -> (r: bool)
    ensures
        r == (enabled && (fixed is Some || class_map is Some)),
{
    enabled && parse_fixed_class_widths(fixed, class_map).is_some()
}

fn parse_width_range(chars: &Vec<char>, lo: usize, hi: usize) -> (r: Option<u32>)
    requires
        lo <= hi <= chars@.len(),
    ensures
        r == width_setting(chars@.subrange(lo as int, hi as int)),
{
    let range: (usize, usize) = text::trim_range(chars, lo, hi);
    match text::parse_unsigned(chars, range.0, range.1, u32::MAX as u64) {
        Some(width) => Some((width as u32).min(MAX_STATIC_WIDTH)),
        None => None,
    }
}

pub fn parse_width(value: &str) -> (r: Option<u32>)
    ensures
        r == width_setting(value@),
{
    let chars: Vec<char> = text::chars_of(value);
    proof {
        assert(chars@.subrange(0, chars@.len() as int) =~= value@);
    }
    parse_width_range(&chars, 0, chars.len())
}

pub fn parse_fixed_class_widths(
    fixed: Option<&str>,
    class_map: Option<&str>,
) -> (r: Option<[u32; CLASS_COUNT]>)
    ensures
        match r {
            Some(widths) => static_widths(env::text_of(fixed), env::text_of(class_map)) == Some(
                widths@,
            ),
            None => static_widths(env::text_of(fixed), env::text_of(class_map)) is None,
        },
{
    if fixed.is_none() && class_map.is_none() {
        return None;
    }
    let value: u32 = match fixed {
        Some(fixed) => match parse_width(fixed) {
            Some(width) => width,
            None => 0,
        },
        None => 0,
    };
    let mut widths: [u32; CLASS_COUNT] = [value;CLASS_COUNT];
    widths[UNMANAGED_LOCK_ID as usize] = 0;
    proof {
        assert(widths@ =~= Seq::new(
            CLASS_COUNT as nat,
            |class: int| if class == UNMANAGED_LOCK_ID { 0 } else { value },
        ));
    }
    if let Some(class_map) = class_map {
        apply_class_map(&mut widths, class_map);
    }
    Some(widths)
}

/// The entry that the range `lo..hi` holds.
fn parse_entry(chars: &Vec<char>, lo: usize, hi: usize) -> (r: Option<(u32, u32)>)
    requires
        lo <= hi <= chars@.len(),
    ensures
        match r {
            Some((class, width)) => class_map_entry(chars@.subrange(lo as int, hi as int)) == Some(
                (class as int, width),
            ),
            None => class_map_entry(chars@.subrange(lo as int, hi as int)) is None,
        },
{
    let range: (usize, usize) = text::trim_range(chars, lo, hi);
    let ghost entry = chars@.subrange(range.0 as int, range.1 as int);
    let colon: usize = match text::find_char(chars, range.0, range.1, ':') {
        Some(colon) => colon,
        None => return None,
    };
    proof {
        let at = colon - range.0;
        assert(entry.subrange(0, at) =~= chars@.subrange(range.0 as int, colon as int));
        assert(entry.subrange(at + 1, entry.len() as int) =~= chars@.subrange(
            colon as int + 1,
            range.1 as int,
        ));
    }
    let name: (usize, usize) = text::trim_range(chars, range.0, colon);
    let class: u32 = match text::parse_unsigned(chars, name.0, name.1, u32::MAX as u64) {
        Some(class) => class as u32,
        None => return None,
    };
    let width: u32 = match parse_width_range(chars, colon + 1, range.1) {
        Some(width) => width,
        None => return None,
    };
    if class == UNMANAGED_LOCK_ID || class >= MAX_LOCK_CLASSES {
        return None;
    }
    Some((class, width))
}

/// Applies the entries `class:width`, separated by commas, over `widths`.
pub fn apply_class_map(widths: &mut [u32; CLASS_COUNT], spec: &str)
    ensures
        final(widths)@ == with_entries(old(widths)@, text::split(spec@, ',')),
{
    let chars: Vec<char> = text::chars_of(spec);
    proof {
        assert(chars@.subrange(0, chars@.len() as int) =~= spec@);
    }
    let ranges: Vec<(usize, usize)> = text::split_ranges(&chars, 0, chars.len(), ',');
    let ghost pieces = text::split(spec@, ',');
    let mut k: usize = 0;
    while k < ranges.len()
        invariant
            k <= ranges@.len(),
            ranges@.len() == pieces.len(),
            forall|j: int|
                0 <= j < ranges@.len() ==> (#[trigger] ranges@[j]).0 <= ranges@[j].1
                    <= chars@.len() && chars@.subrange(ranges@[j].0 as int, ranges@[j].1 as int)
                    == pieces[j],
            widths@ == with_entries(old(widths)@, pieces.take(k as int)),
        decreases ranges@.len() - k,
    {
        let range: (usize, usize) = ranges[k];
        proof {
            assert(pieces.take(k as int + 1).drop_last() =~= pieces.take(k as int));
            assert(pieces.take(k as int + 1).last() == pieces[k as int]);
        }
        if let Some((class, width)) = parse_entry(&chars, range.0, range.1) {
            widths[class as usize] = width;
        }
        k += 1;
    }
    proof {
        assert(pieces.take(ranges@.len() as int) =~= pieces);
    }
}

pub open spec fn tick_window_setting(value: Option<Seq<char>>) -> int {
    match env::number_setting(value, u64::MAX as int) {
        Some(window) => if window > 0 {
            window
        } else {
            DEFAULT_TICK_WINDOW_NS as int
        },
        None => DEFAULT_TICK_WINDOW_NS as int,
    }
}

pub fn parse_tick_window_ns(value: Option<&str>) -> (r: u64)
    ensures
        r == tick_window_setting(env::text_of(value)),
{
    let window: Option<u64> = match value {
        Some(value) => env::number(value, u64::MAX),
        None => None,
    };
    match window {
        Some(window) => if window > 0 {
            window
        } else {
            DEFAULT_TICK_WINDOW_NS
        },
        None => DEFAULT_TICK_WINDOW_NS,
    }
}

/// The loop runs closed only with the feature on and no static width: a fixed
/// width runs open loop.
pub fn controller_active_with(enabled: bool, fixed_widths_present: bool) -> (r: bool)
    ensures
        r == (enabled && !fixed_widths_present),
{
    enabled && !fixed_widths_present
}

/// CPUs the process may run on, never less than one.
pub fn cpu_budget(affinity_cpus: u32) -> (r: u32)
    ensures
        r == if affinity_cpus == 0 {
            1
        } else {
            affinity_cpus
        },
{
    affinity_cpus.max(1)
}

pub open spec fn cap(width_max: u32) -> u32 {
    if width_max == 0 {
        1
    } else {
        width_max
    }
}

/// The floor that the hard cap leaves: at least 1, and never above the cap.
pub open spec fn floor_under(min_width: u32, width_max: u32) -> u32 {
    if min_width < 1 {
        1
    } else if min_width > cap(width_max) {
        cap(width_max)
    } else {
        min_width
    }
}

pub fn clamped_min_width(min_width: u32, width_max: u32) -> (r: u32)
    ensures
        r == floor_under(min_width, width_max),
        1 <= r <= cap(width_max),
{
    min_width.max(1).min(width_max.max(1))
}

/// What the feedback loop is configured with.
#[derive(Clone, Copy)]
pub struct TickConfig {
    pub width_max: u32,
    pub min_width: u32,
    pub budget: u32,
    pub holdoff_windows: u32,
    pub deadzone: u32,
}

/// Resolves the settings of the loop. `affinity_cpus` counts the CPUs that the
/// process may run on.
pub fn tick_config(
    affinity_cpus: u32,
    width_max: Option<&str>,
    min_width: Option<&str>,
    holdoff_windows: Option<&str>,
    deadzone: Option<&str>,
) -> (r: TickConfig)
    ensures
        r.budget == (if affinity_cpus == 0 {
            1
        } else {
            affinity_cpus
        }),
        r.width_max == env::clamped_setting(
            env::text_of(width_max),
            r.budget,
            1,
            MAX_STATIC_WIDTH,
        ),
        r.min_width == floor_under(
            env::clamped_setting(env::text_of(min_width), DEFAULT_MIN_WIDTH, 1, MAX_STATIC_WIDTH),
            r.width_max,
        ),
        r.holdoff_windows == env::clamped_setting(
            env::text_of(holdoff_windows),
            DEFAULT_HOLDOFF_WINDOWS,
            0,
            MAX_HOLDOFF_WINDOWS,
        ),
        r.deadzone == env::clamped_setting(
            env::text_of(deadzone),
            DEFAULT_DEADZONE,
            0,
            MAX_STATIC_WIDTH,
        ),
{
    let budget: u32 = cpu_budget(affinity_cpus);
    let width_max: u32 = env::env_u32_clamped(width_max, budget, 1, MAX_STATIC_WIDTH);
    let floor: u32 = env::env_u32_clamped(min_width, DEFAULT_MIN_WIDTH, 1, MAX_STATIC_WIDTH);
    TickConfig {
        width_max,
        min_width: clamped_min_width(floor, width_max),
        budget,
        holdoff_windows: env::env_u32_clamped(
            holdoff_windows,
            DEFAULT_HOLDOFF_WINDOWS,
            0,
            MAX_HOLDOFF_WINDOWS,
        ),
        deadzone: env::env_u32_clamped(deadzone, DEFAULT_DEADZONE, 0, MAX_STATIC_WIDTH),
    }
}

// CPU lists.
/// CPUs that an entry `cpu` or `first-last` names. Entries that do not read as
/// numbers, or run backwards, name none.
pub open spec fn entry_cpus(entry: Seq<char>) -> int {
    let entry = text::trim(entry);
    let dash = text::find_from(entry, '-', 0);
    let (first, last) = if dash < entry.len() {
        (
            text::trim(entry.subrange(0, dash)),
            text::trim(entry.subrange(dash + 1, entry.len() as int)),
        )
    } else {
        (entry, entry)
    };
    match (text::unsigned(first, u32::MAX as int), text::unsigned(last, u32::MAX as int)) {
        (Some(first), Some(last)) => if first <= last {
            last - first + 1
        } else {
            0
        },
        _ => 0,
    }
}

pub open spec fn cpus_listed(entries: Seq<Seq<char>>) -> int
    decreases entries.len(),
{
    if entries.len() == 0 {
        0
    } else {
        cpus_listed(entries.drop_last()) + entry_cpus(entries.last())
    }
}

/// CPUs that a CPU list such as `0,2-6,8` names, each entry counted on its own.
pub open spec fn cpulist_len(spec: Seq<char>) -> int {
    cpus_listed(text::split(text::trim(spec), ','))
}

fn count_entry(chars: &Vec<char>, lo: usize, hi: usize) -> (r: u64)
    requires
        lo <= hi <= chars@.len(),
    ensures
        r == entry_cpus(chars@.subrange(lo as int, hi as int)),
        r <= u32::MAX + 1,
{
    let range: (usize, usize) = text::trim_range(chars, lo, hi);
    let ghost entry = chars@.subrange(range.0 as int, range.1 as int);
    let (first, last): ((usize, usize), (usize, usize)) = match text::find_char(
        chars,
        range.0,
        range.1,
        '-',
    ) {
        Some(dash) => {
            proof {
                let at = dash - range.0;
                assert(entry.subrange(0, at) =~= chars@.subrange(range.0 as int, dash as int));
                assert(entry.subrange(at + 1, entry.len() as int) =~= chars@.subrange(
                    dash as int + 1,
                    range.1 as int,
                ));
            }
            (text::trim_range(chars, range.0, dash), text::trim_range(chars, dash + 1, range.1))
        },
        None => (range, range),
    };
    let first: Option<u64> = text::parse_unsigned(chars, first.0, first.1, u32::MAX as u64);
    let last: Option<u64> = text::parse_unsigned(chars, last.0, last.1, u32::MAX as u64);
    match (first, last) {
        (Some(first), Some(last)) => if first <= last {
            last - first + 1
        } else {
            0
        },
        _ => 0,
    }
}

proof fn lemma_cpus_listed_grow(entries: Seq<Seq<char>>, k: int)
    requires
        0 <= k <= entries.len(),
    ensures
        0 <= cpus_listed(entries.take(k)) <= cpus_listed(entries),
    decreases entries.len() - k,
{
    lemma_cpus_listed_nonneg(entries.take(k));
    if k < entries.len() {
        lemma_cpus_listed_grow(entries, k + 1);
        assert(entries.take(k + 1).drop_last() =~= entries.take(k));
    } else {
        assert(entries.take(k) =~= entries);
    }
}

proof fn lemma_cpus_listed_nonneg(entries: Seq<Seq<char>>)
    ensures
        0 <= cpus_listed(entries),
    decreases entries.len(),
{
    if entries.len() > 0 {
        lemma_cpus_listed_nonneg(entries.drop_last());
    }
}

/// The CPUs of a CPU list, or `None` where they do not fit the count.
pub fn checked_count_cpulist(spec: &str) -> (r: Option<u32>)
    ensures
        match r {
            Some(count) => count == cpulist_len(spec@),
            None => cpulist_len(spec@) > u32::MAX,
        },
{
    let chars: Vec<char> = text::chars_of(spec);
    let range: (usize, usize) = text::trim_range(&chars, 0, chars.len());
    proof {
        assert(chars@.subrange(0, chars@.len() as int) =~= spec@);
    }
    let ranges: Vec<(usize, usize)> = text::split_ranges(&chars, range.0, range.1, ',');
    let ghost pieces = text::split(text::trim(spec@), ',');
    let mut count: u32 = 0;
    let mut k: usize = 0;
    while k < ranges.len()
        invariant
            k <= ranges@.len(),
            ranges@.len() == pieces.len(),
            pieces == text::split(text::trim(spec@), ','),
            forall|j: int|
                0 <= j < ranges@.len() ==> (#[trigger] ranges@[j]).0 <= ranges@[j].1
                    <= chars@.len() && chars@.subrange(ranges@[j].0 as int, ranges@[j].1 as int)
                    == pieces[j],
            count == cpus_listed(pieces.take(k as int)),
        decreases ranges@.len() - k,
    {
        let range: (usize, usize) = ranges[k];
        let cpus: u64 = count_entry(&chars, range.0, range.1);
        proof {
            assert(pieces.take(k as int + 1).drop_last() =~= pieces.take(k as int));
            lemma_cpus_listed_grow(pieces, k as int + 1);
        }
        let next: u64 = count as u64 + cpus;
        if next > u32::MAX as u64 {
            return None;
        }
        count = next as u32;
        k += 1;
    }
    proof {
        assert(pieces.take(ranges@.len() as int) =~= pieces);
    }
    Some(count)
}

/// Counts the CPUs that a CPU list names.
pub fn count_cpulist(spec: &str) -> (r: u32)
    requires
        cpulist_len(spec@) <= u32::MAX,
    ensures
        r == cpulist_len(spec@),
{
    match checked_count_cpulist(spec) {
        Some(count) => count,
        None => 0,
    }
}

/// Serialization cost, in nanoseconds, that a measured hold time does not
/// contain: the lock line has to reach the next holder first.
pub const MULTICORE_CRITICAL_PENALTY_NS: u32 = 50;

pub const CROSS_NUMA_CRITICAL_PENALTY_NS: u32 = 200;

/// The penalty for the CPUs that the process may run on: none for one CPU, and
/// the larger one where they reach past the first NUMA node.
pub fn numa_critical_penalty_ns(budget: u32, first_node_cpus: Option<u32>) -> (r: u32)
    ensures
        r == if budget <= 1 {
            0
        } else if first_node_cpus matches Some(cpus) && 0 < cpus < budget {
            CROSS_NUMA_CRITICAL_PENALTY_NS
        } else {
            MULTICORE_CRITICAL_PENALTY_NS
        },
{
    if budget <= 1 {
        return 0;
    }
    match first_node_cpus {
        Some(first_node_cpus) => if first_node_cpus > 0 && budget > first_node_cpus {
            CROSS_NUMA_CRITICAL_PENALTY_NS
        } else {
            MULTICORE_CRITICAL_PENALTY_NS
        },
        None => MULTICORE_CRITICAL_PENALTY_NS,
    }
}

// One window of one class.
/// A class never needs more servers than it has holders plus waiters.
pub fn bound_seed_by_occupancy(seed: u32, peak: u32, depth: u32) -> (r: u32)
    ensures
        r == occupancy_bound(seed, peak, depth),
{
    seed.min(peak.saturating_add(depth).max(1))
}

pub open spec fn occupancy_bound(seed: u32, peak: u32, depth: u32) -> u32 {
    let occupancy = if peak == 0 && depth == 0 {
        1
    } else {
        peak + depth
    };
    if seed <= occupancy {
        seed
    } else {
        occupancy as u32
    }
}

pub open spec fn settled_seed(current: u32, fresh: u32, deadzone: u32) -> u32 {
    if current == 0 || fresh > current + deadzone || fresh < current - deadzone {
        fresh
    } else {
        current
    }
}

/// The stored seed moves only once a fresh one leaves its dead zone.
pub fn settle_seed(current: u32, fresh: u32, deadzone: u32) -> (r: u32)
    ensures
        r == settled_seed(current, fresh, deadzone),
{
    let distance: u32 = if fresh >= current {
        fresh - current
    } else {
        current - fresh
    };
    if current == 0 || distance > deadzone {
        fresh
    } else {
        current
    }
}

/// The direction that a window's signals ask a width to move in.
pub open spec fn vote_of(enforced: u32, seed: u32, peak: u32, depth: u32, deadzone: u32) -> int {
    if enforced == 0 || seed == 0 {
        0
    } else if depth == 0 && peak.saturating_add(deadzone).saturating_add(1) <= enforced {
        -1
    } else if depth > 0 && peak >= enforced && seed > enforced + deadzone {
        1
    } else if depth == 0 && enforced > seed + deadzone {
        -1
    } else {
        0
    }
}

/// `enforced` is the width in force over the window that the signals describe.
/// Growth needs occupancy evidence and model headroom; a waiter that was denied
/// admission vetoes every shrink.
pub fn width_vote(enforced: u32, seed: u32, peak: u32, depth: u32, deadzone: u32) -> (r: i32)
    ensures
        r == vote_of(enforced, seed, peak, depth, deadzone),
        depth > 0 ==> r >= 0,
        r > 0 ==> peak >= enforced && depth > 0 && seed > enforced + deadzone,
{
    if enforced == 0 || seed == 0 {
        return 0;
    }
    let queued: bool = depth > 0;
    if !queued && peak.saturating_add(deadzone).saturating_add(1) <= enforced {
        return -1;
    }
    let saturated: bool = peak >= enforced && queued;
    if saturated && seed > enforced.saturating_add(deadzone) {
        return 1;
    }
    if !queued && enforced > seed.saturating_add(deadzone) {
        -1
    } else {
        0
    }
}

/// A width may move only once it has been in force for `holdoff_windows` ticks
/// and the class has contributed a full window of evidence under it.
pub fn step_allowed(
    acquires_since_change: u64,
    ticks_since_change: u32,
    holdoff_windows: u32,
) -> (r: bool)
    ensures
        r == (ticks_since_change >= holdoff_windows && acquires_since_change
            >= MIN_ACQUIRES_PER_DECISION),
{
    ticks_since_change >= holdoff_windows && acquires_since_change >= MIN_ACQUIRES_PER_DECISION
}

/// Running agreement between consecutive windows.
#[derive(Clone, Copy, Debug, PartialEq, Eq, Structural)]
pub struct StepVote {
    pub direction: i32,
    pub windows: u32,
}

pub open spec fn no_vote() -> StepVote {
    StepVote { direction: 0, windows: 0 }
}

impl Default for StepVote {
    fn default() -> (r: Self)
        ensures
            r == no_vote(),
    {
        StepVote { direction: 0, windows: 0 }
    }
}

/// The tally after one more window, and the step that it confirms.
pub open spec fn confirmed(vote: StepVote, direction: i32, confirm_windows: u32) -> (
    StepVote,
    i32,
) {
    let windows = if vote.direction == direction {
        vote.windows.saturating_add(1)
    } else {
        1
    };
    if direction == 0 {
        (no_vote(), 0)
    } else if windows >= confirm_windows {
        (no_vote(), direction)
    } else {
        (StepVote { direction, windows }, 0)
    }
}

/// A direction must repeat over `confirm_windows` consecutive windows before it
/// is applied.
pub fn confirm_step(vote: &mut StepVote, direction: i32, confirm_windows: u32) -> (r: i32)
    ensures
        (*final(vote), r) == confirmed(*old(vote), direction, confirm_windows),
{
    if direction == 0 {
        *vote = StepVote::default();
        return 0;
    }
    if vote.direction == direction {
        vote.windows = vote.windows.saturating_add(1);
    } else {
        *vote = StepVote { direction, windows: 1 };
    }
    if vote.windows >= confirm_windows.max(1) {
        *vote = StepVote::default();
        direction
    } else {
        0
    }
}

pub open spec fn floored(width: u32, min_width: u32, width_max: u32) -> u32 {
    if width < floor_under(min_width, width_max) {
        floor_under(min_width, width_max)
    } else if width > cap(width_max) {
        cap(width_max)
    } else {
        width
    }
}

/// Confines a width to the range the loop may commit and publish. It never
/// reaches 0, which reads as unlimited.
pub fn floored_width(width: u32, min_width: u32, width_max: u32) -> (r: u32)
    ensures
        r == floored(width, min_width, width_max),
        floor_under(min_width, width_max) <= r <= cap(width_max),
        r >= 1,
{
    width.max(clamped_min_width(min_width, width_max)).min(width_max.max(1))
}

pub open spec fn stepped(width: u32, step: int, min_width: u32, width_max: u32) -> u32 {
    let next = if step > 0 {
        width.saturating_add(1)
    } else if step < 0 {
        width.saturating_sub(1)
    } else {
        width
    };
    floored(next, min_width, width_max)
}

pub fn stepped_width(width: u32, step: i32, min_width: u32, width_max: u32) -> (r: u32)
    ensures
        r == stepped(width, step as int, min_width, width_max),
{
    let next: u32 = if step > 0 {
        width.saturating_add(1)
    } else if step < 0 {
        width.saturating_sub(1)
    } else {
        width
    };
    floored_width(next, min_width, width_max)
}

pub open spec fn demand_of(
    width: u32,
    peak: u32,
    depth: u32,
    min_width: u32,
    width_max: u32,
) -> u32 {
    if peak == 0 && depth == 0 {
        0
    } else {
        floored(
            if width <= peak + depth {
                width
            } else {
                (peak + depth) as u32
            },
            min_width,
            width_max,
        )
    }
}

/// CPUs that a class can put to work this window. A window with neither a
/// holder nor a waiter asks for nothing.
pub fn class_demand(width: u32, peak: u32, depth: u32, min_width: u32, width_max: u32) -> (r: u32)
    ensures
        r == demand_of(width, peak, depth, min_width, width_max),
{
    let occupancy: u32 = peak.saturating_add(depth);
    if occupancy == 0 {
        return 0;
    }
    floored_width(width.min(occupancy), min_width, width_max)
}

// Sharing the CPUs among the classes.
pub open spec fn sum(values: Seq<u32>) -> int
    decreases values.len(),
{
    if values.len() == 0 {
        0
    } else {
        sum(values.drop_last()) + values.last()
    }
}

/// What the classes with demand among the first `n` hold together.
pub open spec fn granted_to(shares: Seq<u32>, demands: Seq<u32>, n: int) -> int
    decreases n,
{
    if n <= 0 {
        0
    } else {
        granted_to(shares, demands, n - 1) + if demands[n - 1] == 0 {
            0
        } else {
            shares[n - 1] as int
        }
    }
}

/// The proportional share of a demand, never below the floor.
pub open spec fn scaled_share(demand: u32, budget: int, total: int, floor: int) -> int {
    let scaled = demand as int * budget / total;
    if scaled < floor {
        floor
    } else {
        scaled
    }
}

pub open spec fn scaled_shares(
    widths: Seq<u32>,
    demands: Seq<u32>,
    budget: int,
    floor: int,
) -> Seq<u32> {
    Seq::new(
        widths.len(),
        |class: int|
            if demands[class] == 0 {
                widths[class]
            } else {
                scaled_share(demands[class], budget, sum(demands), floor) as u32
            },
    )
}

/// The class among the first `n` that is furthest below its demand, the first
/// one where several are.
pub open spec fn neediest(shares: Seq<u32>, demands: Seq<u32>, n: int) -> Option<int>
    decreases n,
{
    if n <= 0 {
        None
    } else {
        let class = n - 1;
        match neediest(shares, demands, n - 1) {
            Some(best) => if demands[class] - shares[class] > demands[best] - shares[best] {
                Some(class)
            } else {
                Some(best)
            },
            None => if demands[class] > shares[class] {
                Some(class)
            } else {
                None
            },
        }
    }
}

/// `shares` after `left` further CPUs went, one by one, to the neediest class.
pub open spec fn topped_up(shares: Seq<u32>, demands: Seq<u32>, left: int) -> Seq<u32>
    decreases left,
{
    if left <= 0 {
        shares
    } else {
        match neediest(shares, demands, shares.len() as int) {
            Some(class) => topped_up(
                shares.update(class, (shares[class] + 1) as u32),
                demands,
                left - 1,
            ),
            None => shares,
        }
    }
}

/// The widths that are published: the committed ones while the demand fits the
/// budget, and otherwise the proportional shares with what rounding left over
/// handed out.
pub open spec fn arbitrated(
    widths: Seq<u32>,
    demands: Seq<u32>,
    budget: u32,
    min_width: u32,
) -> Seq<u32> {
    let budget = cap(budget) as int;
    if sum(demands) <= budget {
        widths
    } else {
        let scaled = scaled_shares(widths, demands, budget, cap(min_width) as int);
        topped_up(scaled, demands, budget - granted_to(scaled, demands, scaled.len() as int))
    }
}

proof fn lemma_sum_bound(values: Seq<u32>)
    ensures
        0 <= sum(values) <= values.len() * u32::MAX,
    decreases values.len(),
{
    if values.len() > 0 {
        lemma_sum_bound(values.drop_last());
    }
}

proof fn lemma_scaled_share(demand: u32, budget: int, total: int)
    requires
        0 <= budget <= total,
        total > 0,
    ensures
        0 <= demand as int * budget / total <= demand,
        0 <= demand as int * budget <= u32::MAX * budget,
{
    let d = demand as int;
    assert(0 <= d * budget <= d * total) by (nonlinear_arith)
        requires
            0 <= budget <= total,
            0 <= d,
    ;
    assert(d * budget <= u32::MAX * budget) by (nonlinear_arith)
        requires
            0 <= budget,
            d <= u32::MAX,
    ;
    vstd::arithmetic::div_mod::lemma_div_is_ordered(0, d * budget, total);
    vstd::arithmetic::div_mod::lemma_div_is_ordered(d * budget, d * total, total);
    vstd::arithmetic::div_mod::lemma_div_multiples_vanish(d, total);
    assert(d * total == total * d) by (nonlinear_arith);
}

proof fn lemma_neediest(shares: Seq<u32>, demands: Seq<u32>, n: int)
    requires
        0 <= n <= shares.len(),
        shares.len() == demands.len(),
    ensures
        match neediest(shares, demands, n) {
            Some(best) => {
                &&& 0 <= best < n
                &&& demands[best] > shares[best]
                &&& forall|i: int|
                    0 <= i < n ==> #[trigger] demands[i] - shares[i] <= demands[best] - shares[best]
            },
            None => forall|i: int| 0 <= i < n ==> #[trigger] demands[i] <= shares[i],
        },
    decreases n,
{
    if n > 0 {
        lemma_neediest(shares, demands, n - 1);
    }
}

proof fn lemma_granted_same(a: Seq<u32>, b: Seq<u32>, demands: Seq<u32>, n: int)
    requires
        0 <= n <= a.len(),
        a.len() == b.len() == demands.len(),
        forall|i: int| 0 <= i < n ==> a[i] == b[i],
    ensures
        granted_to(a, demands, n) == granted_to(b, demands, n),
    decreases n,
{
    if n > 0 {
        lemma_granted_same(a, b, demands, n - 1);
    }
}

proof fn lemma_granted_bump(shares: Seq<u32>, demands: Seq<u32>, class: int, n: int)
    requires
        0 <= class < shares.len(),
        0 <= n <= shares.len(),
        shares.len() == demands.len(),
        shares[class] < demands[class],
    ensures
        granted_to(shares.update(class, (shares[class] + 1) as u32), demands, n) == granted_to(
            shares,
            demands,
            n,
        ) + if class < n {
            1int
        } else {
            0
        },
    decreases n,
{
    if n > 0 {
        lemma_granted_bump(shares, demands, class, n - 1);
    }
}

proof fn lemma_granted_covers(shares: Seq<u32>, demands: Seq<u32>, n: int)
    requires
        0 <= n <= shares.len(),
        shares.len() == demands.len(),
        forall|i: int| 0 <= i < n ==> demands[i] <= shares[i],
    ensures
        granted_to(shares, demands, n) >= sum(demands.take(n)),
    decreases n,
{
    if n > 0 {
        lemma_granted_covers(shares, demands, n - 1);
        assert(demands.take(n).drop_last() =~= demands.take(n - 1));
    }
}

/// What is left to hand out is handed out in full, as long as some class is
/// still below its demand.
proof fn lemma_topped_up_total(shares: Seq<u32>, demands: Seq<u32>, left: int)
    requires
        shares.len() == demands.len(),
        left <= 0 || granted_to(shares, demands, shares.len() as int) + left < sum(demands),
    ensures
        granted_to(topped_up(shares, demands, left), demands, shares.len() as int) == granted_to(
            shares,
            demands,
            shares.len() as int,
        ) + if left > 0 {
            left
        } else {
            0
        },
    decreases left,
{
    let n = shares.len() as int;
    if left > 0 {
        lemma_neediest(shares, demands, n);
        match neediest(shares, demands, n) {
            Some(class) => {
                lemma_granted_bump(shares, demands, class, n);
                lemma_topped_up_total(
                    shares.update(class, (shares[class] + 1) as u32),
                    demands,
                    left - 1,
                );
            },
            None => {
                lemma_granted_covers(shares, demands, n);
                assert(demands.take(n) =~= demands);
            },
        }
    }
}

pub open spec fn share_within(share: u32, width: u32, demand: u32, floor: u32) -> bool {
    if demand == 0 {
        share == width
    } else {
        floor <= share && (share <= demand || share == floor)
    }
}

/// No class with less demand holds more.
pub open spec fn follows_demand(shares: Seq<u32>, demands: Seq<u32>) -> bool {
    forall|i: int, j: int|
        0 <= i < shares.len() && 0 <= j < shares.len() && demands[i] > demands[j] && demands[j] > 0
            ==> #[trigger] shares[i] >= #[trigger] shares[j]
}

proof fn lemma_topped_up_bounds(
    shares: Seq<u32>,
    widths: Seq<u32>,
    demands: Seq<u32>,
    floor: u32,
    left: int,
)
    requires
        shares.len() == demands.len() == widths.len(),
        forall|i: int|
            0 <= i < shares.len() ==> share_within(#[trigger] shares[i], widths[i], demands[i], floor),
        follows_demand(shares, demands),
    ensures
        topped_up(shares, demands, left).len() == shares.len(),
        forall|i: int|
            0 <= i < shares.len() ==> share_within(
                #[trigger] topped_up(shares, demands, left)[i],
                widths[i],
                demands[i],
                floor,
            ),
        follows_demand(topped_up(shares, demands, left), demands),
    decreases left,
{
    if left > 0 {
        lemma_neediest(shares, demands, shares.len() as int);
        match neediest(shares, demands, shares.len() as int) {
            Some(class) => {
                let next = shares.update(class, (shares[class] + 1) as u32);
                assert forall|i: int, j: int|
                    0 <= i < next.len() && 0 <= j < next.len() && demands[i] > demands[j]
                        && demands[j] > 0 implies #[trigger] next[i] >= #[trigger] next[j] by {
                    assert(shares[i] >= shares[j]);
                }
                assert forall|i: int| 0 <= i < next.len() implies share_within(
                    #[trigger] next[i],
                    widths[i],
                    demands[i],
                    floor,
                ) by {
                    assert(share_within(shares[i], widths[i], demands[i], floor));
                }
                lemma_topped_up_bounds(next, widths, demands, floor, left - 1);
            },
            None => {},
        }
    }
}

proof fn lemma_scaled_bounds(widths: Seq<u32>, demands: Seq<u32>, budget: int, floor: u32)
    requires
        widths.len() == demands.len(),
        0 < budget < sum(demands),
        floor > 0,
    ensures
        ({
            let scaled = scaled_shares(widths, demands, budget, floor as int);
            &&& forall|i: int|
                0 <= i < scaled.len() ==> share_within(
                    #[trigger] scaled[i],
                    widths[i],
                    demands[i],
                    floor,
                )
            &&& follows_demand(scaled, demands)
        }),
{
    let total = sum(demands);
    let scaled = scaled_shares(widths, demands, budget, floor as int);
    assert forall|i: int| 0 <= i < scaled.len() implies share_within(
        #[trigger] scaled[i],
        widths[i],
        demands[i],
        floor,
    ) by {
        lemma_scaled_share(demands[i], budget, total);
    }
    assert forall|i: int, j: int|
        0 <= i < scaled.len() && 0 <= j < scaled.len() && demands[i] > demands[j] && demands[j]
            > 0 implies #[trigger] scaled[i] >= #[trigger] scaled[j] by {
        let (a, b) = (demands[i] as int, demands[j] as int);
        lemma_scaled_share(demands[i], budget, total);
        lemma_scaled_share(demands[j], budget, total);
        assert(b * budget <= a * budget) by (nonlinear_arith)
            requires
                b <= a,
                0 <= budget,
        ;
        vstd::arithmetic::div_mod::lemma_div_is_ordered(b * budget, a * budget, total);
    }
}

/// Under scarcity the classes with demand hold the whole budget between them,
/// and more only where their proportional shares, lifted to the floor, already
/// came to more.
pub proof fn law_scarce_budget_is_handed_out(
    widths: Seq<u32>,
    demands: Seq<u32>,
    budget: u32,
    min_width: u32,
)
    requires
        widths.len() == demands.len(),
        sum(demands) > cap(budget),
    ensures
        ({
            let n = widths.len() as int;
            let scaled = scaled_shares(widths, demands, cap(budget) as int, cap(min_width) as int);
            let shares = arbitrated(widths, demands, budget, min_width);
            let first = granted_to(scaled, demands, n);
            granted_to(shares, demands, n) == if first < cap(budget) {
                cap(budget) as int
            } else {
                first
            }
        }),
{
    let scaled = scaled_shares(widths, demands, cap(budget) as int, cap(min_width) as int);
    let left = cap(budget) - granted_to(scaled, demands, widths.len() as int);
    lemma_topped_up_total(scaled, demands, left);
}

/// A class without demand keeps the width it committed. Under scarcity a class
/// with demand gets at least the floor and no more than it asked for, unless
/// the floor itself is more, and never less than a class that asked for less.
pub proof fn law_shares_respect_demand(
    widths: Seq<u32>,
    demands: Seq<u32>,
    budget: u32,
    min_width: u32,
)
    requires
        widths.len() == demands.len(),
    ensures
        ({
            let shares = arbitrated(widths, demands, budget, min_width);
            &&& shares.len() == widths.len()
            &&& forall|i: int|
                0 <= i < widths.len() && demands[i] == 0 ==> #[trigger] shares[i] == widths[i]
            &&& sum(demands) > cap(budget) ==> {
                &&& forall|i: int|
                    0 <= i < widths.len() ==> share_within(
                        #[trigger] shares[i],
                        widths[i],
                        demands[i],
                        cap(min_width),
                    )
                &&& follows_demand(shares, demands)
            }
        }),
{
    let b = cap(budget) as int;
    if sum(demands) > b {
        let scaled = scaled_shares(widths, demands, b, cap(min_width) as int);
        lemma_scaled_bounds(widths, demands, b, cap(min_width));
        lemma_topped_up_bounds(
            scaled,
            widths,
            demands,
            cap(min_width),
            b - granted_to(scaled, demands, scaled.len() as int),
        );
        let shares = arbitrated(widths, demands, budget, min_width);
        assert forall|i: int| 0 <= i < widths.len() && demands[i] == 0 implies #[trigger] shares[i]
            == widths[i] by {
            assert(share_within(shares[i], widths[i], demands[i], cap(min_width)));
        }
    }
}

fn sum_of(values: &[u32; CLASS_COUNT]) -> (r: u64)
    ensures
        r == sum(values@),
{
    let mut total: u64 = 0;
    let mut class: usize = 0;
    while class < CLASS_COUNT
        invariant
            class <= CLASS_COUNT,
            total == sum(values@.take(class as int)),
            total <= class * u32::MAX,
        decreases CLASS_COUNT - class,
    {
        proof {
            assert(values@.take(class as int + 1).drop_last() =~= values@.take(class as int));
        }
        total += values[class] as u64;
        class += 1;
    }
    proof {
        assert(values@.take(CLASS_COUNT as int) =~= values@);
    }
    total
}

/// The class furthest below its demand.
fn neediest_class(shares: &[u32; CLASS_COUNT], demands: &[u32; CLASS_COUNT]) -> (r: Option<usize>)
    ensures
        match r {
            Some(class) => class < CLASS_COUNT && neediest(shares@, demands@, CLASS_COUNT as int)
                == Some(class as int),
            None => neediest(shares@, demands@, CLASS_COUNT as int) is None,
        },
{
    let mut best_class: Option<usize> = None;
    let mut best_deficit: u32 = 0;
    let mut class: usize = 0;
    while class < CLASS_COUNT
        invariant
            class <= CLASS_COUNT,
            match best_class {
                Some(best) => {
                    &&& best < class
                    &&& neediest(shares@, demands@, class as int) == Some(best as int)
                    &&& best_deficit == demands@[best as int] - shares@[best as int]
                    &&& best_deficit > 0
                },
                None => best_deficit == 0 && neediest(shares@, demands@, class as int) is None,
            },
        decreases CLASS_COUNT - class,
    {
        if demands[class] > shares[class] {
            let deficit: u32 = demands[class] - shares[class];
            if deficit > best_deficit {
                best_deficit = deficit;
                best_class = Some(class);
            }
        }
        class += 1;
    }
    best_class
}

/// Splits `budget` CPUs across the classes that asked for width. A demand of 0
/// is a class with neither a holder nor a waiter this window.
pub fn arbitrate_budget(
    widths: &[u32; CLASS_COUNT],
    demands: &[u32; CLASS_COUNT],
    budget: u32,
    min_width: u32,
) -> (r: [u32; CLASS_COUNT])
    ensures
        r@ == arbitrated(widths@, demands@, budget, min_width),
{
    let total: u64 = sum_of(demands);
    let cpus: u64 = budget.max(1) as u64;
    if total <= cpus {
        return *widths;
    }
    let floor: u64 = min_width.max(1) as u64;
    let ghost scaled_all = scaled_shares(widths@, demands@, cpus as int, floor as int);
    let mut shares: [u32; CLASS_COUNT] = *widths;
    let mut granted: u64 = 0;
    let mut class: usize = 0;
    while class < CLASS_COUNT
        invariant
            class <= CLASS_COUNT,
            total == sum(demands@),
            0 < cpus < total,
            cpus <= u32::MAX,
            0 < floor <= u32::MAX,
            scaled_all == scaled_shares(widths@, demands@, cpus as int, floor as int),
            forall|i: int| 0 <= i < class ==> shares@[i] == scaled_all[i],
            forall|i: int| class <= i < CLASS_COUNT ==> shares@[i] == widths@[i],
            granted == granted_to(shares@, demands@, class as int),
            granted <= class * u32::MAX,
        decreases CLASS_COUNT - class,
    {
        let ghost before = shares@;
        let demand: u32 = demands[class];
        if demand != 0 {
            proof {
                lemma_scaled_share(demand, cpus as int, total as int);
                assert(u32::MAX * cpus <= u64::MAX) by (nonlinear_arith)
                    requires
                        cpus <= u32::MAX,
                ;
            }
            let scaled: u64 = (demand as u64 * cpus / total).max(floor);
            shares[class] = scaled as u32;
            granted += scaled;
        }
        proof {
            lemma_granted_same(before, shares@, demands@, class as int);
        }
        class += 1;
    }
    proof {
        assert(shares@ =~= scaled_all);
    }
    while granted < cpus
        invariant
            cpus == cap(budget),
            floor == cap(min_width),
            sum(demands@) > cpus,
            scaled_all == scaled_shares(widths@, demands@, cpus as int, floor as int),
            topped_up(shares@, demands@, cpus - granted) == topped_up(
                scaled_all,
                demands@,
                cpus - granted_to(scaled_all, demands@, CLASS_COUNT as int),
            ),
        decreases cpus - granted,
    {
        let class: usize = match neediest_class(&shares, demands) {
            Some(class) => class,
            None => {
                return shares;
            },
        };
        proof {
            lemma_neediest(shares@, demands@, CLASS_COUNT as int);
        }
        let share: u32 = shares[class];
        shares[class] = share + 1;
        granted += 1;
    }
    shares
}

// The controller of one class.
/// What the loop knows of a class. The two averages behind the seed are kept as
/// bit patterns.
#[derive(Clone, Copy)]
pub struct ClassController {
    pub cs_ewma_ns: Option<u64>,
    pub ncs_ewma_ns: Option<u64>,
    pub seed: u32,
    /// Width the loop converged on; 0 until the class is first seeded.
    pub width: u32,
    /// Width last published, which the next window's signals reflect.
    pub published: u32,
    pub ticks_since_change: u32,
    pub acquires_at_change: u64,
    pub vote: StepVote,
    pub changes: u32,
    /// Set once the class is merged away; the canonical class owns its width.
    pub absorbed: bool,
    pub history: [u32; WIDTH_HISTORY_LEN],
    pub history_len: usize,
    pub history_next: usize,
}

/// A class controller with the ring of recent widths in the order they were
/// committed.
pub struct ControllerView {
    pub cs_ewma_ns: Option<u64>,
    pub ncs_ewma_ns: Option<u64>,
    pub seed: u32,
    pub width: u32,
    pub published: u32,
    pub ticks_since_change: u32,
    pub acquires_at_change: u64,
    pub vote: StepVote,
    pub changes: u32,
    pub absorbed: bool,
    pub history: Seq<u32>,
}

/// The most recent of the widths committed so far.
pub open spec fn recent(widths: Seq<u32>) -> Seq<u32> {
    if widths.len() > WIDTH_HISTORY_LEN {
        widths.subrange(widths.len() - WIDTH_HISTORY_LEN, widths.len() as int)
    } else {
        widths
    }
}

pub open spec fn fresh_controller() -> ControllerView {
    ControllerView {
        cs_ewma_ns: None,
        ncs_ewma_ns: None,
        seed: 0,
        width: 0,
        published: 0,
        ticks_since_change: 0,
        acquires_at_change: 0,
        vote: no_vote(),
        changes: 0,
        absorbed: false,
        history: Seq::empty(),
    }
}

impl ControllerView {
    pub open spec fn committed(self, width: u32, acquires: u64) -> ControllerView {
        ControllerView {
            width,
            ticks_since_change: 0,
            acquires_at_change: acquires,
            vote: no_vote(),
            changes: self.changes.saturating_add(1),
            history: recent(self.history.push(width)),
            ..self
        }
    }

    /// This class after `other` was merged into it.
    pub open spec fn with_absorbed(self, other: ControllerView, acquires: u64) -> ControllerView {
        ControllerView {
            cs_ewma_ns: if self.cs_ewma_ns is Some {
                self.cs_ewma_ns
            } else {
                other.cs_ewma_ns
            },
            ncs_ewma_ns: if self.ncs_ewma_ns is Some {
                self.ncs_ewma_ns
            } else {
                other.ncs_ewma_ns
            },
            seed: if self.seed >= other.seed {
                self.seed
            } else {
                other.seed
            },
            width: if other.width > self.width {
                other.width
            } else {
                self.width
            },
            ticks_since_change: 0,
            acquires_at_change: acquires,
            ..self
        }
    }
}

impl View for ClassController {
    type V = ControllerView;

    open spec fn view(&self) -> ControllerView {
        ControllerView {
            cs_ewma_ns: self.cs_ewma_ns,
            ncs_ewma_ns: self.ncs_ewma_ns,
            seed: self.seed,
            width: self.width,
            published: self.published,
            ticks_since_change: self.ticks_since_change,
            acquires_at_change: self.acquires_at_change,
            vote: self.vote,
            changes: self.changes,
            absorbed: self.absorbed,
            history: Seq::new(
                self.history_len as nat,
                |k: int|
                    self.history@[(self.history_next + WIDTH_HISTORY_LEN - self.history_len + k)
                        % (WIDTH_HISTORY_LEN as int)],
            ),
        }
    }
}

impl ClassController {
    pub open spec fn wf(self) -> bool {
        &&& self.history_len <= WIDTH_HISTORY_LEN
        &&& self.history_next < WIDTH_HISTORY_LEN
        &&& self.history_len < WIDTH_HISTORY_LEN ==> self.history_next == self.history_len
    }

    pub fn new() -> (r: Self)
        ensures
            r.wf(),
            r@ == fresh_controller(),
    {
        let r: ClassController = ClassController {
            cs_ewma_ns: None,
            ncs_ewma_ns: None,
            seed: 0,
            width: 0,
            published: 0,
            ticks_since_change: 0,
            acquires_at_change: 0,
            vote: StepVote { direction: 0, windows: 0 },
            changes: 0,
            absorbed: false,
            history: [0;WIDTH_HISTORY_LEN],
            history_len: 0,
            history_next: 0,
        };
        assert(r@.history =~= Seq::empty());
        r
    }

    /// Commits the width a class enters the loop at: the floor. What lies above
    /// it is earned through the growth path.
    pub fn commit_initial_width(&mut self, min_width: u32, width_max: u32, acquires: u64)
        requires
            old(self).wf(),
        ensures
            final(self).wf(),
            final(self)@ == old(self)@.committed(floor_under(min_width, width_max), acquires),
    {
        self.commit_width(clamped_min_width(min_width, width_max), acquires);
    }

    pub fn commit_width(&mut self, width: u32, acquires: u64)
        requires
            old(self).wf(),
        ensures
            final(self).wf(),
            final(self)@ == old(self)@.committed(width, acquires),
    {
        self.width = width;
        self.ticks_since_change = 0;
        self.acquires_at_change = acquires;
        self.vote = StepVote::default();
        self.changes = self.changes.saturating_add(1);
        self.history[self.history_next] = width;
        self.history_next = (self.history_next + 1) % WIDTH_HISTORY_LEN;
        if self.history_len < WIDTH_HISTORY_LEN {
            self.history_len += 1;
        }
        proof {
            let want = old(self)@.committed(width, acquires).history;
            assert(self@.history.len() == want.len());
            assert forall|k: int| 0 <= k < want.len() implies self@.history[k] == want[k] by {
                let from = (old(self).history_next + WIDTH_HISTORY_LEN - old(self).history_len) as int;
                let to = (self.history_next + WIDTH_HISTORY_LEN - self.history_len) as int;
                if old(self).history_len < WIDTH_HISTORY_LEN {
                    assert((to + k) % 8 == k);
                    if k < old(self).history_len {
                        assert((from + k) % 8 == k);
                    }
                } else if k < WIDTH_HISTORY_LEN - 1 {
                    assert((to + k) % 8 == (from + k + 1) % 8);
                    assert((from + k + 1) % 8 != old(self).history_next);
                } else {
                    assert((to + k) % 8 == old(self).history_next);
                }
            }
            assert(self@.history =~= want);
        }
    }

    /// The recent widths, oldest first.
    pub fn history(&self) -> (r: Vec<u32>)
        requires
            self.wf(),
        ensures
            r@ == self@.history,
    {
        let start: usize = (self.history_next + WIDTH_HISTORY_LEN - self.history_len)
            % WIDTH_HISTORY_LEN;
        let mut widths: Vec<u32> = Vec::new();
        let mut offset: usize = 0;
        while offset < self.history_len
            invariant
                self.wf(),
                offset <= self.history_len,
                start == (self.history_next + WIDTH_HISTORY_LEN - self.history_len) % (
                WIDTH_HISTORY_LEN as int),
                widths@ == self@.history.take(offset as int),
            decreases self.history_len - offset,
        {
            proof {
                let base = self.history_next + WIDTH_HISTORY_LEN - self.history_len;
                assert((start + offset) % 8 == (base + offset) % 8);
                assert(self@.history.take(offset as int + 1) =~= self@.history.take(
                    offset as int,
                ).push(self@.history[offset as int]));
            }
            widths.push(self.history[(start + offset) % WIDTH_HISTORY_LEN]);
            offset += 1;
        }
        proof {
            assert(self@.history.take(self.history_len as int) =~= self@.history);
        }
        widths
    }

    /// Takes over the state of a class merged into this one. The wider of the
    /// two widths is kept: this class now serves both waiter populations.
    pub fn absorb(&mut self, other: &ClassController, acquires: u64)
        requires
            old(self).wf(),
        ensures
            final(self).wf(),
            final(self)@ == old(self)@.with_absorbed(other@, acquires),
    {
        if self.cs_ewma_ns.is_none() {
            self.cs_ewma_ns = other.cs_ewma_ns;
        }
        if self.ncs_ewma_ns.is_none() {
            self.ncs_ewma_ns = other.ncs_ewma_ns;
        }
        self.seed = self.seed.max(other.seed);
        if other.width > self.width {
            self.width = other.width;
        }
        self.ticks_since_change = 0;
        self.acquires_at_change = acquires;
        assert(self@.history =~= old(self)@.history);
    }
}

pub open spec fn views(classes: Seq<ClassController>) -> Seq<ControllerView> {
    Seq::new(classes.len(), |class: int| classes[class]@)
}

pub open spec fn all_wf(classes: Seq<ClassController>) -> bool {
    forall|class: int| 0 <= class < classes.len() ==> (#[trigger] classes[class]).wf()
}

pub fn new_classes() -> (r: [ClassController; CLASS_COUNT])
    ensures
        all_wf(r@),
        forall|class: int| 0 <= class < CLASS_COUNT ==> (#[trigger] r@[class])@
            == fresh_controller(),
{
    [ClassController::new();CLASS_COUNT]
}

// Merged classes.
/// Whether a class was renamed to another class that exists.
pub open spec fn renamed(class: int, canonical: Seq<usize>) -> bool {
    canonical[class] != class && canonical[class] != 0 && canonical[class] < canonical.len()
}

/// The classes once `class` is folded into the class it was renamed to.
pub open spec fn fold_class(
    classes: Seq<ControllerView>,
    canonical: Seq<usize>,
    acquires: Seq<u64>,
    class: int,
) -> Seq<ControllerView> {
    let target = canonical[class] as int;
    if !renamed(class, canonical) || classes[class].absorbed {
        classes
    } else {
        classes.update(
            class,
            ControllerView { absorbed: true, ..fresh_controller() },
        ).update(target, classes[target].with_absorbed(classes[class], acquires[target]))
    }
}

/// The classes once those below `n` are folded, in order.
pub open spec fn folded(
    classes: Seq<ControllerView>,
    canonical: Seq<usize>,
    acquires: Seq<u64>,
    n: int,
) -> Seq<ControllerView>
    decreases n,
{
    if n <= 1 {
        classes
    } else {
        fold_class(folded(classes, canonical, acquires, n - 1), canonical, acquires, n - 1)
    }
}

proof fn lemma_folded_absorbs(
    classes: Seq<ControllerView>,
    canonical: Seq<usize>,
    acquires: Seq<u64>,
    n: int,
)
    requires
        classes.len() == canonical.len() == acquires.len(),
        0 <= n <= classes.len(),
    ensures
        folded(classes, canonical, acquires, n).len() == classes.len(),
        forall|i: int|
            1 <= i < n && renamed(i, canonical) ==> (#[trigger] folded(
                classes,
                canonical,
                acquires,
                n,
            )[i]).absorbed,
    decreases n,
{
    if n > 1 {
        lemma_folded_absorbs(classes, canonical, acquires, n - 1);
    }
}

/// Where every class that was renamed is absorbed already, folding changes nothing,
/// whatever became of the classes since.
pub proof fn law_absorbed_classes_are_not_folded_again(
    classes: Seq<ControllerView>,
    canonical: Seq<usize>,
    acquires: Seq<u64>,
    n: int,
)
    requires
        classes.len() == canonical.len(),
        0 <= n <= classes.len(),
        forall|i: int|
            1 <= i < classes.len() && renamed(i, canonical) ==> (#[trigger] classes[i]).absorbed,
    ensures
        folded(classes, canonical, acquires, n) == classes,
    decreases n,
{
    if n > 1 {
        law_absorbed_classes_are_not_folded_again(classes, canonical, acquires, n - 1);
    }
}

/// Folding the same renames again changes nothing, whatever the acquire counts
/// have become.
pub proof fn law_folding_is_idempotent(
    classes: Seq<ControllerView>,
    canonical: Seq<usize>,
    acquires: Seq<u64>,
    later_acquires: Seq<u64>,
)
    requires
        classes.len() == canonical.len() == acquires.len(),
    ensures
        ({
            let n = classes.len() as int;
            let once = folded(classes, canonical, acquires, n);
            folded(once, canonical, later_acquires, n) == once
        }),
{
    let n = classes.len() as int;
    lemma_folded_absorbs(classes, canonical, acquires, n);
    law_absorbed_classes_are_not_folded_again(
        folded(classes, canonical, acquires, n),
        canonical,
        later_acquires,
        n,
    );
}

/// Folds every class that a merge renamed into its canonical class.
/// `canonical` holds the class that each class now goes by, `acquires` the
/// acquires each has contributed.
pub fn fold_merged_classes(
    classes: &mut [ClassController; CLASS_COUNT],
    canonical: &[usize; CLASS_COUNT],
    acquires: &[u64; CLASS_COUNT],
)
    requires
        all_wf(old(classes)@),
    ensures
        all_wf(final(classes)@),
        views(final(classes)@) == folded(
            views(old(classes)@),
            canonical@,
            acquires@,
            CLASS_COUNT as int,
        ),
{
    let ghost start = views(classes@);
    let mut class: usize = 1;
    while class < CLASS_COUNT
        invariant
            1 <= class <= CLASS_COUNT,
            all_wf(classes@),
            views(classes@) == folded(start, canonical@, acquires@, class as int),
        decreases CLASS_COUNT - class,
    {
        let ghost before = views(classes@);
        let target: usize = canonical[class];
        if target != class && target != 0 && target < CLASS_COUNT && !classes[class].absorbed {
            let merged: ClassController = classes[class];
            let mut emptied: ClassController = ClassController::new();
            emptied.absorbed = true;
            assert(emptied@.history =~= Seq::empty());
            classes[class] = emptied;
            let mut kept: ClassController = classes[target];
            kept.absorb(&merged, acquires[target]);
            classes[target] = kept;
            assert(views(classes@) =~= fold_class(before, canonical@, acquires@, class as int));
        }
        class += 1;
    }
}

// The per-class state shared with the scheduler.
/// The scheduler's per-class tables, each absent until it hands them over.
pub struct ClassState {
    pub class_width: Option<[u32; CLASS_COUNT]>,
    pub class_active: Option<[i32; CLASS_COUNT]>,
    pub class_active_peak: Option<[u32; CLASS_COUNT]>,
    pub class_inactive_depth: Option<[u32; CLASS_COUNT]>,
    pub class_inactive_depth_peak: Option<[u32; CLASS_COUNT]>,
    pub inactive_probe_span: Option<u32>,
}

/// The entry of a class, 0 where there is no table or no such class.
pub open spec fn entry_of(table: Option<[u32; CLASS_COUNT]>, class: int) -> u32 {
    match table {
        Some(table) => if 0 <= class < CLASS_COUNT {
            table@[class]
        } else {
            0
        },
        None => 0,
    }
}

/// `after` is `before` with the entry of `class` set to `value`.
pub open spec fn entry_set(
    before: Option<[u32; CLASS_COUNT]>,
    after: Option<[u32; CLASS_COUNT]>,
    class: int,
    value: u32,
) -> bool {
    match (before, after) {
        (Some(before), Some(after)) => after@ == if 0 <= class < CLASS_COUNT {
            before@.update(class, value)
        } else {
            before@
        },
        (None, None) => true,
        _ => false,
    }
}

impl ClassState {
    pub open spec fn active_of(self, class: int) -> u32 {
        match self.class_active {
            Some(table) => if 0 <= class < CLASS_COUNT && table@[class] > 0 {
                table@[class] as u32
            } else {
                0
            },
            None => 0,
        }
    }

    /// How full the class got over the window.
    pub open spec fn occupancy_of(self, class: int) -> u32 {
        level_of(entry_of(self.class_active_peak, class), self.active_of(class))
    }

    /// How deep the class queued over the window.
    pub open spec fn queue_depth_of(self, class: int) -> u32 {
        level_of(
            entry_of(self.class_inactive_depth_peak, class),
            entry_of(self.class_inactive_depth, class),
        )
    }

    /// State without any table.
    pub fn new() -> (r: Self)
        ensures
            r.class_width is None,
            r.class_active is None,
            r.class_active_peak is None,
            r.class_inactive_depth is None,
            r.class_inactive_depth_peak is None,
            r.inactive_probe_span is None,
    {
        ClassState {
            class_width: None,
            class_active: None,
            class_active_peak: None,
            class_inactive_depth: None,
            class_inactive_depth_peak: None,
            inactive_probe_span: None,
        }
    }
}

pub open spec fn level_of(peak: u32, live: u32) -> u32 {
    if peak >= live {
        peak
    } else {
        live
    }
}

/// The level that a signal reached over the window: the larger of its
/// high-water mark and the level that still stands.
pub fn window_level(peak: u32, live: u32) -> (r: u32)
    ensures
        r == level_of(peak, live),
{
    peak.max(live)
}

fn read_entry(table: &Option<[u32; CLASS_COUNT]>, class: usize) -> (r: u32)
    ensures
        r == entry_of(*table, class as int),
{
    match table {
        Some(table) => if class < CLASS_COUNT {
            table[class]
        } else {
            0
        },
        None => 0,
    }
}

fn write_entry(table: &mut Option<[u32; CLASS_COUNT]>, class: usize, value: u32)
    ensures
        entry_set(*old(table), *final(table), class as int, value),
{
    match table {
        Some(table) => {
            if class < CLASS_COUNT {
                table[class] = value;
            }
        },
        None => {},
    }
}

/// Reads and clears the admission peak of the window.
pub fn take_class_active_peak(state: &mut ClassState, class: usize) -> (r: u32)
    ensures
        r == entry_of(old(state).class_active_peak, class as int),
        entry_set(old(state).class_active_peak, final(state).class_active_peak, class as int, 0),
        *final(state) == (ClassState {
            class_active_peak: final(state).class_active_peak,
            ..*old(state)
        }),
{
    let peak: u32 = read_entry(&state.class_active_peak, class);
    write_entry(&mut state.class_active_peak, class, 0);
    peak
}

/// Reads and clears the queue peak of the window.
pub fn take_class_inactive_depth_peak(state: &mut ClassState, class: usize) -> (r: u32)
    ensures
        r == entry_of(old(state).class_inactive_depth_peak, class as int),
        entry_set(
            old(state).class_inactive_depth_peak,
            final(state).class_inactive_depth_peak,
            class as int,
            0,
        ),
        *final(state) == (ClassState {
            class_inactive_depth_peak: final(state).class_inactive_depth_peak,
            ..*old(state)
        }),
{
    let peak: u32 = read_entry(&state.class_inactive_depth_peak, class);
    write_entry(&mut state.class_inactive_depth_peak, class, 0);
    peak
}

/// Waiters parked in the inactive queue of the class.
pub fn class_inactive_depth(state: &ClassState, class: usize) -> (r: u32)
    ensures
        r == entry_of(state.class_inactive_depth, class as int),
{
    read_entry(&state.class_inactive_depth, class)
}

/// Waiters currently admitted for the class.
pub fn class_active(state: &ClassState, class: usize) -> (r: u32)
    ensures
        r == state.active_of(class as int),
{
    match &state.class_active {
        Some(table) => if class < CLASS_COUNT && table[class] > 0 {
            table[class] as u32
        } else {
            0
        },
        None => 0,
    }
}

pub fn class_occupancy(state: &mut ClassState, class: usize) -> (r: u32)
    ensures
        r == old(state).occupancy_of(class as int),
        entry_set(old(state).class_active_peak, final(state).class_active_peak, class as int, 0),
        *final(state) == (ClassState {
            class_active_peak: final(state).class_active_peak,
            ..*old(state)
        }),
{
    let peak: u32 = take_class_active_peak(state, class);
    window_level(peak, class_active(state, class))
}

pub fn class_queue_depth(state: &mut ClassState, class: usize) -> (r: u32)
    ensures
        r == old(state).queue_depth_of(class as int),
        entry_set(
            old(state).class_inactive_depth_peak,
            final(state).class_inactive_depth_peak,
            class as int,
            0,
        ),
        *final(state) == (ClassState {
            class_inactive_depth_peak: final(state).class_inactive_depth_peak,
            ..*old(state)
        }),
{
    let peak: u32 = take_class_inactive_depth_peak(state, class);
    window_level(peak, class_inactive_depth(state, class))
}

pub fn publish_class_width(state: &mut ClassState, class: usize, width: u32)
    ensures
        entry_set(old(state).class_width, final(state).class_width, class as int, width),
        *final(state) == (ClassState { class_width: final(state).class_width, ..*old(state) }),
{
    write_entry(&mut state.class_width, class, width);
}

pub open spec fn probe_span(allocated: u32) -> u32 {
    if allocated < MANAGED_CLASS_COUNT {
        allocated
    } else {
        MANAGED_CLASS_COUNT
    }
}

/// Managed class ranks that the deficit probe may rotate over, no more than
/// exist.
pub fn clamped_probe_span(allocated: u32) -> (r: u32)
    ensures
        r == probe_span(allocated),
        r < CLASS_COUNT,
{
    allocated.min(MANAGED_CLASS_COUNT)
}

pub fn store_probe_span(slot: &mut Option<u32>, allocated: u32)
    ensures
        *final(slot) == match *old(slot) {
            Some(_) => Some(probe_span(allocated)),
            None => None,
        },
{
    if slot.is_some() {
        *slot = Some(clamped_probe_span(allocated));
    }
}

/// Publishes how many managed class ranks the probe should rotate over.
pub fn publish_inactive_probe_span(state: &mut ClassState, allocated: u32)
    ensures
        *final(state) == (ClassState {
            inactive_probe_span: match old(state).inactive_probe_span {
                Some(_) => Some(probe_span(allocated)),
                None => None,
            },
            ..*old(state)
        }),
{
    store_probe_span(&mut state.inactive_probe_span, allocated);
}

/// Hands the scheduler's per-class tables to the loop. The probe span is
/// published at once, so classes allocated before are covered.
pub fn set_class_state_ptrs(
    state: &mut ClassState,
    class_width: Option<[u32; CLASS_COUNT]>,
    class_active: Option<[i32; CLASS_COUNT]>,
    class_active_peak: Option<[u32; CLASS_COUNT]>,
    class_inactive_depth: Option<[u32; CLASS_COUNT]>,
    class_inactive_depth_peak: Option<[u32; CLASS_COUNT]>,
    inactive_probe_span: Option<u32>,
    allocated: u32,
)
    ensures
        *final(state) == (ClassState {
            class_width,
            class_active,
            class_active_peak,
            class_inactive_depth,
            class_inactive_depth_peak,
            inactive_probe_span: match inactive_probe_span {
                Some(_) => Some(probe_span(allocated)),
                None => None,
            },
        }),
{
    *state = ClassState {
        class_width,
        class_active,
        class_active_peak,
        class_inactive_depth,
        class_inactive_depth_peak,
        inactive_probe_span,
    };
    publish_inactive_probe_span(state, allocated);
}

pub fn clear_class_state_ptrs(state: &mut ClassState)
    ensures
        final(state).class_width is None,
        final(state).class_active is None,
        final(state).class_active_peak is None,
        final(state).class_inactive_depth is None,
        final(state).class_inactive_depth_peak is None,
        final(state).inactive_probe_span is None,
{
    set_class_state_ptrs(state, None, None, None, None, None, None, 0);
}

// One tick.
/// What the model made of a class's averages: the averages themselves, as bit
/// patterns, and the width they ask for, if they are usable.
#[derive(Clone, Copy)]
pub struct ModelUpdate {
    pub cs_ewma_ns: u64,
    pub ncs_ewma_ns: u64,
    pub seed: Option<u32>,
}

/// What a window showed of a class.
#[derive(Clone, Copy)]
pub struct WindowSignals {
    pub peak: u32,
    pub depth: u32,
    pub acquires: u64,
    pub model: Option<ModelUpdate>,
}

/// A class with the window counted and the model's answer taken in.
pub open spec fn with_model(
    entry: ControllerView,
    window: WindowSignals,
    config: TickConfig,
) -> ControllerView {
    let ticks_since_change = entry.ticks_since_change.saturating_add(1);
    match window.model {
        Some(model) => ControllerView {
            ticks_since_change,
            cs_ewma_ns: Some(model.cs_ewma_ns),
            ncs_ewma_ns: Some(model.ncs_ewma_ns),
            seed: match model.seed {
                Some(seed) => settled_seed(
                    entry.seed,
                    occupancy_bound(seed, window.peak, window.depth),
                    config.deadzone,
                ),
                None => entry.seed,
            },
            ..entry
        },
        None => ControllerView { ticks_since_change, ..entry },
    }
}

/// A class after one window: an absorbed class stays as it is, one that was
/// never measured stays unlimited, one that is new to the loop enters at the
/// floor, and any other moves by the step its windows confirm.
pub open spec fn after_window(
    entry: ControllerView,
    window: WindowSignals,
    config: TickConfig,
) -> ControllerView {
    let measured = with_model(entry, window, config);
    if entry.absorbed {
        entry
    } else if measured.seed == 0 {
        measured
    } else if measured.width == 0 {
        measured.committed(floor_under(config.min_width, config.width_max), window.acquires)
    } else {
        let vote = vote_of(
            measured.published,
            measured.seed,
            window.peak,
            window.depth,
            config.deadzone,
        );
        let (tally, step) = confirmed(measured.vote, vote as i32, config.holdoff_windows);
        let allowed = measured.ticks_since_change >= config.holdoff_windows
            && window.acquires.saturating_sub(measured.acquires_at_change)
            >= MIN_ACQUIRES_PER_DECISION;
        let next = stepped(
            measured.width,
            if allowed {
                step as int
            } else {
                0
            },
            config.min_width,
            config.width_max,
        );
        let voted = ControllerView { vote: tally, ..measured };
        if next != measured.width {
            voted.committed(next, window.acquires)
        } else {
            voted
        }
    }
}

/// The width that a class asks to have published, 0 where the loop does not
/// limit it.
pub open spec fn wanted_width(entry: ControllerView, config: TickConfig) -> u32 {
    if entry.absorbed || entry.seed == 0 {
        0
    } else {
        floored(entry.width, config.min_width, config.width_max)
    }
}

pub open spec fn wanted_demand(
    entry: ControllerView,
    window: WindowSignals,
    config: TickConfig,
) -> u32 {
    if entry.absorbed || entry.seed == 0 {
        0
    } else {
        demand_of(entry.width, window.peak, window.depth, config.min_width, config.width_max)
    }
}

/// Runs one window of one class, and returns the width and the demand that it
/// takes into the arbitration.
pub fn advance_class(
    entry: &mut ClassController,
    window: &WindowSignals,
    config: &TickConfig,
) -> (r: (u32, u32))
    requires
        old(entry).wf(),
    ensures
        final(entry).wf(),
        final(entry)@ == after_window(old(entry)@, *window, *config),
        r.0 == wanted_width(final(entry)@, *config),
        r.1 == wanted_demand(final(entry)@, *window, *config),
{
    if entry.absorbed {
        return (0, 0);
    }
    entry.ticks_since_change = entry.ticks_since_change.saturating_add(1);
    if let Some(model) = window.model {
        entry.cs_ewma_ns = Some(model.cs_ewma_ns);
        entry.ncs_ewma_ns = Some(model.ncs_ewma_ns);
        if let Some(seed) = model.seed {
            let seed: u32 = bound_seed_by_occupancy(seed, window.peak, window.depth);
            entry.seed = settle_seed(entry.seed, seed, config.deadzone);
        }
    }
    assert(entry@.history =~= old(entry)@.history);
    assert(entry@ == with_model(old(entry)@, *window, *config));
    let ghost measured = entry@;
    if entry.seed == 0 {
        return (0, 0);
    }
    if entry.width == 0 {
        entry.commit_initial_width(config.min_width, config.width_max, window.acquires);
    } else {
        let vote: i32 = width_vote(
            entry.published,
            entry.seed,
            window.peak,
            window.depth,
            config.deadzone,
        );
        let mut tally: StepVote = entry.vote;
        let step: i32 = confirm_step(&mut tally, vote, config.holdoff_windows);
        entry.vote = tally;
        assert(entry@.history =~= measured.history);
        assert(entry@ == (ControllerView { vote: tally, ..measured }));
        let allowed: bool = step_allowed(
            window.acquires.saturating_sub(entry.acquires_at_change),
            entry.ticks_since_change,
            config.holdoff_windows,
        );
        let next: u32 = stepped_width(
            entry.width,
            if allowed {
                step
            } else {
                0
            },
            config.min_width,
            config.width_max,
        );
        if next != entry.width {
            entry.commit_width(next, window.acquires);
        }
    }
    (
        floored_width(entry.width, config.min_width, config.width_max),
        class_demand(
            entry.width,
            window.peak,
            window.depth,
            config.min_width,
            config.width_max,
        ),
    )
}

/// What the window before a tick shows of a class.
pub open spec fn window_of(
    state: ClassState,
    models: Seq<Option<ModelUpdate>>,
    acquires: Seq<u64>,
    class: int,
) -> WindowSignals {
    WindowSignals {
        peak: state.occupancy_of(class),
        depth: state.queue_depth_of(class),
        acquires: acquires[class],
        model: models[class],
    }
}

/// The classes that take part in a tick, each after its window. The unmanaged
/// class is not among them.
pub open spec fn classes_after(
    classes: Seq<ControllerView>,
    state: ClassState,
    config: TickConfig,
    models: Seq<Option<ModelUpdate>>,
    acquires: Seq<u64>,
) -> Seq<ControllerView> {
    Seq::new(
        classes.len(),
        |class: int|
            if class == UNMANAGED_LOCK_ID {
                classes[class]
            } else {
                after_window(classes[class], window_of(state, models, acquires, class), config)
            },
    )
}

/// The widths that a tick publishes.
pub open spec fn tick_shares(
    classes: Seq<ControllerView>,
    state: ClassState,
    config: TickConfig,
    models: Seq<Option<ModelUpdate>>,
    acquires: Seq<u64>,
) -> Seq<u32> {
    let after = classes_after(classes, state, config, models, acquires);
    arbitrated(
        Seq::new(
            classes.len(),
            |class: int|
                if class == UNMANAGED_LOCK_ID {
                    0
                } else {
                    wanted_width(after[class], config)
                },
        ),
        Seq::new(
            classes.len(),
            |class: int|
                if class == UNMANAGED_LOCK_ID {
                    0
                } else {
                    wanted_demand(
                        after[class],
                        window_of(state, models, acquires, class),
                        config,
                    )
                },
        ),
        config.budget,
        config.min_width,
    )
}

/// `after` is `before` with every managed class's entry cleared.
pub open spec fn managed_cleared(
    before: Option<[u32; CLASS_COUNT]>,
    after: Option<[u32; CLASS_COUNT]>,
) -> bool {
    match (before, after) {
        (Some(before), Some(after)) => {
            &&& after@[0] == before@[0]
            &&& forall|class: int| 1 <= class < CLASS_COUNT ==> #[trigger] after@[class] == 0
        },
        (None, None) => true,
        _ => false,
    }
}

/// `after` is `before` with the managed classes' entries taken from `values`.
pub open spec fn managed_set(
    before: Option<[u32; CLASS_COUNT]>,
    after: Option<[u32; CLASS_COUNT]>,
    values: Seq<u32>,
) -> bool {
    match (before, after) {
        (Some(before), Some(after)) => {
            &&& after@[0] == before@[0]
            &&& forall|class: int|
                1 <= class < CLASS_COUNT ==> #[trigger] after@[class] == values[class]
        },
        (None, None) => true,
        _ => false,
    }
}

/// Runs one tick: every class takes its window in, the CPUs are shared out, and
/// the shares are published. The window's peaks are consumed.
pub fn run_tick(
    classes: &mut [ClassController; CLASS_COUNT],
    state: &mut ClassState,
    config: &TickConfig,
    models: &[Option<ModelUpdate>; CLASS_COUNT],
    acquires: &[u64; CLASS_COUNT],
)
    requires
        all_wf(old(classes)@),
    ensures
        all_wf(final(classes)@),
        ({
            let before = views(old(classes)@);
            let after = classes_after(before, *old(state), *config, models@, acquires@);
            let shares = tick_shares(before, *old(state), *config, models@, acquires@);
            &&& final(classes)@[0]@ == before[0]
            &&& forall|class: int|
                1 <= class < CLASS_COUNT ==> (#[trigger] final(classes)@[class])@ == (
                ControllerView { published: shares[class], ..after[class] })
            &&& managed_set(old(state).class_width, final(state).class_width, shares)
        }),
        managed_cleared(old(state).class_active_peak, final(state).class_active_peak),
        managed_cleared(
            old(state).class_inactive_depth_peak,
            final(state).class_inactive_depth_peak,
        ),
        *final(state) == (ClassState {
            class_width: final(state).class_width,
            class_active_peak: final(state).class_active_peak,
            class_inactive_depth_peak: final(state).class_inactive_depth_peak,
            ..*old(state)
        }),
{
    let ghost before = views(classes@);
    let ghost initial = *state;
    let ghost after = classes_after(before, initial, *config, models@, acquires@);
    let ghost wanted = Seq::new(
        CLASS_COUNT as nat,
        |class: int|
            if class == UNMANAGED_LOCK_ID {
                0
            } else {
                wanted_width(after[class], *config)
            },
    );
    let ghost asked = Seq::new(
        CLASS_COUNT as nat,
        |class: int|
            if class == UNMANAGED_LOCK_ID {
                0
            } else {
                wanted_demand(
                    after[class],
                    window_of(initial, models@, acquires@, class),
                    *config,
                )
            },
    );
    let mut widths: [u32; CLASS_COUNT] = [0;CLASS_COUNT];
    let mut demands: [u32; CLASS_COUNT] = [0;CLASS_COUNT];
    let mut class: usize = 1;
    while class < CLASS_COUNT
        invariant
            1 <= class <= CLASS_COUNT,
            all_wf(classes@),
            before == views(old(classes)@),
            initial == *old(state),
            after == classes_after(before, initial, *config, models@, acquires@),
            forall|i: int| class <= i < CLASS_COUNT ==> (#[trigger] classes@[i])@ == before[i],
            classes@[0]@ == before[0],
            forall|i: int| 1 <= i < class ==> (#[trigger] classes@[i])@ == after[i],
            wanted.len() == CLASS_COUNT,
            asked.len() == CLASS_COUNT,
            widths@[0] == 0,
            demands@[0] == 0,
            wanted[0] == 0,
            asked[0] == 0,
            forall|i: int| 1 <= i < CLASS_COUNT ==> #[trigger] wanted[i] == wanted_width(
                after[i],
                *config,
            ),
            forall|i: int| 1 <= i < CLASS_COUNT ==> #[trigger] asked[i] == wanted_demand(
                after[i],
                window_of(initial, models@, acquires@, i),
                *config,
            ),
            forall|i: int| 1 <= i < class ==> widths@[i] == wanted[i],
            forall|i: int| 1 <= i < class ==> demands@[i] == asked[i],
            forall|i: int|
                class <= i < CLASS_COUNT ==> entry_of(state.class_active_peak, i) == entry_of(
                    initial.class_active_peak,
                    i,
                ),
            forall|i: int|
                class <= i < CLASS_COUNT ==> entry_of(state.class_inactive_depth_peak, i)
                    == entry_of(initial.class_inactive_depth_peak, i),
            forall|i: int| 1 <= i < class ==> entry_of(state.class_active_peak, i) == 0,
            forall|i: int| 1 <= i < class ==> entry_of(state.class_inactive_depth_peak, i) == 0,
            entry_of(state.class_active_peak, 0) == entry_of(initial.class_active_peak, 0),
            entry_of(state.class_inactive_depth_peak, 0) == entry_of(
                initial.class_inactive_depth_peak,
                0,
            ),
            state.class_active_peak is Some == initial.class_active_peak is Some,
            state.class_inactive_depth_peak is Some == initial.class_inactive_depth_peak is Some,
            *state == (ClassState {
                class_active_peak: state.class_active_peak,
                class_inactive_depth_peak: state.class_inactive_depth_peak,
                ..initial
            }),
        decreases CLASS_COUNT - class,
    {
        let ghost here = *state;
        let peak: u32 = class_occupancy(state, class);
        let depth: u32 = class_queue_depth(state, class);
        let window: WindowSignals = WindowSignals {
            peak,
            depth,
            acquires: acquires[class],
            model: models[class],
        };
        assert(window == window_of(initial, models@, acquires@, class as int));
        let mut entry: ClassController = classes[class];
        let wants: (u32, u32) = advance_class(&mut entry, &window, config);
        classes[class] = entry;
        widths[class] = wants.0;
        demands[class] = wants.1;
        proof {
            assert(after[class as int] == entry@);
            assert forall|i: int| class < i < CLASS_COUNT implies entry_of(
                state.class_active_peak,
                i,
            ) == entry_of(initial.class_active_peak, i) && entry_of(
                state.class_inactive_depth_peak,
                i,
            ) == entry_of(initial.class_inactive_depth_peak, i) by {
                assert(entry_of(here.class_active_peak, i) == entry_of(
                    initial.class_active_peak,
                    i,
                ));
                assert(entry_of(here.class_inactive_depth_peak, i) == entry_of(
                    initial.class_inactive_depth_peak,
                    i,
                ));
            }
            assert forall|i: int| 1 <= i <= class implies entry_of(state.class_active_peak, i) == 0
                && entry_of(state.class_inactive_depth_peak, i) == 0 by {
                if i < class {
                    assert(entry_of(here.class_active_peak, i) == 0);
                    assert(entry_of(here.class_inactive_depth_peak, i) == 0);
                }
            }
        }
        class += 1;
    }
    proof {
        assert(widths@ =~= wanted);
        assert(demands@ =~= asked);
    }
    let shares: [u32; CLASS_COUNT] = arbitrate_budget(
        &widths,
        &demands,
        config.budget,
        config.min_width,
    );
    proof {
        assert(shares@ == tick_shares(before, initial, *config, models@, acquires@));
        if let Some(table) = state.class_active_peak {
            assert forall|i: int| 1 <= i < CLASS_COUNT implies #[trigger] table@[i] == 0 by {
                assert(entry_of(state.class_active_peak, i) == 0);
            }
        }
        if let Some(table) = state.class_inactive_depth_peak {
            assert forall|i: int| 1 <= i < CLASS_COUNT implies #[trigger] table@[i] == 0 by {
                assert(entry_of(state.class_inactive_depth_peak, i) == 0);
            }
        }
    }
    let ghost counted = *state;
    let mut class: usize = 1;
    while class < CLASS_COUNT
        invariant
            1 <= class <= CLASS_COUNT,
            all_wf(classes@),
            before == views(old(classes)@),
            classes@[0]@ == before[0],
            forall|i: int| class <= i < CLASS_COUNT ==> (#[trigger] classes@[i])@ == after[i],
            forall|i: int|
                1 <= i < class ==> (#[trigger] classes@[i])@ == (ControllerView {
                    published: shares@[i],
                    ..after[i]
                }),
            state.class_width is Some == counted.class_width is Some,
            entry_of(state.class_width, 0) == entry_of(counted.class_width, 0),
            forall|i: int|
                1 <= i < class && state.class_width is Some ==> entry_of(state.class_width, i)
                    == shares@[i],
            *state == (ClassState { class_width: state.class_width, ..counted }),
        decreases CLASS_COUNT - class,
    {
        let ghost here = *state;
        let mut entry: ClassController = classes[class];
        entry.published = shares[class];
        assert(entry@.history =~= classes@[class as int]@.history);
        classes[class] = entry;
        publish_class_width(state, class, shares[class]);
        proof {
            assert forall|i: int| 1 <= i <= class && state.class_width is Some implies entry_of(
                state.class_width,
                i,
            ) == shares@[i] by {
                if i < class {
                    assert(entry_of(here.class_width, i) == shares@[i]);
                }
            }
        }
        class += 1;
    }
    proof {
        if let Some(table) = state.class_width {
            assert forall|i: int| 1 <= i < CLASS_COUNT implies #[trigger] table@[i] == shares@[i] by {
                assert(entry_of(state.class_width, i) == shares@[i]);
            }
        }
    }
}

/// The classes as a tick starts from them: folded where some were merged since the
/// last one.
pub open spec fn settled_classes(
    classes: Seq<ControllerView>,
    canonical: Option<&[usize; CLASS_COUNT]>,
    acquires: Seq<u64>,
) -> Seq<ControllerView> {
    match canonical {
        Some(canonical) => folded(classes, canonical@, acquires, CLASS_COUNT as int),
        None => classes,
    }
}

/// Runs one tick on classes that may have been merged since the last one: merged
/// classes are folded first. `canonical` holds the class that each class goes by,
/// `None` where no merge took place, and `models` what the model made of the classes
/// once they are folded.
pub fn fold_and_run_tick(
    classes: &mut [ClassController; CLASS_COUNT],
    state: &mut ClassState,
    config: &TickConfig,
    canonical: Option<&[usize; CLASS_COUNT]>,
    models: &[Option<ModelUpdate>; CLASS_COUNT],
    acquires: &[u64; CLASS_COUNT],
)
    requires
        all_wf(old(classes)@),
    ensures
        all_wf(final(classes)@),
        ({
            let before = settled_classes(views(old(classes)@), canonical, acquires@);
            let after = classes_after(before, *old(state), *config, models@, acquires@);
            let shares = tick_shares(before, *old(state), *config, models@, acquires@);
            &&& final(classes)@[0]@ == before[0]
            &&& forall|class: int|
                1 <= class < CLASS_COUNT ==> (#[trigger] final(classes)@[class])@ == (
                ControllerView { published: shares[class], ..after[class] })
            &&& managed_set(old(state).class_width, final(state).class_width, shares)
        }),
        managed_cleared(old(state).class_active_peak, final(state).class_active_peak),
        managed_cleared(
            old(state).class_inactive_depth_peak,
            final(state).class_inactive_depth_peak,
        ),
        *final(state) == (ClassState {
            class_width: final(state).class_width,
            class_active_peak: final(state).class_active_peak,
            class_inactive_depth_peak: final(state).class_inactive_depth_peak,
            ..*old(state)
        }),
{
    if let Some(canonical) = canonical {
        fold_merged_classes(classes, canonical, acquires);
    }
    run_tick(classes, state, config, models, acquires);
}

/// A class that was merged into another one is published as unlimited from the next
/// tick on: what waits under its old name can be drained, and the class it was merged
/// into holds the limit.
pub proof fn law_a_merged_class_is_left_unlimited(
    classes: Seq<ControllerView>,
    canonical: [usize; CLASS_COUNT],
    state: ClassState,
    config: TickConfig,
    models: Seq<Option<ModelUpdate>>,
    acquires: Seq<u64>,
    class: int,
)
    requires
        classes.len() == CLASS_COUNT,
        acquires.len() == CLASS_COUNT,
        1 <= class < CLASS_COUNT,
        renamed(class, canonical@),
    ensures
        ({
            let before = settled_classes(classes, Some(&canonical), acquires);
            &&& before[class].absorbed
            &&& classes_after(before, state, config, models, acquires)[class] == before[class]
            &&& tick_shares(before, state, config, models, acquires)[class] == 0
        }),
{
    let before = settled_classes(classes, Some(&canonical), acquires);
    lemma_folded_absorbs(classes, canonical@, acquires, CLASS_COUNT as int);
    let after = classes_after(before, state, config, models, acquires);
    let widths = Seq::new(
        before.len(),
        |class: int|
            if class == UNMANAGED_LOCK_ID {
                0
            } else {
                wanted_width(after[class], config)
            },
    );
    let demands = Seq::new(
        before.len(),
        |class: int|
            if class == UNMANAGED_LOCK_ID {
                0
            } else {
                wanted_demand(after[class], window_of(state, models, acquires, class), config)
            },
    );
    law_shares_respect_demand(widths, demands, config.budget, config.min_width);
    let shares = arbitrated(widths, demands, config.budget, config.min_width);
    assert(shares == tick_shares(before, state, config, models, acquires));
    assert(demands[class] == 0 && widths[class] == 0);
    assert(shares[class] == widths[class]);
}

/// A class that the loop limits is never published as unlimited.
pub proof fn law_measured_class_is_never_unlimited(
    classes: Seq<ControllerView>,
    state: ClassState,
    config: TickConfig,
    models: Seq<Option<ModelUpdate>>,
    acquires: Seq<u64>,
    class: int,
)
    requires
        1 <= class < classes.len(),
        ({
            let after = classes_after(classes, state, config, models, acquires);
            !after[class].absorbed && after[class].seed != 0
        }),
    ensures
        tick_shares(classes, state, config, models, acquires)[class] >= 1,
{
    let after = classes_after(classes, state, config, models, acquires);
    let widths = Seq::new(
        classes.len(),
        |class: int|
            if class == UNMANAGED_LOCK_ID {
                0
            } else {
                wanted_width(after[class], config)
            },
    );
    let demands = Seq::new(
        classes.len(),
        |class: int|
            if class == UNMANAGED_LOCK_ID {
                0
            } else {
                wanted_demand(after[class], window_of(state, models, acquires, class), config)
            },
    );
    law_shares_respect_demand(widths, demands, config.budget, config.min_width);
    let shares = arbitrated(widths, demands, config.budget, config.min_width);
    assert(shares == tick_shares(classes, state, config, models, acquires));
    assert(widths[class] >= 1);
    if sum(demands) > cap(config.budget) {
        assert(share_within(shares[class], widths[class], demands[class], cap(config.min_width)));
    }
}

/// One window moves the committed width of a class that is already in the loop,
/// within the range the loop may commit, by at most one.
pub proof fn law_steps_never_move_a_width_by_more_than_one(
    entry: ControllerView,
    window: WindowSignals,
    config: TickConfig,
)
    requires
        entry.width != 0,
        floor_under(config.min_width, config.width_max) <= entry.width <= cap(config.width_max),
    ensures
        -1 <= after_window(entry, window, config).width - entry.width <= 1,
        floor_under(config.min_width, config.width_max) <= after_window(entry, window, config).width
            <= cap(config.width_max),
{
}

/// A signal that alternates never confirms a step, as long as a step needs more
/// than one window.
pub proof fn law_alternating_signal_never_confirms(
    vote: StepVote,
    direction: i32,
    confirm_windows: u32,
)
    requires
        confirm_windows > 1,
        direction != 0,
        vote.direction != direction,
    ensures
        ({
            let (next, step) = confirmed(vote, direction, confirm_windows);
            &&& step == 0
            &&& forall|other: i32| other != direction ==> #[trigger] confirmed(
                next,
                other,
                confirm_windows,
            ).1 == 0
        }),
{
}

pub open spec fn confirm_run(vote: StepVote, direction: i32, confirm_windows: u32, n: nat) -> (
    StepVote,
    i32,
)
    decreases n,
{
    if n == 0 {
        (vote, 0)
    } else {
        confirmed(
            confirm_run(vote, direction, confirm_windows, (n - 1) as nat).0,
            direction,
            confirm_windows,
        )
    }
}

/// From a clear tally a direction that keeps repeating is applied in every window that
/// completes the windows it takes, and in no other. A step takes one window at least.
pub proof fn law_direction_is_applied_once_it_repeated(
    direction: i32,
    confirm_windows: u32,
    n: nat,
)
    requires
        direction != 0,
    ensures
        ({
            let needed = cap(confirm_windows) as nat;
            let (tally, step) = confirm_run(no_vote(), direction, confirm_windows, n);
            &&& step == if n > 0 && n % needed == 0 {
                direction
            } else {
                0
            }
            &&& tally == if n % needed == 0 {
                no_vote()
            } else {
                StepVote { direction, windows: (n % needed) as u32 }
            }
        }),
    decreases n,
{
    let needed = cap(confirm_windows) as int;
    if n == 0 {
        vstd::arithmetic::div_mod::lemma_small_mod(0, needed as nat);
    } else {
        law_direction_is_applied_once_it_repeated(direction, confirm_windows, (n - 1) as nat);
        let before = (n - 1) % needed;
        vstd::arithmetic::div_mod::lemma_mod_bound(n - 1, needed);
        vstd::arithmetic::div_mod::lemma_add_mod_noop(n - 1, 1, needed);
        if needed == 1 {
            vstd::arithmetic::div_mod::lemma_mod_bound(n as int, needed);
        } else {
            vstd::arithmetic::div_mod::lemma_small_mod(1, needed as nat);
            if before + 1 < needed {
                vstd::arithmetic::div_mod::lemma_small_mod((before + 1) as nat, needed as nat);
            } else {
                vstd::arithmetic::div_mod::lemma_mod_self_0(needed);
            }
        }
    }
}

// The election of a tick.
/// What a thread does about the tick, given the time of the last one.
#[derive(Clone, Copy, Debug, PartialEq, Eq, Structural)]
pub enum TickDecision {
    /// The window has not passed.
    Skip,
    /// There was no tick yet: claim the clock, without a tick.
    Start,
    /// The window has passed: claim it, and run the tick.
    Run,
}

pub open spec fn decision_of(last_tick: u64, now_ns: u64, window_ns: u64) -> TickDecision {
    if last_tick == 0 {
        TickDecision::Start
    } else if now_ns - last_tick < window_ns && (now_ns >= last_tick || window_ns > 0) {
        TickDecision::Skip
    } else {
        TickDecision::Run
    }
}

/// Decides on the time of the last tick as it was last seen. A claim that loses
/// against another thread decides again, on the time that thread left.
pub fn tick_decision(last_tick: u64, now_ns: u64, window_ns: u64) -> (r: TickDecision)
    ensures
        r == decision_of(last_tick, now_ns, window_ns),
{
    if last_tick == 0 {
        TickDecision::Start
    } else if now_ns.saturating_sub(last_tick) < window_ns {
        TickDecision::Skip
    } else {
        TickDecision::Run
    }
}

/// Claims the window, if it has passed, and reports whether the caller is to
/// run the tick.
pub fn maybe_run_tick(
    last_tick: &mut u64,
    controller_active: bool,
    now_ns: u64,
    window_ns: u64,
) -> (r: bool)
    ensures
        r == (controller_active && decision_of(*old(last_tick), now_ns, window_ns)
            == TickDecision::Run),
        *final(last_tick) == if controller_active && decision_of(*old(last_tick), now_ns, window_ns)
            != TickDecision::Skip {
            now_ns
        } else {
            *old(last_tick)
        },
{
    if !controller_active {
        return false;
    }
    match tick_decision(*last_tick, now_ns, window_ns) {
        TickDecision::Skip => false,
        TickDecision::Start => {
            *last_tick = now_ns;
            false
        },
        TickDecision::Run => {
            *last_tick = now_ns;
            true
        },
    }
}

/// The times at which a tick runs when threads claim at the times `arrivals`,
/// in the order in which their claims take effect.
pub open spec fn tick_times(last_tick: u64, arrivals: Seq<u64>, window_ns: u64) -> Seq<u64>
    decreases arrivals.len(),
{
    if arrivals.len() == 0 {
        Seq::empty()
    } else {
        let now = arrivals[0];
        let rest = arrivals.subrange(1, arrivals.len() as int);
        match decision_of(last_tick, now, window_ns) {
            TickDecision::Skip => tick_times(last_tick, rest, window_ns),
            TickDecision::Start => tick_times(now, rest, window_ns),
            TickDecision::Run => seq![now] + tick_times(now, rest, window_ns),
        }
    }
}

/// However many threads arrive, ticks run at least a window apart.
pub proof fn law_ticks_are_a_window_apart(last_tick: u64, arrivals: Seq<u64>, window_ns: u64)
    requires
        window_ns > 0,
        last_tick != 0,
        forall|i: int| 0 <= i < arrivals.len() ==> #[trigger] arrivals[i] != 0,
    ensures
        ({
            let times = tick_times(last_tick, arrivals, window_ns);
            &&& times.len() > 0 ==> times[0] >= last_tick + window_ns
            &&& forall|i: int|
                0 < i < times.len() ==> #[trigger] times[i] >= times[i - 1] + window_ns
        }),
    decreases arrivals.len(),
{
    if arrivals.len() > 0 {
        let now = arrivals[0];
        let rest = arrivals.subrange(1, arrivals.len() as int);
        match decision_of(last_tick, now, window_ns) {
            TickDecision::Skip => {
                law_ticks_are_a_window_apart(last_tick, rest, window_ns);
            },
            TickDecision::Start => {},
            TickDecision::Run => {
                law_ticks_are_a_window_apart(now, rest, window_ns);
                let later = tick_times(now, rest, window_ns);
                let times = tick_times(last_tick, arrivals, window_ns);
                assert forall|i: int| 0 < i < times.len() implies #[trigger] times[i] >= times[i
                    - 1] + window_ns by {
                    assert(times[i] == later[i - 1]);
                    if i > 1 {
                        assert(times[i - 1] == later[i - 2]);
                    }
                }
            },
        }
    }
}

// Reporting.
/// The state of a class for reporting. The averages are bit patterns, 0 where
/// there is none.
pub struct ClassWidthReport {
    pub width: u32,
    pub published: u32,
    pub seed: u32,
    pub changes: u32,
    pub cs_ewma_ns: u64,
    pub ncs_ewma_ns: u64,
    pub history: Vec<u32>,
}

/// Final width and recent widths of a class, or `None` where the loop never
/// committed a width for it.
pub fn class_report(
    controller_active: bool,
    classes: &[ClassController; CLASS_COUNT],
    class: u32,
) -> (r: Option<ClassWidthReport>)
    requires
        all_wf(classes@),
    ensures
        match r {
            Some(report) => {
                let entry = classes@[class as int]@;
                &&& controller_active && class < CLASS_COUNT
                &&& entry.width != 0 || entry.history.len() > 0
                &&& report.width == entry.width
                &&& report.published == entry.published
                &&& report.seed == entry.seed
                &&& report.changes == entry.changes
                &&& report.cs_ewma_ns == match entry.cs_ewma_ns {
                    Some(ns) => ns,
                    None => 0,
                }
                &&& report.ncs_ewma_ns == match entry.ncs_ewma_ns {
                    Some(ns) => ns,
                    None => 0,
                }
                &&& report.history@ == entry.history
            },
            None => {
                ||| !controller_active
                ||| class >= CLASS_COUNT
                ||| classes@[class as int]@.width == 0 && classes@[class as int]@.history.len() == 0
            },
        },
{
    if !controller_active || class as usize >= CLASS_COUNT {
        return None;
    }
    let entry: ClassController = classes[class as usize];
    assert(entry.wf());
    if entry.width == 0 && entry.history_len == 0 {
        return None;
    }
    Some(
        ClassWidthReport {
            width: entry.width,
            published: entry.published,
            seed: entry.seed,
            changes: entry.changes,
            cs_ewma_ns: match entry.cs_ewma_ns {
                Some(ns) => ns,
                None => 0,
            },
            ncs_ewma_ns: match entry.ncs_ewma_ns {
                Some(ns) => ns,
                None => 0,
            },
            history: entry.history(),
        },
    )
}

// What a tick does, by the tables that it is handed.
/// A class that the loop already has a width for, within what it may commit.
pub open spec fn in_the_loop(entry: ControllerView, config: TickConfig) -> bool {
    &&& !entry.absorbed
    &&& entry.width != 0
    &&& config.min_width <= entry.width <= config.width_max
}

/// The class where the scheduler still has a waiter parked, or had one in the window,
/// is not narrowed: it has more demand than its width lets run.
pub proof fn law_a_parked_waiter_keeps_the_width(
    classes: Seq<ControllerView>,
    state: ClassState,
    config: TickConfig,
    models: Seq<Option<ModelUpdate>>,
    acquires: Seq<u64>,
    class: int,
)
    requires
        1 <= class < classes.len() <= CLASS_COUNT,
        !classes[class].absorbed,
        0 < classes[class].width <= config.width_max,
        (state.class_inactive_depth matches Some(table) && table@[class] > 0) || (
        state.class_inactive_depth_peak matches Some(table) && table@[class] > 0),
    ensures
        classes_after(classes, state, config, models, acquires)[class].width
            >= classes[class].width,
{
    assert(window_of(state, models, acquires, class).depth > 0);
}

/// A class that fills the width in force, with waiters parked behind it and the model
/// asking for more than the dead zone past it, grows by one once the width has been in
/// force for long enough, the class has contributed enough evidence, and this window
/// completes those that a step takes. It does not matter whether the scheduler shows
/// this as the mark of the window or as the level that still stands.
pub proof fn law_a_saturated_class_grows(
    classes: Seq<ControllerView>,
    state: ClassState,
    config: TickConfig,
    models: Seq<Option<ModelUpdate>>,
    acquires: Seq<u64>,
    class: int,
)
    requires
        1 <= class < classes.len() <= CLASS_COUNT,
        in_the_loop(classes[class], config),
        classes[class].published > 0,
        (state.class_active matches Some(table) && table@[class] >= classes[class].published) || (
        state.class_active_peak matches Some(table) && table@[class] >= classes[class].published),
        (state.class_inactive_depth matches Some(table) && table@[class] > 0) || (
        state.class_inactive_depth_peak matches Some(table) && table@[class] > 0),
        classes_after(classes, state, config, models, acquires)[class].seed
            > classes[class].published + config.deadzone,
        classes[class].ticks_since_change + 1 >= config.holdoff_windows,
        acquires[class] >= classes[class].acquires_at_change + 32,
        config.holdoff_windows <= 1 || (classes[class].vote.direction == 1
            && classes[class].vote.windows + 1 >= config.holdoff_windows),
        classes[class].width < config.width_max,
    ensures
        classes_after(classes, state, config, models, acquires)[class].width
            == classes[class].width + 1,
        classes_after(classes, state, config, models, acquires)[class].ticks_since_change == 0,
{
    let window = window_of(state, models, acquires, class);
    assert(window.depth > 0);
    assert(window.peak >= classes[class].published);
    let measured = with_model(classes[class], window, config);
    assert(measured.seed == classes_after(classes, state, config, models, acquires)[class].seed);
}

/// A class that held nobody back and left more than the dead zone of its width unused is
/// narrowed by one, under the same conditions, down to the floor.
pub proof fn law_an_idle_width_shrinks(
    classes: Seq<ControllerView>,
    state: ClassState,
    config: TickConfig,
    models: Seq<Option<ModelUpdate>>,
    acquires: Seq<u64>,
    class: int,
)
    requires
        1 <= class < classes.len() <= CLASS_COUNT,
        in_the_loop(classes[class], config),
        config.min_width >= 1,
        state.class_inactive_depth matches Some(table) ==> table@[class] == 0,
        state.class_inactive_depth_peak matches Some(table) ==> table@[class] == 0,
        state.class_active matches Some(table) ==> table@[class] + config.deadzone
            < classes[class].published,
        state.class_active_peak matches Some(table) ==> table@[class] + config.deadzone
            < classes[class].published,
        config.deadzone < classes[class].published,
        classes_after(classes, state, config, models, acquires)[class].seed > 0,
        classes[class].ticks_since_change + 1 >= config.holdoff_windows,
        acquires[class] >= classes[class].acquires_at_change + 32,
        config.holdoff_windows <= 1 || (classes[class].vote.direction == -1
            && classes[class].vote.windows + 1 >= config.holdoff_windows),
        classes[class].width > config.min_width,
    ensures
        classes_after(classes, state, config, models, acquires)[class].width
            == classes[class].width - 1,
{
    let window = window_of(state, models, acquires, class);
    assert(window.depth == 0);
    assert(window.peak + config.deadzone < classes[class].published);
    let measured = with_model(classes[class], window, config);
    assert(measured.seed == classes_after(classes, state, config, models, acquires)[class].seed);
}

/// A width that has not been in force for long enough, or that the class has contributed
/// too little evidence under, stays as it is.
pub proof fn law_a_width_needs_time_and_evidence_to_move(
    classes: Seq<ControllerView>,
    state: ClassState,
    config: TickConfig,
    models: Seq<Option<ModelUpdate>>,
    acquires: Seq<u64>,
    class: int,
)
    requires
        1 <= class < classes.len() <= CLASS_COUNT,
        in_the_loop(classes[class], config),
        classes[class].ticks_since_change + 1 < config.holdoff_windows || acquires[class]
            < classes[class].acquires_at_change + 32,
    ensures
        classes_after(classes, state, config, models, acquires)[class].width
            == classes[class].width,
        classes_after(classes, state, config, models, acquires)[class].history
            == classes[class].history,
{
}

/// A class is not narrowed merely because the model wavers: a width within the dead zone
/// of the model, with all of it in use and nobody waiting, stays.
pub proof fn law_a_width_in_its_dead_zone_stays(
    classes: Seq<ControllerView>,
    state: ClassState,
    config: TickConfig,
    models: Seq<Option<ModelUpdate>>,
    acquires: Seq<u64>,
    class: int,
)
    requires
        1 <= class < classes.len() <= CLASS_COUNT,
        in_the_loop(classes[class], config),
        classes[class].published < u32::MAX,
        (state.class_active matches Some(table) && table@[class] + config.deadzone
            >= classes[class].published) || (state.class_active_peak matches Some(table)
            && table@[class] + config.deadzone >= classes[class].published),
        ({
            let seed = classes_after(classes, state, config, models, acquires)[class].seed;
            seed <= classes[class].published + config.deadzone && classes[class].published <= seed
                + config.deadzone
        }),
    ensures
        classes_after(classes, state, config, models, acquires)[class].width
            == classes[class].width,
{
    let window = window_of(state, models, acquires, class);
    assert(window.peak + config.deadzone >= classes[class].published);
    let measured = with_model(classes[class], window, config);
    if measured.seed != 0 {
        let after = after_window(classes[class], window, config);
        assert(classes_after(classes, state, config, models, acquires)[class] == after);
        assert(after.seed == measured.seed);
        assert(vote_of(
            measured.published,
            measured.seed,
            window.peak,
            window.depth,
            config.deadzone,
        ) == 0);
        assert(confirmed(measured.vote, 0, config.holdoff_windows).1 == 0);
        assert(stepped(measured.width, 0, config.min_width, config.width_max) == measured.width);
    }
}

/// A class that is measured for the first time enters the loop at the floor, whatever the
/// model asks for; one that was never measured stays out of it, and unlimited.
pub proof fn law_a_class_enters_at_the_floor(
    classes: Seq<ControllerView>,
    state: ClassState,
    config: TickConfig,
    models: Seq<Option<ModelUpdate>>,
    acquires: Seq<u64>,
    class: int,
)
    requires
        1 <= class < classes.len() <= CLASS_COUNT,
        !classes[class].absorbed,
        classes[class].width == 0,
        1 <= config.min_width <= config.width_max,
    ensures
        ({
            let after = classes_after(classes, state, config, models, acquires)[class];
            &&& after.seed != 0 ==> after.width == config.min_width && after.changes
                == classes[class].changes.saturating_add(1)
            &&& classes[class].seed == 0 && models[class] is None ==> after.seed == 0
                && after.width == 0 && tick_shares(
                classes,
                state,
                config,
                models,
                acquires,
            )[class] == 0
        }),
{
    let after = classes_after(classes, state, config, models, acquires);
    if classes[class].seed == 0 && models[class] is None {
        let widths = Seq::new(
            classes.len(),
            |class: int|
                if class == UNMANAGED_LOCK_ID {
                    0
                } else {
                    wanted_width(after[class], config)
                },
        );
        let demands = Seq::new(
            classes.len(),
            |class: int|
                if class == UNMANAGED_LOCK_ID {
                    0
                } else {
                    wanted_demand(after[class], window_of(state, models, acquires, class), config)
                },
        );
        law_shares_respect_demand(widths, demands, config.budget, config.min_width);
        let shares = arbitrated(widths, demands, config.budget, config.min_width);
        assert(shares == tick_shares(classes, state, config, models, acquires));
        assert(demands[class] == 0 && widths[class] == 0);
        assert(shares[class] == widths[class]);
    }
}

/// What the model asks for is taken in only as far as the class has threads for it: those
/// at the lock and those behind it, in the window or still. A target that stays within
/// the dead zone of the last one changes nothing.
pub proof fn law_the_target_is_bounded_by_the_threads_there_are(
    classes: Seq<ControllerView>,
    state: ClassState,
    config: TickConfig,
    models: Seq<Option<ModelUpdate>>,
    acquires: Seq<u64>,
    class: int,
    active: int,
    parked: int,
)
    requires
        1 <= class < classes.len() <= CLASS_COUNT,
        !classes[class].absorbed,
        models[class] is Some && models[class]->0.seed is Some,
        models[class]->0.seed->0 >= 1,
        state.class_active matches Some(table) && state.class_active_peak matches Some(marks)
            && active >= table@[class] && active >= marks@[class] && active >= 0 && (active
            == table@[class] || active == marks@[class] || active == 0),
        state.class_inactive_depth matches Some(table)
            && state.class_inactive_depth_peak matches Some(marks) && parked >= table@[class]
            && parked >= marks@[class] && (parked == table@[class] || parked == marks@[class]),
    ensures
        ({
            let asked = models[class]->0.seed->0 as int;
            let threads = if active + parked >= 1 {
                active + parked
            } else {
                1
            };
            let fresh = if asked <= threads {
                asked
            } else {
                threads
            };
            let before = classes[class].seed as int;
            let after = classes_after(classes, state, config, models, acquires)[class];
            &&& after.seed == if before == 0 || fresh - before > config.deadzone || before - fresh
                > config.deadzone {
                fresh
            } else {
                before
            }
            &&& after.cs_ewma_ns == Some(models[class]->0.cs_ewma_ns)
            &&& after.ncs_ewma_ns == Some(models[class]->0.ncs_ewma_ns)
        }),
{
    let window = window_of(state, models, acquires, class);
    assert(window.peak == active);
    assert(window.depth == parked);
}

/// While the CPUs suffice for what the classes ask for, every class is published at the
/// width that it committed.
pub proof fn law_widths_are_published_while_the_budget_lasts(
    widths: Seq<u32>,
    demands: Seq<u32>,
    budget: u32,
    min_width: u32,
)
    requires
        sum(demands) <= budget,
    ensures
        arbitrated(widths, demands, budget, min_width) == widths,
{
    lemma_sum_bound(demands);
}

/// Where they do not suffice, a class gets its part of them: its demand's share of the
/// budget, rounded down, at least, and the floor at least. All CPUs are handed out, and
/// no more of them where no class was lifted to the floor. What rounding leaves over goes
/// to who is furthest below its demand: nobody is left more than one further below than a
/// class that got some of it.
pub proof fn law_a_scarce_budget_is_shared_by_demand(
    widths: Seq<u32>,
    demands: Seq<u32>,
    budget: u32,
    min_width: u32,
)
    requires
        widths.len() == demands.len(),
        budget >= 1,
        min_width >= 1,
        sum(demands) > budget,
    ensures
        ({
            let total = sum(demands);
            let shares = arbitrated(widths, demands, budget, min_width);
            &&& shares.len() == demands.len()
            &&& forall|i: int|
                0 <= i < demands.len() && demands[i] > 0 ==> {
                    &&& (#[trigger] shares[i] + 1) * total > demands[i] * budget
                    &&& shares[i] >= min_width
                    &&& shares[i] <= demands[i] || shares[i] == min_width
                }
            &&& granted_to(shares, demands, shares.len() as int) >= budget
            &&& (forall|i: int|
                0 <= i < demands.len() && #[trigger] demands[i] > 0 ==> demands[i] * budget
                    >= min_width * total) ==> granted_to(shares, demands, shares.len() as int)
                == budget
            &&& forall|i: int, j: int|
                #![trigger shares[i], shares[j]]
                0 <= i < demands.len() && 0 <= j < demands.len() && demands[i] > 0 && demands[j] > 0
                    && shares[i] > min_width && shares[i] * total > demands[i] * budget ==> demands[j]
                    - shares[j] <= demands[i] - shares[i] + 1
        }),
{
    let total = sum(demands);
    let b = budget as int;
    let n = demands.len() as int;
    let scaled = scaled_shares(widths, demands, b, min_width as int);
    let left = b - granted_to(scaled, demands, n);
    let shares = arbitrated(widths, demands, budget, min_width);
    law_shares_respect_demand(widths, demands, budget, min_width);
    law_scarce_budget_is_handed_out(widths, demands, budget, min_width);
    lemma_topped_up_is_fair(scaled, demands, left);
    assert(shares == topped_up(scaled, demands, left));
    assert forall|i: int| 0 <= i < n && demands[i] > 0 implies ({
        &&& (#[trigger] shares[i] + 1) * total > demands[i] * budget
        &&& shares[i] >= min_width
        &&& shares[i] <= demands[i] || shares[i] == min_width
    }) by {
        assert(share_within(shares[i], widths[i], demands[i], min_width));
        lemma_scaled_value(demands[i], b, total);
        lemma_scaled_share(demands[i], b, total);
        assert(shares[i] >= scaled[i]);
        let s = shares[i] as int;
        let q = demands[i] as int * b / total;
        assert((s + 1) * total >= (q + 1) * total) by (nonlinear_arith)
            requires
                s >= q,
                total > 0,
        ;
    }
    if forall|i: int|
        0 <= i < n && #[trigger] demands[i] > 0 ==> demands[i] * budget >= min_width * total {
        lemma_scaled_total(widths, demands, b, min_width as int, n);
        assert(demands.take(n) =~= demands);
        assert(granted_to(scaled, demands, n) <= b) by (nonlinear_arith)
            requires
                granted_to(scaled, demands, n) * total <= total * b,
                total > 0,
        ;
    }
    assert forall|i: int, j: int|
        #![trigger shares[i], shares[j]]
        0 <= i < n && 0 <= j < n && demands[i] > 0 && demands[j] > 0 && shares[i] > min_width
            && shares[i] * total > demands[i] * budget implies demands[j] - shares[j] <= demands[i]
        - shares[i] + 1 by {
        lemma_scaled_value(demands[i], b, total);
        lemma_scaled_share(demands[i], b, total);
        let s = shares[i] as int;
        let q = demands[i] as int * b / total;
        if s <= q {
            assert(s * total <= q * total) by (nonlinear_arith)
                requires
                    s <= q,
                    total > 0,
            ;
        }
        assert(shares[i] > scaled[i]);
    }
}

/// The quotient that a share is, by cross-multiplication.
proof fn lemma_scaled_value(demand: u32, budget: int, total: int)
    requires
        total > 0,
        budget >= 0,
    ensures
        ({
            let q = demand as int * budget / total;
            &&& q * total <= demand * budget
            &&& demand * budget < (q + 1) * total
        }),
{
    let product = demand as int * budget;
    vstd::arithmetic::div_mod::lemma_fundamental_div_mod(product, total);
    vstd::arithmetic::div_mod::lemma_mod_bound(product, total);
    let q = product / total;
    assert(q * total <= product < (q + 1) * total) by (nonlinear_arith)
        requires
            product == total * q + product % total,
            0 <= product % total < total,
    ;
}

/// Where no share is lifted to the floor, they come to no more than the budget.
proof fn lemma_scaled_total(
    widths: Seq<u32>,
    demands: Seq<u32>,
    budget: int,
    floor: int,
    n: int,
)
    requires
        widths.len() == demands.len(),
        0 <= n <= demands.len(),
        0 < budget < sum(demands),
        budget <= u32::MAX,
        forall|i: int|
            0 <= i < demands.len() && #[trigger] demands[i] > 0 ==> demands[i] * budget >= floor
                * sum(demands),
    ensures
        granted_to(scaled_shares(widths, demands, budget, floor), demands, n) * sum(demands)
            <= sum(demands.take(n)) * budget,
    decreases n,
{
    let total = sum(demands);
    let scaled = scaled_shares(widths, demands, budget, floor);
    if n == 0 {
        assert(demands.take(0) =~= Seq::<u32>::empty());
    } else {
        lemma_scaled_total(widths, demands, budget, floor, n - 1);
        assert(demands.take(n).drop_last() =~= demands.take(n - 1));
        let d = demands[n - 1];
        let before = granted_to(scaled, demands, n - 1);
        let s = sum(demands.take(n - 1));
        if d > 0 {
            lemma_scaled_value(d, budget, total);
            lemma_scaled_share(d, budget, total);
            let q = d as int * budget / total;
            if q < floor {
                assert((q + 1) * total <= floor * total) by (nonlinear_arith)
                    requires
                        q + 1 <= floor,
                        total > 0,
                ;
            }
            assert(scaled[n - 1] == q);
            assert((before + q) * total <= (s + d) * budget) by (nonlinear_arith)
                requires
                    before * total <= s * budget,
                    q * total <= d * budget,
            ;
        }
    }
}

/// Who got some of what was left over is at most one nearer to its demand than anybody.
proof fn lemma_topped_up_is_fair(shares: Seq<u32>, demands: Seq<u32>, left: int)
    requires
        shares.len() == demands.len(),
    ensures
        ({
            let after = topped_up(shares, demands, left);
            &&& after.len() == shares.len()
            &&& forall|i: int| 0 <= i < shares.len() ==> #[trigger] after[i] >= shares[i]
            &&& forall|i: int, j: int|
                #![trigger after[i], after[j]]
                0 <= i < shares.len() && 0 <= j < shares.len() && after[i] > shares[i] ==> demands[j]
                    - after[j] <= demands[i] - after[i] + 1
        }),
    decreases left,
{
    if left > 0 {
        lemma_neediest(shares, demands, shares.len() as int);
        match neediest(shares, demands, shares.len() as int) {
            Some(class) => {
                let next = shares.update(class, (shares[class] + 1) as u32);
                lemma_topped_up_is_fair(next, demands, left - 1);
                let after = topped_up(shares, demands, left);
                assert forall|i: int| 0 <= i < shares.len() implies #[trigger] after[i]
                    >= shares[i] by {
                    assert(after[i] >= next[i]);
                }
                assert forall|i: int, j: int|
                    #![trigger after[i], after[j]]
                    0 <= i < shares.len() && 0 <= j < shares.len() && after[i]
                        > shares[i] implies demands[j] - after[j] <= demands[i] - after[i] + 1 by {
                    if after[i] == next[i] {
                        assert(i == class);
                        assert(after[j] >= next[j] >= shares[j]);
                        lemma_neediest_is_furthest(shares, demands, shares.len() as int, j);
                    }
                }
            },
            None => {},
        }
    }
}

proof fn lemma_neediest_is_furthest(shares: Seq<u32>, demands: Seq<u32>, n: int, j: int)
    requires
        shares.len() == demands.len(),
        0 <= j < n <= shares.len(),
    ensures
        neediest(shares, demands, n) matches Some(best) ==> 0 <= best < n && demands[j] - shares[j]
            <= demands[best] - shares[best],
        neediest(shares, demands, n) is None ==> demands[j] <= shares[j],
    decreases n,
{
    lemma_neediest(shares, demands, n);
    lemma_neediest(shares, demands, n - 1);
    if j < n - 1 {
        lemma_neediest_is_furthest(shares, demands, n - 1, j);
    } else if n > 1 && neediest(shares, demands, n - 1) is None {
    }
}

/// Committing a width keeps it as the last of the recent ones: those before it stay, and
/// only once there are eight does the oldest go.
pub proof fn law_recent_widths_end_with_the_last(entry: ControllerView, width: u32, acquires: u64)
    requires
        entry.history.len() <= 8,
    ensures
        ({
            let after = entry.committed(width, acquires);
            let n = after.history.len() as int;
            &&& after.width == width
            &&& n == if entry.history.len() < 8 {
                entry.history.len() + 1
            } else {
                8
            }
            &&& after.history[n - 1] == width
            &&& forall|k: int|
                0 < k < n ==> #[trigger] after.history[n - 1 - k] == entry.history[entry.history.len()
                    - k]
            &&& after.ticks_since_change == 0
            &&& after.acquires_at_change == acquires
            &&& after.seed == entry.seed
            &&& after.published == entry.published
        }),
{
}

/// A class that others were merged into serves what all of them served: once all merges
/// are folded it is at least as wide as each of them was, and asks for at least as much.
pub proof fn law_a_merge_keeps_the_wider_width(
    classes: Seq<ControllerView>,
    canonical: Seq<usize>,
    acquires: Seq<u64>,
    class: int,
    n: int,
)
    requires
        classes.len() == canonical.len() == acquires.len(),
        1 <= class < n <= classes.len(),
        renamed(class, canonical),
        !classes[class].absorbed,
        canonical[canonical[class] as int] == canonical[class],
        forall|c: int| 1 <= c < n && c != class ==> #[trigger] canonical[c] != class,
    ensures
        ({
            let after = folded(classes, canonical, acquires, n);
            let target = canonical[class] as int;
            &&& after[target].width >= classes[class].width
            &&& after[target].width >= classes[target].width
            &&& after[target].seed >= classes[class].seed
            &&& after[target].seed >= classes[target].seed
            &&& after[class].absorbed && after[class].width == 0 && after[class].seed == 0
        }),
    decreases n,
{
    let target = canonical[class] as int;
    lemma_folding_only_widens(classes, canonical, acquires, target, class);
    lemma_untouched(classes, canonical, acquires, class, class);
    lemma_folded_len(classes, canonical, acquires, class);
    let before = folded(classes, canonical, acquires, class);
    let just = folded(classes, canonical, acquires, class + 1);
    assert(before[class] == classes[class]);
    assert(just == fold_class(before, canonical, acquires, class));
    assert(just[target].width >= classes[class].width);
    lemma_folding_goes_on(classes, canonical, acquires, class, target, class + 1, n);
}

proof fn lemma_folded_len(
    classes: Seq<ControllerView>,
    canonical: Seq<usize>,
    acquires: Seq<u64>,
    n: int,
)
    requires
        classes.len() == canonical.len() == acquires.len(),
        n <= classes.len(),
    ensures
        folded(classes, canonical, acquires, n).len() == classes.len(),
    decreases n,
{
    if n > 1 {
        lemma_folded_len(classes, canonical, acquires, n - 1);
        let before = folded(classes, canonical, acquires, n - 1);
        assert(fold_class(before, canonical, acquires, n - 1).len() == before.len());
    }
}

/// A class that is not renamed only gets wider.
proof fn lemma_folding_only_widens(
    classes: Seq<ControllerView>,
    canonical: Seq<usize>,
    acquires: Seq<u64>,
    target: int,
    n: int,
)
    requires
        classes.len() == canonical.len() == acquires.len(),
        0 <= target < classes.len(),
        canonical[target] == target,
        n <= classes.len(),
    ensures
        folded(classes, canonical, acquires, n)[target].width >= classes[target].width,
        folded(classes, canonical, acquires, n)[target].seed >= classes[target].seed,
    decreases n,
{
    if n > 1 {
        lemma_folding_only_widens(classes, canonical, acquires, target, n - 1);
        lemma_folded_len(classes, canonical, acquires, n - 1);
    }
}

/// A class that nothing was merged into, and whose own turn has not come, is untouched.
proof fn lemma_untouched(
    classes: Seq<ControllerView>,
    canonical: Seq<usize>,
    acquires: Seq<u64>,
    class: int,
    n: int,
)
    requires
        classes.len() == canonical.len() == acquires.len(),
        1 <= class < classes.len(),
        n <= class,
        forall|c: int| 1 <= c < class ==> #[trigger] canonical[c] != class,
    ensures
        folded(classes, canonical, acquires, n)[class] == classes[class],
    decreases n,
{
    if n > 1 {
        lemma_untouched(classes, canonical, acquires, class, n - 1);
        lemma_folded_len(classes, canonical, acquires, n - 1);
        assert(canonical[n - 1] != class);
    }
}

proof fn lemma_folding_goes_on(
    classes: Seq<ControllerView>,
    canonical: Seq<usize>,
    acquires: Seq<u64>,
    class: int,
    target: int,
    from: int,
    n: int,
)
    requires
        classes.len() == canonical.len() == acquires.len(),
        1 <= class < from <= n <= classes.len(),
        0 <= target < classes.len(),
        target != class,
        canonical[target] == target,
        forall|c: int| 1 <= c < n && c != class ==> #[trigger] canonical[c] != class,
    ensures
        ({
            let was = folded(classes, canonical, acquires, from);
            let after = folded(classes, canonical, acquires, n);
            &&& after[target].width >= was[target].width
            &&& after[target].seed >= was[target].seed
            &&& after[class] == was[class]
        }),
    decreases n - from,
{
    if from < n {
        lemma_folding_goes_on(classes, canonical, acquires, class, target, from, n - 1);
        lemma_folded_len(classes, canonical, acquires, n - 1);
        assert(canonical[n - 1] != class);
    }
}

/// A thread claims the window of a tick where a window has passed since the last one, and
/// the first thread of all starts the clock. Nobody else does anything.
pub proof fn law_a_tick_is_claimed_once_its_window_passed(
    last_tick: u64,
    now_ns: u64,
    window_ns: u64,
)
    requires
        window_ns > 0,
    ensures
        (decision_of(last_tick, now_ns, window_ns) == TickDecision::Start) == (last_tick == 0),
        last_tick > 0 ==> (decision_of(last_tick, now_ns, window_ns) == TickDecision::Run) == (
        now_ns >= last_tick + window_ns),
{
}

// What the settings mean, by how they are written.
/// A number with one sign before it, and another after it, has none of them in it.
proof fn lemma_digits_hold_no_mark(n: nat)
    ensures
        forall|i: int|
            0 <= i < text::decimal(n).len() ==> #[trigger] text::decimal(n)[i] != ':'
                && text::decimal(n)[i] != '-' && text::decimal(n)[i] != ',',
{
    text::lemma_decimal(n);
    assert forall|i: int| 0 <= i < text::decimal(n).len() implies #[trigger] text::decimal(n)[i]
        != ':' && text::decimal(n)[i] != '-' && text::decimal(n)[i] != ',' by {
        assert(text::is_digit(text::decimal(n)[i]));
    }
}

/// Two numbers with a mark between them, taken apart again.
proof fn lemma_pair(first: nat, mark: char, second: nat)
    requires
        mark == ':' || mark == '-',
    ensures
        ({
            let entry = text::decimal(first) + seq![mark] + text::decimal(second);
            let at = text::find_from(entry, mark, 0);
            &&& text::trim(entry) == entry
            &&& at == text::decimal(first).len() < entry.len()
            &&& text::trim(entry.subrange(0, at)) == text::decimal(first)
            &&& text::trim(entry.subrange(at + 1, entry.len() as int)) == text::decimal(second)
        }),
{
    let entry = text::decimal(first) + seq![mark] + text::decimal(second);
    let empty = Seq::<char>::empty();
    text::lemma_decimal(first);
    text::lemma_decimal(second);
    lemma_digits_hold_no_mark(first);
    text::law_a_text_splits_at_its_separators(text::decimal(first), mark, text::decimal(second));
    let at = text::decimal(first).len() as int;
    assert(entry.subrange(0, at) =~= text::decimal(first));
    assert(entry.subrange(at + 1, entry.len() as int) =~= text::decimal(second));
    assert(entry[0] == text::decimal(first)[0]);
    assert(entry[entry.len() - 1] == text::decimal(second)[text::decimal(second).len() - 1]);
    text::law_trimming_leaves_the_text(empty, entry, empty);
    text::law_trimming_leaves_the_text(empty, text::decimal(first), empty);
    text::law_trimming_leaves_the_text(empty, text::decimal(second), empty);
}

/// A class map entry gives the class before the colon the width after it, at most 4096.
/// One for class 0, or past the last class, gives nothing.
pub proof fn law_a_class_map_entry_names_a_class_and_its_width(class: nat, width: nat)
    requires
        width <= u32::MAX,
    ensures
        ({
            let entry = text::decimal(class) + seq![':'] + text::decimal(width);
            class_map_entry(entry) == if 1 <= class < 64 {
                Some(
                    (
                        class as int,
                        (if width <= 4096 {
                            width
                        } else {
                            4096
                        }) as u32,
                    ),
                )
            } else {
                None
            }
        }),
        class_map_entry(text::decimal(class)) is None,
{
    lemma_pair(class, ':', width);
    text::law_a_number_reads_as_it_was_written(class, u32::MAX as int);
    text::law_a_number_reads_as_it_was_written(width, u32::MAX as int);
    lemma_digits_hold_no_mark(class);
    text::lemma_decimal(class);
    let empty = Seq::<char>::empty();
    text::law_trimming_leaves_the_text(empty, text::decimal(class), empty);
    text::lemma_find_from(text::decimal(class), ':', 0);
}

/// An entry sets the width of its class alone, over what the entries before it set.
pub proof fn law_the_last_entry_of_a_class_counts(
    widths: Seq<u32>,
    entries: Seq<Seq<char>>,
    class: nat,
    width: nat,
)
    requires
        widths.len() == CLASS_COUNT,
        1 <= class < 64,
        width <= 4096,
    ensures
        ({
            let entry = text::decimal(class) + seq![':'] + text::decimal(width);
            let before = with_entries(widths, entries);
            let after = with_entries(widths, entries.push(entry));
            &&& after.len() == before.len() == CLASS_COUNT
            &&& after[class as int] == width
            &&& forall|c: int| 0 <= c < CLASS_COUNT && c != class ==> #[trigger] after[c]
                == before[c]
        }),
{
    let entry = text::decimal(class) + seq![':'] + text::decimal(width);
    law_a_class_map_entry_names_a_class_and_its_width(class, width);
    assert(entries.push(entry).drop_last() =~= entries);
    lemma_entries_len(widths, entries);
}

proof fn lemma_entries_len(widths: Seq<u32>, entries: Seq<Seq<char>>)
    requires
        widths.len() == CLASS_COUNT,
    ensures
        with_entries(widths, entries).len() == widths.len(),
    decreases entries.len(),
{
    if entries.len() > 0 {
        lemma_entries_len(widths, entries.drop_last());
        let entry = text::trim(entries.last());
        let colon = text::find_from(entry, ':', 0);
        if class_map_entry(entries.last()) is Some {
            text::law_only_digits_read_as_a_number(
                text::trim(entry.subrange(0, colon)),
                u32::MAX as int,
            );
        }
    }
}

/// A fixed width holds for every class but the unmanaged one, and what the class map says
/// of a class goes over it.
pub proof fn law_a_fixed_width_holds_for_every_managed_class(width: nat, class: nat, other: nat)
    requires
        width <= u32::MAX,
        1 <= class < 64,
        other <= 4096,
    ensures
        ({
            let entry = text::decimal(class) + seq![':'] + text::decimal(other);
            let fixed = static_widths(Some(text::decimal(width)), None)->0;
            let both = static_widths(Some(text::decimal(width)), Some(entry))->0;
            let mapped = static_widths(None, Some(entry))->0;
            &&& fixed.len() == both.len() == mapped.len() == 64
            &&& fixed[0] == 0 && both[0] == 0 && mapped[0] == 0
            &&& forall|c: int|
                1 <= c < 64 ==> #[trigger] fixed[c] == if width <= 4096 {
                    width
                } else {
                    4096
                }
            &&& forall|c: int|
                1 <= c < 64 ==> #[trigger] both[c] == if c == class {
                    other as u32
                } else {
                    fixed[c]
                }
            &&& forall|c: int|
                1 <= c < 64 ==> #[trigger] mapped[c] == if c == class {
                    other as u32
                } else {
                    0
                }
        }),
        static_widths(None, None) is None,
{
    let entry = text::decimal(class) + seq![':'] + text::decimal(other);
    let empty = Seq::<char>::empty();
    text::lemma_decimal(width);
    text::law_trimming_leaves_the_text(empty, text::decimal(width), empty);
    text::law_a_number_reads_as_it_was_written(width, u32::MAX as int);
    lemma_digits_hold_no_mark(class);
    lemma_digits_hold_no_mark(other);
    assert forall|i: int| 0 <= i < entry.len() implies entry[i] != ',' by {
        let n = text::decimal(class).len() as int;
        if i < n {
            assert(entry[i] == text::decimal(class)[i]);
        } else if i > n {
            assert(entry[i] == text::decimal(other)[i - n - 1]);
        }
    }
    text::law_a_text_splits_at_its_separators(entry, ',', empty);
    let fixed = static_widths(Some(text::decimal(width)), None)->0;
    let nothing = Seq::<Seq<char>>::empty();
    assert(nothing.push(entry) =~= seq![entry]);
    law_the_last_entry_of_a_class_counts(fixed, nothing, class, other);
    let mapped = static_widths(None, Some(entry))->0;
    let base = Seq::new(
        CLASS_COUNT as nat,
        |class: int| if class == UNMANAGED_LOCK_ID { 0 } else { 0u32 },
    );
    law_the_last_entry_of_a_class_counts(base, nothing, class, other);
    assert(mapped == with_entries(base, nothing.push(entry)));
}

/// A CPU list counts each of its ranges from first to last, both of them with it, and a
/// single CPU as one. A range that runs backwards has no CPU in it.
pub proof fn law_a_cpu_range_counts_both_its_ends(first: nat, last: nat)
    requires
        first <= u32::MAX,
        last <= u32::MAX,
    ensures
        entry_cpus(text::decimal(first) + seq!['-'] + text::decimal(last)) == if first <= last {
            last - first + 1
        } else {
            0
        },
        entry_cpus(text::decimal(first)) == 1,
{
    lemma_pair(first, '-', last);
    text::law_a_number_reads_as_it_was_written(first, u32::MAX as int);
    text::law_a_number_reads_as_it_was_written(last, u32::MAX as int);
    lemma_digits_hold_no_mark(first);
    text::lemma_decimal(first);
    let empty = Seq::<char>::empty();
    text::law_trimming_leaves_the_text(empty, text::decimal(first), empty);
    text::lemma_find_from(text::decimal(first), '-', 0);
}

/// The entries of a CPU list are counted each on its own.
pub proof fn law_a_cpu_list_counts_all_its_entries(entry: Seq<char>, rest: Seq<char>)
    requires
        entry.len() > 0,
        rest.len() > 0,
        text::is_tight(entry),
        text::is_tight(rest),
        forall|i: int| 0 <= i < entry.len() ==> entry[i] != ',',
    ensures
        cpulist_len(entry + seq![','] + rest) == cpulist_len(entry) + cpulist_len(rest),
        cpulist_len(entry) == entry_cpus(entry),
{
    text::law_a_text_splits_at_its_separators(entry, ',', rest);
    let empty = Seq::<char>::empty();
    let whole = entry + seq![','] + rest;
    assert(whole[0] == entry[0]);
    assert(whole[whole.len() - 1] == rest[rest.len() - 1]);
    text::law_trimming_leaves_the_text(empty, whole, empty);
    text::law_trimming_leaves_the_text(empty, entry, empty);
    text::law_trimming_leaves_the_text(empty, rest, empty);
    let pieces = text::split(rest, ',');
    lemma_listed_in_front(entry, pieces);
    assert(seq![entry].drop_last() =~= Seq::<Seq<char>>::empty());
    assert(cpus_listed(seq![entry]) == cpus_listed(Seq::<Seq<char>>::empty()) + entry_cpus(entry));
}

proof fn lemma_listed_in_front(entry: Seq<char>, pieces: Seq<Seq<char>>)
    ensures
        cpus_listed(seq![entry] + pieces) == entry_cpus(entry) + cpus_listed(pieces),
    decreases pieces.len(),
{
    let whole = seq![entry] + pieces;
    if pieces.len() == 0 {
        assert(whole =~= seq![entry]);
        assert(whole.drop_last() =~= Seq::<Seq<char>>::empty());
        assert(cpus_listed(whole.drop_last()) == 0);
    } else {
        assert(whole.drop_last() =~= seq![entry] + pieces.drop_last());
        assert(whole.last() == pieces.last());
        lemma_listed_in_front(entry, pieces.drop_last());
    }
}

/// A tick window that is set to a number of nanoseconds is that long, and otherwise ten
/// milliseconds.
pub proof fn law_a_tick_window_is_what_is_set(n: nat)
    requires
        n <= u64::MAX,
    ensures
        tick_window_setting(Some(text::decimal(n))) == if n > 0 {
            n as int
        } else {
            10_000_000
        },
        tick_window_setting(None) == 10_000_000,
{
    text::lemma_decimal(n);
    let empty = Seq::<char>::empty();
    text::law_trimming_leaves_the_text(empty, text::decimal(n), empty);
    text::law_a_number_reads_as_it_was_written(n, u64::MAX as int);
}

proof fn lemma_sum_grows(a: Seq<u32>, b: Seq<u32>)
    requires
        a.len() == b.len(),
        forall|i: int| 0 <= i < a.len() ==> #[trigger] a[i] <= b[i],
    ensures
        sum(a) <= sum(b),
    decreases a.len(),
{
    if a.len() > 0 {
        lemma_sum_grows(a.drop_last(), b.drop_last());
        assert(a[a.len() - 1] <= b[b.len() - 1]);
    }
}

/// While the CPUs suffice for the widths that the classes committed, a tick publishes just
/// those; and whether they suffice or not, it leaves the width of a class that had nobody
/// in it or behind it alone.
pub proof fn law_a_tick_publishes_what_the_classes_committed(
    classes: Seq<ControllerView>,
    state: ClassState,
    config: TickConfig,
    models: Seq<Option<ModelUpdate>>,
    acquires: Seq<u64>,
    class: int,
)
    requires
        1 <= class < classes.len() <= CLASS_COUNT,
        1 <= config.min_width <= config.width_max,
        ({
            let after = classes_after(classes, state, config, models, acquires);
            &&& forall|c: int|
                1 <= c < classes.len() && !(#[trigger] after[c]).absorbed && after[c].seed != 0
                    ==> config.min_width <= after[c].width <= config.width_max
            &&& !after[class].absorbed
            &&& after[class].seed != 0
            &&& sum(Seq::new(classes.len(), |c: int| if c == 0 { 0 } else { after[c].width }))
                <= config.budget || {
                &&& state.class_active matches Some(table) ==> table@[class] <= 0
                &&& state.class_active_peak matches Some(table) ==> table@[class] == 0
                &&& state.class_inactive_depth matches Some(table) ==> table@[class] == 0
                &&& state.class_inactive_depth_peak matches Some(table) ==> table@[class] == 0
            }
        }),
    ensures
        tick_shares(classes, state, config, models, acquires)[class] == classes_after(
            classes,
            state,
            config,
            models,
            acquires,
        )[class].width,
{
    let after = classes_after(classes, state, config, models, acquires);
    let widths = Seq::new(
        classes.len(),
        |class: int|
            if class == UNMANAGED_LOCK_ID {
                0
            } else {
                wanted_width(after[class], config)
            },
    );
    let demands = Seq::new(
        classes.len(),
        |class: int|
            if class == UNMANAGED_LOCK_ID {
                0
            } else {
                wanted_demand(after[class], window_of(state, models, acquires, class), config)
            },
    );
    let all = Seq::new(classes.len(), |c: int| if c == 0 { 0 } else { after[c].width });
    assert(widths[class] == after[class].width);
    assert(tick_shares(classes, state, config, models, acquires) == arbitrated(
        widths,
        demands,
        config.budget,
        config.min_width,
    ));
    if sum(all) <= config.budget {
        assert forall|c: int| 0 <= c < demands.len() implies #[trigger] demands[c] <= all[c] by {
            if c != 0 && !after[c].absorbed && after[c].seed != 0 {
                assert(config.min_width <= after[c].width <= config.width_max);
            }
        }
        lemma_sum_grows(demands, all);
        law_widths_are_published_while_the_budget_lasts(
            widths,
            demands,
            config.budget,
            config.min_width,
        );
    } else {
        assert(demands[class] == 0);
        law_shares_respect_demand(widths, demands, config.budget, config.min_width);
    }
}

/// A class asks for as many CPUs as it had threads at the lock or behind it, no more than
/// its width, and the floor at least; where there were none it asks for none.
pub proof fn law_a_class_asks_for_the_threads_it_had(
    width: u32,
    peak: u32,
    depth: u32,
    min_width: u32,
    width_max: u32,
)
    requires
        1 <= min_width <= width <= width_max,
    ensures
        ({
            let asked = demand_of(width, peak, depth, min_width, width_max) as int;
            let threads = peak + depth;
            &&& asked == 0 <==> threads == 0
            &&& threads > 0 ==> min_width <= asked <= width
            &&& min_width <= threads <= width ==> asked == threads
            &&& threads > width ==> asked == width
            &&& 0 < threads < min_width ==> asked == min_width
        }),
{
}

/// Without an answer of the model a class keeps its target and what was measured of it. An
/// answer without a target renews what was measured alone. Every window counts towards
/// the time that the width was in force, and one of a merged class towards nothing.
pub proof fn law_a_target_stays_without_an_answer(
    classes: Seq<ControllerView>,
    state: ClassState,
    config: TickConfig,
    models: Seq<Option<ModelUpdate>>,
    acquires: Seq<u64>,
    class: int,
)
    requires
        1 <= class < classes.len() <= CLASS_COUNT,
    ensures
        ({
            let before = classes[class];
            let after = classes_after(classes, state, config, models, acquires)[class];
            &&& before.absorbed ==> after == before
            &&& !before.absorbed && models[class] is None ==> after.seed == before.seed
                && after.cs_ewma_ns == before.cs_ewma_ns && after.ncs_ewma_ns
                == before.ncs_ewma_ns
            &&& !before.absorbed && models[class] is Some && models[class]->0.seed is None
                ==> after.seed == before.seed && after.cs_ewma_ns == Some(
                models[class]->0.cs_ewma_ns,
            ) && after.ncs_ewma_ns == Some(models[class]->0.ncs_ewma_ns)
            &&& !before.absorbed && after.width == before.width && before.ticks_since_change
                < u32::MAX ==> after.ticks_since_change == before.ticks_since_change + 1
                && after.acquires_at_change == before.acquires_at_change
            &&& !before.absorbed && after.width != before.width ==> after.ticks_since_change == 0
                && after.acquires_at_change == acquires[class]
            &&& after.published == before.published
        }),
{
}

/// A class that another one was merged into keeps what was measured of itself, and takes
/// over what was measured of the other where nothing was; its width is new to it.
pub proof fn law_a_merge_keeps_what_was_measured(
    class: ControllerView,
    other: ControllerView,
    acquires: u64,
)
    ensures
        ({
            let after = class.with_absorbed(other, acquires);
            &&& class.cs_ewma_ns is Some ==> after.cs_ewma_ns == class.cs_ewma_ns
            &&& class.cs_ewma_ns is None ==> after.cs_ewma_ns == other.cs_ewma_ns
            &&& class.ncs_ewma_ns is Some ==> after.ncs_ewma_ns == class.ncs_ewma_ns
            &&& class.ncs_ewma_ns is None ==> after.ncs_ewma_ns == other.ncs_ewma_ns
            &&& after.width >= class.width && after.width >= other.width
            &&& after.width == class.width || after.width == other.width
            &&& after.seed >= class.seed && after.seed >= other.seed
            &&& after.seed == class.seed || after.seed == other.seed
            &&& after.ticks_since_change == 0
            &&& after.acquires_at_change == acquires
            &&& after.published == class.published
            &&& after.absorbed == class.absorbed
        }),
{
}

/// The floor is at least one and never above the cap, and what was set where it can be.
pub proof fn law_the_floor_stays_under_the_cap(min_width: u32, width_max: u32)
    ensures
        1 <= floor_under(min_width, width_max),
        width_max >= 1 ==> floor_under(min_width, width_max) <= width_max,
        1 <= min_width <= width_max ==> floor_under(min_width, width_max) == min_width,
        1 <= width_max < min_width ==> floor_under(min_width, width_max) == width_max,
        width_max == 0 ==> floor_under(min_width, width_max) == 1,
{
}

/// A tick uses the marks of the window up, and publishes the shares of the managed classes;
/// the unmanaged class is left alone. A scheduler that shows no table has none to change.
pub proof fn law_a_tick_uses_the_marks_up(
    marks: Option<[u32; CLASS_COUNT]>,
    marks_after: Option<[u32; CLASS_COUNT]>,
    widths: Option<[u32; CLASS_COUNT]>,
    widths_after: Option<[u32; CLASS_COUNT]>,
    shares: Seq<u32>,
    class: int,
)
    requires
        managed_cleared(marks, marks_after),
        managed_set(widths, widths_after, shares),
        1 <= class < 64,
    ensures
        marks_after is Some == marks is Some,
        widths_after is Some == widths is Some,
        marks_after is Some ==> marks_after->0@[class] == 0 && marks_after->0@[0] == marks->0@[0],
        widths_after is Some ==> widths_after->0@[class] == shares[class] && widths_after->0@[0]
            == widths->0@[0],
{
}

/// A new class takes no part in the loop until the model gives it a target, and then at the
/// floor; merging it into another one leaves that one as wide as it was.
pub proof fn law_a_new_class_is_unlimited_until_measured(
    classes: Seq<ControllerView>,
    state: ClassState,
    config: TickConfig,
    models: Seq<Option<ModelUpdate>>,
    acquires: Seq<u64>,
    class: int,
    other: ControllerView,
)
    requires
        1 <= class < classes.len() <= CLASS_COUNT,
        classes[class] == fresh_controller(),
        1 <= config.min_width <= config.width_max,
    ensures
        ({
            let after = classes_after(classes, state, config, models, acquires)[class];
            &&& models[class] is None ==> after.width == 0 && after.seed == 0 && after.changes == 0
            &&& models[class] is Some && models[class]->0.seed is Some && models[class]->0.seed->0
                > 0 ==> after.width == config.min_width && after.changes == 1 && after.history
                == seq![config.min_width]
        }),
        fresh_controller().vote.direction == 0,
        fresh_controller().vote.windows == 0,
        fresh_controller().acquires_at_change == 0,
        fresh_controller().ticks_since_change == 0,
        fresh_controller().published == 0,
        !fresh_controller().absorbed,
        other.with_absorbed(fresh_controller(), 0).width == other.width,
        other.with_absorbed(fresh_controller(), 0).seed == other.seed,
        other.with_absorbed(fresh_controller(), 0).cs_ewma_ns == other.cs_ewma_ns,
{
    let after = classes_after(classes, state, config, models, acquires)[class];
    if models[class] is Some && models[class]->0.seed is Some && models[class]->0.seed->0 > 0 {
        assert(after.history =~= seq![config.min_width]);
    }
}

/// Of classes that are equally far below their demand the first gets what is left over.
pub proof fn law_the_first_of_equals_is_neediest(
    shares: Seq<u32>,
    demands: Seq<u32>,
    n: int,
    j: int,
)
    requires
        shares.len() == demands.len(),
        0 <= n <= shares.len(),
    ensures
        neediest(shares, demands, n) matches Some(best) ==> {
            &&& 0 <= best < n
            &&& shares[best] < demands[best]
            &&& 0 <= j < best && demands[j] > 0 ==> demands[j] - shares[j] < demands[best]
                - shares[best]
            &&& best < j < n ==> demands[j] - shares[j] <= demands[best] - shares[best]
        },
    decreases n,
{
    if n > 0 {
        law_the_first_of_equals_is_neediest(shares, demands, n - 1, j);
        lemma_neediest(shares, demands, n);
        lemma_neediest(shares, demands, n - 1);
        if 0 <= j < n {
            lemma_neediest_is_furthest(shares, demands, n, j);
        }
        if 0 <= j < n - 1 {
            lemma_neediest_is_furthest(shares, demands, n - 1, j);
        }
    }
}

/// The probe span is what was allocated, but never more than the managed classes, and an
/// entry of a table that is not shown, or past its end, is nothing.
pub proof fn law_a_probe_span_covers_managed_classes(
    allocated: u32,
    table: Option<[u32; CLASS_COUNT]>,
    class: int,
)
    ensures
        allocated <= 63 ==> probe_span(allocated) == allocated,
        allocated > 63 ==> probe_span(allocated) == 63,
        table is None || class < 0 || class >= 64 ==> entry_of(table, class) == 0,
        table is Some && 0 <= class < 64 ==> entry_of(table, class) == table->0@[class],
{
}

/// A width is published for its class alone, and nowhere where the scheduler shows no table
/// or has no such class.
pub proof fn law_a_width_is_published_for_its_class(
    before: Option<[u32; CLASS_COUNT]>,
    after: Option<[u32; CLASS_COUNT]>,
    class: int,
    value: u32,
    other: int,
)
    requires
        entry_set(before, after, class, value),
        0 <= other < 64,
        other != class,
    ensures
        after is Some == before is Some,
        after is Some && 0 <= class < 64 ==> after->0@[class] == value,
        after is Some ==> after->0@[other] == before->0@[other],
{
}

} // verus!
