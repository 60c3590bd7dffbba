use accordin::heatmap::{
    dynamic_cpu_candidate, heatmap_bin_index, heatmap_bin_lower_ns, heatmap_bin_upper_ns,
    sampled_windows, write_heatmap_csv_to_writer, HeatmapConfig, HeatmapState,
    WindowControlState, WindowEstimate, DYNAMIC_CPU_DISCARD_WINDOWS_AFTER_UPDATE,
};
use accordin::lock_stats::{heatmap_config, HeatmapSettings};

const EWMA_ALPHA: f64 = 0.2;

fn midpoint(bin: usize, max_bin: usize) -> f64 {
    let lower = heatmap_bin_lower_ns(bin);
    let upper = heatmap_bin_upper_ns(bin, max_bin);
    if upper == u64::MAX {
        lower as f64
    } else {
        (lower as f64 + upper as f64) / 2.0
    }
}

fn next_ewma(previous: Option<f64>, value: f64) -> f64 {
    match previous {
        Some(previous) => EWMA_ALPHA * value + (1.0 - EWMA_ALPHA) * previous,
        None => value,
    }
}

fn target_of(critical_ns: f64, outside_ns: f64) -> Option<f64> {
    let usable = critical_ns.is_finite()
        && outside_ns.is_finite()
        && critical_ns > 0.0
        && outside_ns >= 0.0;
    if usable {
        Some(1.0 + outside_ns / critical_ns)
    } else {
        None
    }
}

fn rounded(target: f64) -> usize {
    target.round().clamp(1.0, usize::MAX as f64) as usize
}

/// What a window with these means asks for, from where `control` stands.
fn estimate(control: &WindowControlState, critical: f64, outside: f64) -> WindowEstimate {
    let target = target_of(critical, outside);
    let sum = f64::from_bits(control.stable_dynamic_cpu_target_sum) + target.unwrap_or(0.0);
    let samples = control.stable_dynamic_cpu_target_samples + 1;
    WindowEstimate {
        critical_ewma: critical.to_bits(),
        outside_ewma: outside.to_bits(),
        target: target.map(rounded),
        target_sum: sum.to_bits(),
        averaged: target.map(|_| rounded(sum / samples as f64)),
    }
}

fn confirmed(
    state: &HeatmapState,
    control: &mut WindowControlState,
    critical: f64,
    outside: f64,
) -> Option<usize> {
    let estimate = estimate(control, critical, outside);
    state.confirmed_dynamic_cpu_count(control, &estimate)
}

fn means(state: &HeatmapState, window: u64) -> (f64, f64) {
    let mut samples = 0.0;
    let mut critical = 0.0;
    let mut outside = 0.0;
    for entry in state.windows.entries.iter() {
        if entry.window_index == window {
            let count = entry.count as f64;
            samples += count;
            critical += count * midpoint(entry.critical_bin, state.config.max_bin_index);
            outside += count * midpoint(entry.outside_bin, state.config.max_bin_index);
        }
    }
    if samples == 0.0 {
        (0.0, 0.0)
    } else {
        (critical / samples, outside / samples)
    }
}

fn next_dynamic_cpu_count(state: &mut HeatmapState, current_window: u64) -> Option<usize> {
    let mut count = None;
    let mut last = None;
    while let Some(window) =
        state.next_dynamic_cpu_count(current_window, last.as_ref(), &mut count)
    {
        let (critical, outside) = means(state, window);
        let critical = next_ewma(state.control.critical_mean_ewma.map(f64::from_bits), critical);
        let outside = next_ewma(state.control.outside_mean_ewma.map(f64::from_bits), outside);
        last = Some(estimate(&state.control, critical, outside));
    }
    count
}

#[test]
fn heatmap_bins_follow_power_of_two_ranges() {
    assert_eq!(heatmap_bin_index(0, 8), 0);
    assert_eq!(heatmap_bin_index(1, 8), 1);
    assert_eq!(heatmap_bin_index(2, 8), 2);
    assert_eq!(heatmap_bin_index(3, 8), 2);
    assert_eq!(heatmap_bin_index(4, 8), 3);
    assert_eq!(midpoint(3, 8), 5.5);
    assert_eq!(midpoint(8, 8), 128.0);
    assert_eq!(heatmap_bin_lower_ns(3), 4);
    assert_eq!(heatmap_bin_upper_ns(3, 8), 7);
}

#[test]
fn bins_are_adjacent_and_the_last_one_is_open() {
    for bin in 0..8 {
        assert_eq!(
            heatmap_bin_upper_ns(bin, 8) + 1,
            heatmap_bin_lower_ns(bin + 1)
        );
    }
    assert_eq!(heatmap_bin_upper_ns(8, 8), u64::MAX);
    assert_eq!(heatmap_bin_index(u64::MAX, 8), 8);
}

#[test]
fn heatmap_csv_writes_only_nonzero_bins() {
    let config = HeatmapConfig::new(
        Some("heatmap.csv".to_string()),
        1,
        2,
        2,
        8,
        false,
        2,
        1,
        9,
    );
    let mut state = HeatmapState::new(config);
    state.record_sample(100, 1, 4);
    state.record_sample(101, 1, 4);
    state.record_sample(103, 0, 0);

    let mut ewma: Option<(f64, f64)> = None;
    let mut averages = Vec::new();
    for window in sampled_windows(&state) {
        let (critical, outside) = means(&state, window);
        let next = (
            next_ewma(ewma.map(|pair| pair.0), critical),
            next_ewma(ewma.map(|pair| pair.1), outside),
        );
        ewma = Some(next);
        averages.push(format!(
            "{:.2},{:.2},{:.2},{:.2}",
            critical, outside, next.0, next.1
        ));
    }
    let (csv, summary) = write_heatmap_csv_to_writer("accordin", &state, &averages);

    assert!(csv.contains(
        "stats_label,window_index,window_start_ns,window_end_ns,window_sample_count,window_valid,window_avg_critical_ns_est,window_avg_outside_ns_est,window_avg_critical_ns_ewma,window_avg_outside_ns_ewma,critical_bin_index,critical_bin_lo_ns,critical_bin_hi_ns,outside_bin_index,outside_bin_lo_ns,outside_bin_hi_ns,count"
    ));
    assert!(csv.contains("accordin,0,100,102,2,1,1.00,5.50,1.00,5.50,1,1,1,3,4,7,2"));
    assert!(csv.contains(&format!(
        "accordin,1,102,104,1,0,0.00,0.00,{:.2},{:.2},0,0,0,0,0,0,1",
        1.0 * (1.0 - EWMA_ALPHA),
        5.5 * (1.0 - EWMA_ALPHA),
    )));
    assert_eq!(summary.total_windows, 2);
    assert_eq!(summary.valid_windows, 1);
    assert_eq!(summary.invalid_windows, 1);
}

#[test]
fn dynamic_control_uses_only_completed_valid_windows() {
    let config = HeatmapConfig::new(None, 1, 2, 2, 8, true, 2, 1, 9);
    let mut state = HeatmapState::new(config);
    state.windows.count(0, 1, 1);
    state.windows.count(0, 1, 1);

    assert_eq!(next_dynamic_cpu_count(&mut state, 0), None);
    assert_eq!(next_dynamic_cpu_count(&mut state, 1), Some(2));

    state.windows.count(1, 1, 3);
    assert_eq!(next_dynamic_cpu_count(&mut state, 2), None);
}

#[test]
fn stable_dynamic_cpu_count_ignores_same_rounded_target() {
    let mut control = WindowControlState {
        last_dynamic_cpu_count: Some(9),
        stable_dynamic_cpu_count: true,
        ..WindowControlState::default()
    };

    assert_eq!(dynamic_cpu_candidate(&mut control, rounded(8.60)), None);
    assert!(control.stable_dynamic_cpu_count);
    assert_eq!(dynamic_cpu_candidate(&mut control, rounded(8.10)), Some(8));
    assert!(control.stable_dynamic_cpu_count);
    assert_eq!(
        dynamic_cpu_candidate(&mut control, rounded(13.20)),
        Some(13)
    );
    assert!(control.stable_dynamic_cpu_count);
}

#[test]
fn dynamic_control_requires_nine_large_windows_to_leave_stable_state() {
    let config = HeatmapConfig::new(None, 1, 2, 2, 8, true, 1, 3, 9);
    let state = HeatmapState::new(config);
    let mut control = WindowControlState {
        last_dynamic_cpu_count: Some(9),
        stable_dynamic_cpu_count: true,
        ..WindowControlState::default()
    };

    for _ in 0..8 {
        assert_eq!(confirmed(&state, &mut control, 100.0, 1_220.0), None);
        assert!(control.stable_dynamic_cpu_count);
    }

    assert_eq!(confirmed(&state, &mut control, 100.0, 1_220.0), Some(13));
}

#[test]
fn dynamic_control_requires_three_consecutive_confirmations() {
    let config = HeatmapConfig::new(None, 1, 2, 2, 8, true, 2, 3, 9);
    let mut state = HeatmapState::new(config);
    for window in 0..3 {
        state.windows.count(window, 1, 3);
        state.windows.count(window, 1, 3);
    }

    assert_eq!(next_dynamic_cpu_count(&mut state, 1), None);
    assert_eq!(next_dynamic_cpu_count(&mut state, 2), None);
    assert_eq!(next_dynamic_cpu_count(&mut state, 3), Some(7));
}

#[test]
fn dynamic_control_jumps_directly_to_large_stable_window_average() {
    for initial_cpu_count in [2, 16] {
        let config = HeatmapConfig::new(None, 1, 2, 2, 8, true, 1, 3, 9);
        let state = HeatmapState::new(config);
        let mut control = WindowControlState {
            last_dynamic_cpu_count: Some(initial_cpu_count),
            ..WindowControlState::default()
        };

        for _ in 0..8 {
            assert_eq!(confirmed(&state, &mut control, 100.0, 10_000.0), None);
        }

        assert_eq!(confirmed(&state, &mut control, 100.0, 10_000.0), Some(101));
    }
}

#[test]
fn dynamic_control_enters_stable_after_nine_unchanged_windows() {
    let config = HeatmapConfig::new(None, 1, 2, 2, 8, true, 1, 3, 9);
    let state = HeatmapState::new(config);
    let mut control = WindowControlState {
        last_dynamic_cpu_count: Some(7),
        ..WindowControlState::default()
    };

    for _ in 0..8 {
        assert_eq!(confirmed(&state, &mut control, 1.0, 5.5), None);
        assert!(!control.stable_dynamic_cpu_count);
    }

    assert_eq!(confirmed(&state, &mut control, 1.0, 5.5), None);
    assert!(control.stable_dynamic_cpu_count);
}

#[test]
fn dynamic_control_counts_unconfirmed_drift_toward_stable_state() {
    let config = HeatmapConfig::new(None, 1, 2, 2, 8, true, 1, 3, 9);
    let state = HeatmapState::new(config);
    let mut control = WindowControlState {
        last_dynamic_cpu_count: Some(8),
        ..WindowControlState::default()
    };

    for index in 0..8 {
        let outside_ewma = if index % 2 == 0 { 760.0 } else { 640.0 };
        assert_eq!(confirmed(&state, &mut control, 100.0, outside_ewma), None);
        assert!(!control.stable_dynamic_cpu_count);
    }

    assert_eq!(confirmed(&state, &mut control, 100.0, 760.0), None);
    assert!(control.stable_dynamic_cpu_count);
    assert_eq!(control.pending_dynamic_cpu_count, None);
    assert_eq!(control.pending_dynamic_cpu_confirmations, 0);
}

#[test]
fn dynamic_control_calibrates_small_drift_with_stable_window_average() {
    let config = HeatmapConfig::new(None, 1, 2, 2, 8, true, 1, 3, 9);
    let state = HeatmapState::new(config);
    let mut control = WindowControlState {
        last_dynamic_cpu_count: Some(13),
        ..WindowControlState::default()
    };

    for _ in 0..8 {
        assert_eq!(confirmed(&state, &mut control, 100.0, 1_000.0), None);
    }

    assert_eq!(confirmed(&state, &mut control, 100.0, 1_000.0), Some(11));
    assert!(!control.stable_dynamic_cpu_count);
}

#[test]
fn dynamic_control_applies_small_average_increase_after_stable_window() {
    let config = HeatmapConfig::new(None, 1, 2, 2, 8, true, 1, 3, 9);
    let state = HeatmapState::new(config);
    let mut control = WindowControlState {
        last_dynamic_cpu_count: Some(9),
        ..WindowControlState::default()
    };

    for _ in 0..8 {
        assert_eq!(confirmed(&state, &mut control, 100.0, 1_000.0), None);
    }

    assert_eq!(confirmed(&state, &mut control, 100.0, 1_000.0), Some(11));
    assert!(!control.stable_dynamic_cpu_count);
}

#[test]
fn windows_after_a_change_are_discarded() {
    let config = HeatmapConfig::new(None, 1, 2, 1, 8, true, 1, 1, 9);
    let mut state = HeatmapState::new(config);
    for window in 0..22 {
        state.windows.count(window, 1, 1);
    }

    assert_eq!(state.next_completed_window(22), Some(0));
    let estimate = estimate(&state.control, 1.0, 1.0);
    assert_eq!(state.apply_window_estimate(&estimate), Some(2));
    assert_eq!(
        state.control.dynamic_cpu_discard_windows_remaining,
        DYNAMIC_CPU_DISCARD_WINDOWS_AFTER_UPDATE
    );
    // Twenty windows are passed over, the next one counts again.
    assert_eq!(state.next_completed_window(22), Some(21));
}

#[test]
fn the_last_window_taken_in_decides() {
    let config = HeatmapConfig::new(None, 1, 2, 1, 8, true, 1, 1, 9);
    let mut state = HeatmapState::new(config);
    for window in 0..22 {
        state.windows.count(window, 1, 1);
    }
    assert_eq!(next_dynamic_cpu_count(&mut state, 21), Some(2));
    assert_eq!(state.control.last_dynamic_cpu_count, Some(2));

    let config = HeatmapConfig::new(None, 1, 2, 1, 8, true, 1, 1, 9);
    let mut state = HeatmapState::new(config);
    for window in 0..22 {
        state.windows.count(window, 1, 1);
    }
    // One more window counts after those that are discarded, and asks for nothing.
    assert_eq!(next_dynamic_cpu_count(&mut state, 22), None);
    assert_eq!(state.control.last_dynamic_cpu_count, Some(2));
    assert_eq!(state.control.next_window_index, 22);
}

#[test]
fn a_frozen_control_keeps_its_count() {
    let config = HeatmapConfig::new(None, 1, 2, 1, 8, true, 1, 1, 9);
    let mut state = HeatmapState::new(config);
    state.windows.count(0, 1, 1);
    assert!(!state.dynamic_cpu_affinity_is_stable());

    state.dynamic_cpu_affinity_freeze();
    assert_eq!(state.next_completed_window(1), None);
    assert!(!state.dynamic_cpu_affinity_is_stable());
}

#[test]
fn a_heatmap_needs_a_path_or_a_controlled_cpu_count() {
    let unset = || vec![None];
    let settings = HeatmapSettings {
        path: unset(),
        sample_stride: unset(),
        window_ns: vec![Some("500".to_string())],
        min_window_samples: unset(),
        max_ns: unset(),
        dynamic_cpu_min_window_samples: unset(),
        dynamic_cpu_confirm_windows: unset(),
        dynamic_cpu_stable_windows: unset(),
    };
    assert!(heatmap_config(&settings, false).is_none());
    let config = heatmap_config(&settings, true).expect("a controlled CPU count");
    assert_eq!(config.window_ns, 500);
    assert_eq!(config.sample_stride, 64);
    assert_eq!(config.dynamic_cpu_stable_windows, 9);
    assert!(config.dynamic_cpu_affinity);
}
