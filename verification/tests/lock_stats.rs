use accordin::accordin_shared::bpf_counters::RoutingCounters;
use accordin::accordin_shared::lock_class::CLASS_COUNT;
use accordin::accordin_shared::lock_stats as shared;
use accordin::accordin_shared::lock_stats::{
    add_cv_sleep_span, advance_periodic_sample, attribute_outermost_class_sample,
    begin_outside_gap_sample_with_enabled, class_acquires, class_sample_averages, class_stats,
    decide_operation_sampling_with_enabled, enter_lock_scope_depth, exit_lock_scope_depth,
    last_unlock_gap_sample, last_unlock_sample, new_class_stats, parse_sample_stride,
    print_bpf_routing_counters, print_cv_admission_counters, process_report, record_class_sample,
    record_cv_sleep_end, record_cv_sleep_start, replace_last_unlock_sample,
    take_class_sample_averages, ClassAverages, ClassSums, ProcessReport, ProcessTotals,
    ThreadStats, DEFAULT_SAMPLE_STRIDE,
};
use accordin::accordin_shared::mutex_hook::HookCounters;
use accordin::accordin_shared::width_control::new_classes;
use accordin::heatmap::{HeatmapConfig, HeatmapState, HeatmapWriteSummary};
use accordin::lb_shared::admission;
use accordin::lb_shared::arch::{wait_time_total_to_ns, TscCalibration};
use accordin::lock_stats::{
    clear_admission_state, decide_operation_sampling, finish_outside_gap_sample,
    first_env_string, grant_slow_path_admission, mark_critical_section_entered,
    mark_slow_path_pending, outside_sample_stride, parse_env_u64, parse_timing_sample_stride,
    print_process_stats, record_hold_end_sample, record_lock_acquired, record_post_unlock, record_wait_end,
    record_wait_start, refresh_thread_elapsed_for_aux, sampled_heatmap_stride,
    thread_has_admission, warn_ignored_env, HeatmapSample, LockSchedThreadCtx, ThreadStatsAux, ADMISSION_CPU_NONE,
    DEFAULT_TIMING_SAMPLE_STRIDE,
};
use accordin::stats_report::ProcessAverages;

/// Two cycles to the nanosecond.
fn calibration() -> TscCalibration {
    TscCalibration {
        base_cycles: 1_000,
        base_ns: 5_000,
        freq_hz: 2_000_000_000,
    }
}

/// One cycle to the nanosecond, from the origin.
fn nanoseconds() -> TscCalibration {
    TscCalibration {
        base_cycles: 0,
        base_ns: 0,
        freq_hz: 1_000_000_000,
    }
}

fn averages(sums: Option<ClassSums>) -> Option<(f64, f64)> {
    sums.map(|sums| {
        (
            sums.cs_sum_ns as f64 / sums.cs_count as f64,
            sums.ncs_sum_ns as f64 / sums.ncs_count as f64,
        )
    })
}

fn armed_at(hold_start: u64) -> ThreadStats {
    let mut stats = ThreadStats::new();
    stats.aux.class_sample_armed = true;
    stats.aux.class_hold_start_sample = hold_start;
    stats
}

#[test]
fn refresh_thread_elapsed_tracks_raw_wait_time_units() {
    let mut aux = shared::ThreadStatsAux::new();

    shared::refresh_thread_elapsed_for_aux(&mut aux, 100);
    assert_eq!(aux.thread_start_sample, 100);
    assert_eq!(aux.thread_elapsed_total, 0);

    shared::refresh_thread_elapsed_for_aux(&mut aux, 165);
    assert_eq!(aux.thread_start_sample, 100);
    assert_eq!(aux.thread_elapsed_total, 65);
}

#[test]
fn lock_stats_refresh_thread_elapsed_tracks_raw_wait_time_units() {
    let mut aux = ThreadStatsAux::new();

    refresh_thread_elapsed_for_aux(&mut aux, 100);
    assert_eq!(aux.thread_start_sample, 100);
    assert_eq!(aux.thread_elapsed_total, 0);

    refresh_thread_elapsed_for_aux(&mut aux, 165);
    assert_eq!(aux.thread_start_sample, 100);
    assert_eq!(aux.thread_elapsed_total, 65);
}

#[test]
fn sampling_uses_default_stride_of_eight() {
    let mut countdown = 0;
    let mut sampled = Vec::new();

    for _ in 0..16 {
        sampled.push(advance_periodic_sample(
            &mut countdown,
            DEFAULT_SAMPLE_STRIDE,
        ));
    }

    assert_eq!(
        sampled,
        vec![
            true, false, false, false, false, false, false, false, true, false, false, false,
            false, false, false, false
        ]
    );
}

#[test]
fn parse_sample_stride_uses_default_for_missing_or_invalid_values() {
    assert_eq!(parse_sample_stride(None), DEFAULT_SAMPLE_STRIDE);
    assert_eq!(parse_sample_stride(Some("")), DEFAULT_SAMPLE_STRIDE);
    assert_eq!(parse_sample_stride(Some("0")), DEFAULT_SAMPLE_STRIDE);
    assert_eq!(parse_sample_stride(Some("abc")), DEFAULT_SAMPLE_STRIDE);
}

#[test]
fn parse_sample_stride_accepts_positive_values() {
    assert_eq!(parse_sample_stride(Some("4")), 4);
    assert_eq!(parse_sample_stride(Some(" 16 ")), 16);
}

#[test]
fn finish_outside_gap_sample_clears_pending_state() {
    let mut aux = shared::ThreadStatsAux {
        outside_sample_pending: true,
        outside_unlock_sample: 100,
        outside_wait_start_sample: 120,
        outside_wait_total: 30,
        ..shared::ThreadStatsAux::new()
    };

    shared::finish_outside_gap_sample(&mut aux);

    assert!(!aux.outside_sample_pending);
    assert_eq!(aux.outside_unlock_sample, 0);
    assert_eq!(aux.outside_wait_start_sample, 0);
    assert_eq!(aux.outside_wait_total, 0);
}

#[test]
fn lock_stats_finish_outside_gap_sample_clears_pending_state() {
    let mut aux = ThreadStatsAux {
        outside_sample_pending: true,
        outside_unlock_sample: 100,
        outside_wait_start_sample: 120,
        outside_wait_total: 30,
        ..ThreadStatsAux::new()
    };

    finish_outside_gap_sample(&mut aux);

    assert!(!aux.outside_sample_pending);
    assert_eq!(aux.outside_unlock_sample, 0);
    assert_eq!(aux.outside_wait_start_sample, 0);
    assert_eq!(aux.outside_wait_total, 0);
}

#[test]
fn sampling_gate_blocks_operation_samples_when_disabled() {
    let mut aux = shared::ThreadStatsAux {
        outside_sample_pending: true,
        sample_countdown: 0,
        ..shared::ThreadStatsAux::new()
    };

    decide_operation_sampling_with_enabled(&mut aux, false);

    assert!(!aux.op_sampled);
    assert!(aux.op_sample_decided);
}

#[test]
fn outside_gap_sampling_gate_blocks_samples_when_disabled() {
    let mut aux = shared::ThreadStatsAux::new();

    assert!(!begin_outside_gap_sample_with_enabled(
        &mut aux,
        false,
        DEFAULT_SAMPLE_STRIDE
    ));
    assert_eq!(aux.sample_countdown, 0);
}

#[test]
fn outside_pending_selects_full_operation_sample_when_enabled() {
    let mut aux = shared::ThreadStatsAux {
        outside_sample_pending: true,
        sample_countdown: 3,
        ..shared::ThreadStatsAux::new()
    };

    decide_operation_sampling_with_enabled(&mut aux, true);

    assert!(aux.op_sampled);
    assert!(aux.op_sample_decided);
}

#[test]
fn post_unlock_batches_wait_hold_and_gap_updates() {
    let mut stats = ThreadStats::new();
    let mut table = new_class_stats();
    stats.aux = shared::ThreadStatsAux {
        thread_start_sample: 100,
        wait_start_sample: 130,
        wait_end_sample: 180,
        hold_start_sample: 180,
        op_sample_decided: true,
        op_sampled: true,
        ..shared::ThreadStatsAux::new()
    };

    shared::record_post_unlock(
        &mut stats,
        &mut table,
        &calibration(),
        true,
        DEFAULT_SAMPLE_STRIDE,
        260,
        0,
        260,
    );

    let aux = stats.aux;
    assert_eq!(aux.thread_elapsed_total, 160);
    assert_eq!(aux.wait_total, 50 * DEFAULT_SAMPLE_STRIDE);
    assert_eq!(aux.wait_sample_count, 1);
    assert_eq!(aux.hold_total, 80 * DEFAULT_SAMPLE_STRIDE);
    assert_eq!(aux.hold_sample_count, 1);
    assert_eq!(aux.lock_count, 1);
    assert_eq!(aux.outside_gap_total, 0);
    assert_eq!(aux.outside_gap_samples, 0);
    assert_eq!(aux.wait_start_sample, 0);
    assert_eq!(aux.wait_end_sample, 0);
    assert_eq!(aux.hold_start_sample, 0);
    assert!(!aux.op_sample_decided);
    assert!(!aux.op_sampled);
    assert_eq!(aux.outside_wait_total, 0);
}

#[test]
fn lock_stats_post_unlock_batches_wait_hold_and_gap_updates() {
    let mut aux = ThreadStatsAux {
        thread_start_sample: 100,
        wait_start_sample: 130,
        wait_end_sample: 180,
        hold_start_sample: 180,
        op_sample_decided: true,
        op_sampled: true,
        op_timing_sampled: true,
        ..ThreadStatsAux::new()
    };

    record_post_unlock(
        &mut aux,
        &calibration(),
        DEFAULT_TIMING_SAMPLE_STRIDE,
        DEFAULT_TIMING_SAMPLE_STRIDE,
        260,
        260,
    );

    assert_eq!(aux.thread_elapsed_total, 160);
    assert_eq!(aux.wait_total, 50 * DEFAULT_TIMING_SAMPLE_STRIDE);
    assert_eq!(aux.wait_sample_count, 1);
    assert_eq!(aux.hold_total, 80 * DEFAULT_TIMING_SAMPLE_STRIDE);
    assert_eq!(aux.hold_sample_count, 1);
    assert_eq!(aux.lock_count, 1);
    assert_eq!(aux.outside_gap_total, 0);
    assert_eq!(aux.outside_gap_samples, 0);
    assert_eq!(aux.wait_start_sample, 0);
    assert_eq!(aux.wait_end_sample, 0);
    assert_eq!(aux.hold_start_sample, 0);
    assert!(!aux.op_sample_decided);
    assert!(!aux.op_sampled);
    assert!(aux.outside_sample_pending);
    assert_eq!(aux.outside_wait_total, 0);
}

#[test]
fn unsampled_post_unlock_counts_lock_without_timing_totals() {
    let mut stats = ThreadStats::new();
    let mut table = new_class_stats();
    stats.aux = shared::ThreadStatsAux {
        op_sample_decided: true,
        op_sampled: false,
        ..shared::ThreadStatsAux::new()
    };

    shared::record_post_unlock(
        &mut stats,
        &mut table,
        &calibration(),
        true,
        DEFAULT_SAMPLE_STRIDE,
        0,
        0,
        900,
    );

    assert_eq!(stats.aux.lock_count, 1);
    assert_eq!(stats.aux.wait_total, 0);
    assert_eq!(stats.aux.hold_total, 0);
    assert_eq!(stats.aux.outside_gap_total, 0);
    assert!(!stats.aux.op_sample_decided);
    assert!(!stats.aux.op_sampled);
}

#[test]
fn lock_stats_unsampled_post_unlock_counts_lock_without_timing_totals() {
    let mut aux = ThreadStatsAux {
        op_sample_decided: true,
        op_sampled: false,
        op_timing_sampled: false,
        ..ThreadStatsAux::new()
    };

    record_post_unlock(
        &mut aux,
        &calibration(),
        DEFAULT_TIMING_SAMPLE_STRIDE,
        DEFAULT_TIMING_SAMPLE_STRIDE,
        0,
        900,
    );

    assert_eq!(aux.lock_count, 1);
    assert_eq!(aux.wait_total, 0);
    assert_eq!(aux.hold_total, 0);
    assert_eq!(aux.outside_gap_total, 0);
    assert!(!aux.op_sample_decided);
    assert!(!aux.op_sampled);
}

#[test]
fn record_lock_acquired_marks_unsampled_fast_path_critical_section() {
    let mut word = admission::new_word();
    let mut stats = ThreadStats::new();
    admission::reset_state(&mut word);

    shared::record_lock_acquired(&mut word, &mut stats, false, 0);

    assert_eq!(admission::word_for_test(&word), 1);
}

#[test]
fn class_sample_averages_require_both_counts() {
    assert_eq!(
        averages(class_sample_averages(300, 3, 600, 3)),
        Some((100.0, 200.0))
    );
    assert_eq!(averages(class_sample_averages(300, 0, 600, 3)), None);
    assert_eq!(averages(class_sample_averages(300, 3, 600, 0)), None);
}

#[test]
fn class_samples_accumulate_independently() {
    let mut table = new_class_stats();

    record_class_sample(&mut table, 1, 100, Some(400));
    record_class_sample(&mut table, 1, 300, Some(600));
    record_class_sample(&mut table, 2, 50, Some(50));

    assert_eq!(
        averages(take_class_sample_averages(&mut table, 1)),
        Some((200.0, 500.0))
    );
    assert_eq!(
        averages(take_class_sample_averages(&mut table, 2)),
        Some((50.0, 50.0))
    );
}

#[test]
fn unmanaged_class_sample_is_dropped() {
    let mut table = new_class_stats();

    assert!(!record_class_sample(&mut table, 0, 100, Some(200)));

    assert!(class_stats(&table, 0).is_none());
    assert_eq!(take_class_sample_averages(&mut table, 0), None);
}

#[test]
fn class_sample_records_cs_always_and_ncs_only_when_present() {
    let mut table = new_class_stats();

    record_class_sample(&mut table, 3, 200, Some(300));
    record_class_sample(&mut table, 3, 250, None);

    let stats = class_stats(&table, 3).expect("managed class");
    assert_eq!(stats.acquires, 2);
    assert_eq!(stats.cs_count, 2);
    assert_eq!(stats.cs_sum_ns, 450);
    assert_eq!(stats.ncs_count, 1);
    assert_eq!(stats.ncs_sum_ns, 300);
}

#[test]
fn take_class_sample_averages_resets_sums_and_keeps_acquires() {
    let mut table = new_class_stats();

    record_class_sample(&mut table, 4, 100, Some(200));
    record_class_sample(&mut table, 4, 200, Some(400));

    assert_eq!(
        averages(take_class_sample_averages(&mut table, 4)),
        Some((150.0, 300.0))
    );
    // The second read observes reset sums and counts.
    assert_eq!(averages(take_class_sample_averages(&mut table, 4)), None);

    let stats = class_stats(&table, 4).expect("managed class");
    assert_eq!(stats.cs_sum_ns, 0);
    assert_eq!(stats.cs_count, 0);
    assert_eq!(stats.ncs_sum_ns, 0);
    assert_eq!(stats.ncs_count, 0);
    // The acquires are kept for the report at exit.
    assert_eq!(stats.acquires, 2);
    assert_eq!(class_acquires(&table, 4), 2);
}

#[test]
fn nested_lock_scope_depth_reports_outermost_once() {
    let mut depth = 0;

    assert!(
        enter_lock_scope_depth(&mut depth),
        "outer acquire is outermost"
    );
    assert!(
        !enter_lock_scope_depth(&mut depth),
        "inner acquire is not outermost"
    );
    assert!(
        !exit_lock_scope_depth(&mut depth),
        "inner unlock is not outermost"
    );
    assert!(
        exit_lock_scope_depth(&mut depth),
        "outer unlock is outermost"
    );
    assert!(
        !exit_lock_scope_depth(&mut depth),
        "underflow stays non-outermost"
    );
}

#[test]
fn per_lock_ncs_gap_is_none_without_prior_unlock() {
    assert_eq!(last_unlock_gap_sample(0, 500), None);
    assert_eq!(last_unlock_gap_sample(100, 500), Some(400));
    // Saturating: an out-of-order acquire never reports a negative gap.
    assert_eq!(last_unlock_gap_sample(600, 500), Some(0));
}

#[test]
fn per_lock_ncs_uses_prior_unlock_of_same_class_only() {
    let mut slots = [0; CLASS_COUNT];

    // Two uses of class 5 with an interleaved use of class 6.
    replace_last_unlock_sample(&mut slots, 5, 1_000);
    replace_last_unlock_sample(&mut slots, 6, 5_000);

    // Class 5 re-acquire at 1_300: gap 300, unaffected by class 6.
    let gap_five = last_unlock_gap_sample(last_unlock_sample(&slots, 5), 1_300);
    assert_eq!(gap_five, Some(300));

    // Class 6 re-acquire at 5_500: its own gap of 500.
    let gap_six = last_unlock_gap_sample(last_unlock_sample(&slots, 6), 5_500);
    assert_eq!(gap_six, Some(500));

    // Unmanaged slot is never stored.
    replace_last_unlock_sample(&mut slots, 0, 123);
    assert_eq!(last_unlock_sample(&slots, 0), 0);
}

#[test]
fn per_lock_ncs_contributes_single_sample_equal_to_injected_gap() {
    let mut slots = [0; CLASS_COUNT];
    let mut table = new_class_stats();

    // Prior unlock of class 7 at 2_000; interleaved class 8 must not corrupt it.
    replace_last_unlock_sample(&mut slots, 7, 2_000);
    replace_last_unlock_sample(&mut slots, 8, 9_000);

    let gap = last_unlock_gap_sample(last_unlock_sample(&slots, 7), 2_450)
        .expect("prior unlock yields a gap");
    assert_eq!(gap, 450);
    record_class_sample(&mut table, 7, 111, Some(gap));

    let stats = class_stats(&table, 7).expect("managed class");
    assert_eq!(stats.ncs_count, 1);
    assert_eq!(stats.ncs_sum_ns, 450);
}

#[test]
fn per_lock_ncs_excludes_time_spent_waiting_for_the_lock() {
    let mut table = new_class_stats();
    let mut stats = armed_at(3_000);
    replace_last_unlock_sample(&mut stats.last_unlock, 11, 1_000);

    // A gap of 2_000 with 1_500 of it spent queueing leaves 500 of think time.
    assert!(attribute_outermost_class_sample(
        &mut stats,
        &mut table,
        &calibration(),
        11,
        3_400,
        1_500,
        0
    ));

    let class = class_stats(&table, 11).expect("managed class");
    assert_eq!(class.ncs_count, 1);
    assert_eq!(
        class.ncs_sum_ns,
        wait_time_total_to_ns(&calibration(), 500)
    );
    assert_eq!(class.ncs_sum_ns, 250);
    assert_eq!(last_unlock_sample(&stats.last_unlock, 11), 3_400);
}

#[test]
fn per_lock_ncs_excludes_a_condition_variable_sleep() {
    let mut table = new_class_stats();

    // Both classes see the same 10_000 gap, 300 of it spent queueing for the
    // lock. Class 12 spent 9_500 of the rest parked in a condition-variable
    // wait; class 13 spent all of it outside any lock.
    let mut stats = armed_at(11_000);
    replace_last_unlock_sample(&mut stats.last_unlock, 12, 1_000);
    assert!(attribute_outermost_class_sample(
        &mut stats,
        &mut table,
        &calibration(),
        12,
        11_400,
        300,
        9_500
    ));
    let sleeper = class_stats(&table, 12).expect("managed class");
    assert_eq!(sleeper.ncs_count, 1);
    let sleeper_ncs = sleeper.ncs_sum_ns;

    let mut stats = armed_at(11_000);
    replace_last_unlock_sample(&mut stats.last_unlock, 13, 1_000);
    assert!(attribute_outermost_class_sample(
        &mut stats,
        &mut table,
        &calibration(),
        13,
        11_400,
        300,
        0
    ));
    let thinker_ncs = class_stats(&table, 13).expect("managed class").ncs_sum_ns;

    assert_eq!(sleeper_ncs, wait_time_total_to_ns(&calibration(), 200));
    assert_eq!(thinker_ncs, wait_time_total_to_ns(&calibration(), 9_700));
    assert!(
        sleeper_ncs < thinker_ncs,
        "the sleep must not read as think time"
    );
}

#[test]
fn cv_sleep_spans_accumulate_across_repeated_waits() {
    let mut aux = shared::ThreadStatsAux::new();

    add_cv_sleep_span(&mut aux, 1_000, 1_700);
    add_cv_sleep_span(&mut aux, 2_000, 2_300);
    assert_eq!(aux.cv_sleep_total, 1_000);

    // Saturating: an out-of-order pair never subtracts from the total.
    add_cv_sleep_span(&mut aux, 3_000, 2_500);
    assert_eq!(aux.cv_sleep_total, 1_000);
}

#[test]
fn cv_sleep_bracket_is_gated_on_the_sampled_operation() {
    let mut aux = shared::ThreadStatsAux {
        op_sample_decided: true,
        op_sampled: false,
        ..shared::ThreadStatsAux::new()
    };
    assert_eq!(record_cv_sleep_start(&mut aux, true, 7_000_000_000), 0);
    record_cv_sleep_end(&mut aux, 0, 7_000_000_000);
    assert_eq!(aux.cv_sleep_total, 0);

    let mut aux = shared::ThreadStatsAux {
        op_sample_decided: true,
        op_sampled: true,
        ..shared::ThreadStatsAux::new()
    };
    let sleep_start = record_cv_sleep_start(&mut aux, true, 7_000_000_000);
    assert_ne!(sleep_start, 0, "a sampled operation opens the bracket");
    record_cv_sleep_end(&mut aux, sleep_start, 7_000_000_040);
    assert!(
        aux.cv_sleep_total < 1_000_000_000,
        "the closed bracket accumulates the span, not the clock origin"
    );
    assert_eq!(aux.cv_sleep_total, 40);
}

#[test]
fn post_unlock_clears_the_cv_sleep_span_it_consumed() {
    let mut stats = ThreadStats::new();
    let mut table = new_class_stats();
    stats.aux = shared::ThreadStatsAux {
        thread_start_sample: 100,
        hold_start_sample: 180,
        cv_sleep_total: 4_000,
        op_sample_decided: true,
        op_sampled: true,
        ..shared::ThreadStatsAux::new()
    };

    shared::record_post_unlock(
        &mut stats,
        &mut table,
        &calibration(),
        true,
        DEFAULT_SAMPLE_STRIDE,
        260,
        0,
        260,
    );

    assert_eq!(stats.aux.cv_sleep_total, 0);
}

#[test]
fn class_stats_slots_do_not_alias_across_classes() {
    let mut table = new_class_stats();

    record_class_sample(&mut table, 9, 10, Some(20));

    let other = class_stats(&table, 10).expect("managed class");
    assert_eq!(other.acquires, 0);
    assert_eq!(other.cs_sum_ns, 0);

    let touched = class_stats(&table, 9).expect("managed class");
    assert_eq!(touched.acquires, 1);
}

#[test]
fn an_operation_attributes_its_class_from_acquire_to_unlock() {
    let cal = nanoseconds();
    let mut word = admission::new_word();
    let mut stats = ThreadStats::new();
    let mut table = new_class_stats();

    // The first unlock of class 3 has no gap before it; the outside sample that
    // it opens makes the next operation a sampled one.
    stats.aux.op_sample_decided = true;
    stats.aux.op_sampled = true;
    shared::record_lock_acquired(&mut word, &mut stats, true, 1_000);
    shared::record_post_unlock(&mut stats, &mut table, &cal, true, 1, 1_100, 3, 1_100);
    assert!(stats.aux.outside_sample_pending);

    let wait_start = shared::record_wait_start(&mut stats.aux, true, 1_400);
    assert_eq!(wait_start, 1_400);
    shared::record_wait_end(&mut stats.aux, wait_start, 1_450);
    shared::record_lock_acquired(&mut word, &mut stats, true, 1_450);
    assert_eq!(stats.aux.outside_gap_total, 300);
    assert_eq!(stats.aux.outside_gap_samples, 1);
    let hold_end = shared::record_hold_end_sample(&stats.aux, 1_530);
    shared::record_post_unlock(&mut stats, &mut table, &cal, true, 1, hold_end, 3, 1_530);

    let class = class_stats(&table, 3).expect("managed class");
    assert_eq!(class.acquires, 2);
    assert_eq!(class.cs_sum_ns, 180);
    assert_eq!(class.ncs_count, 1);
    assert_eq!(class.ncs_sum_ns, 300);
    assert_eq!(stats.lock_depth, 0);
}

#[test]
fn process_totals_report_outside_time_without_waits_and_holds() {
    let mut totals = ProcessTotals::new();
    let mut stats = ThreadStats::new();
    stats.aux = shared::ThreadStatsAux {
        thread_start_sample: 1_000,
        wait_total: 600,
        hold_total: 400,
        lock_count: 4,
        outside_gap_total: 900,
        outside_gap_samples: 3,
        ..shared::ThreadStatsAux::new()
    };

    shared::flush_current_thread_stats(&mut stats, &mut totals, &nanoseconds(), 6_000);
    assert_eq!(totals.thread_elapsed_total, 5_000);
    assert_eq!(stats.aux.lock_count, 0);
    assert_eq!(stats.ctx.lock_count, 4);

    let report = process_report(&totals, &nanoseconds());
    assert_eq!(report.critical_ns, 400);
    assert_eq!(report.outside_elapsed_ns, 4_000);
    assert_eq!(report.lock_count, 4);
    assert_eq!(report.outside_gap_ns, 900);
    assert_eq!(report.outside_gap_samples, 3);
}

fn texts(critical: &str, outside: &str, elapsed: &str) -> ProcessAverages {
    ProcessAverages {
        critical_ns: critical.to_string(),
        outside_ns: outside.to_string(),
        outside_ns_elapsed: elapsed.to_string(),
    }
}

fn report(samples: u64) -> ProcessReport {
    ProcessReport {
        critical_ns: 0,
        outside_elapsed_ns: 0,
        lock_count: 0,
        outside_gap_ns: 0,
        outside_gap_samples: samples,
    }
}

#[test]
fn a_process_prints_its_classes_with_their_widths() {
    let mut table = new_class_stats();
    record_class_sample(&mut table, 2, 100, Some(300));
    record_class_sample(&mut table, 5, 40, None);
    let mut classes = new_classes();
    classes[5].commit_width(3, 0);
    classes[5].commit_width(4, 0);
    let class_averages: Vec<ClassAverages> = (0..CLASS_COUNT)
        .map(|class| ClassAverages {
            cs_ns: format!("{class}.00"),
            ncs_ns: format!("{class}.50"),
            ewma_cs_ns: "1.25".to_string(),
            ewma_ncs_ns: "2.75".to_string(),
        })
        .collect();

    let out = shared::print_process_stats(
        "accordin",
        &report(9),
        &texts("1.00", "2.00", "3.00"),
        Some(6),
        &table,
        &class_averages,
        true,
        &classes,
    );
    assert_eq!(
        out,
        "stats_label: accordin\n\
         avg_critical_ns: 1.00\n\
         avg_outside_ns: 2.00\n\
         avg_outside_ns_elapsed: 3.00\n\
         outside_ns_unlock_gap_samples: 9\n\
         dynamic_cpu_affinity_cpus: 6\n\
         class_stats: id=2 avg_cs_ns=2.00 avg_ncs_ns=2.50 acquires=1\n\
         class_stats: id=5 avg_cs_ns=5.00 avg_ncs_ns=5.50 acquires=1 width=4 published_width=0 \
         seed=0 width_changes=2 ewma_cs_ns=1.25 ewma_ncs_ns=2.75 width_history=3,4\n"
    );
}

#[test]
fn counters_are_printed_only_while_they_are_kept() {
    let mut counters = HookCounters::new();
    assert_eq!(print_cv_admission_counters(&counters), None);
    counters.enabled = true;
    counters.admission.route_relocks = 12;
    assert_eq!(
        print_cv_admission_counters(&counters).unwrap(),
        "[lock_stats] cv_admission hints_published=0 specialized_relocks=0 fallback_relocks=0 \
         route_relocks=12"
    );

    let mut routing = RoutingCounters::new();
    assert_eq!(print_bpf_routing_counters(&routing), None);
    routing.set_routing_counter_ptrs([Some(3); 9]);
    assert_eq!(
        print_bpf_routing_counters(&routing).unwrap(),
        "[lock_stats] bpf_routing select_local_direct=3 wake_consumed_seen=3 \
         wake_consumed_granted=3 wake_consumed_inactive=3 wake_consumed_normal=3 \
         wake_read_fail=3 running_pending_grant_success=3 running_pending_grant_failure=3 \
         block_release_read_fail=3"
    );
}

#[test]
fn a_process_prints_what_was_written_of_its_heatmap() {
    let state = HeatmapState::new(HeatmapConfig::new(
        Some("map.csv".to_string()),
        64,
        1_000,
        2,
        8,
        true,
        3,
        4,
        5,
    ));
    let summary = HeatmapWriteSummary {
        total_windows: 7,
        valid_windows: 6,
        invalid_windows: 1,
    };
    let head = "stats_label: x\navg_critical_ns: 1\navg_outside_ns: 2\n\
                avg_outside_ns_elapsed: 3\noutside_ns_unlock_gap_samples: 0\n";
    let control = "dynamic_cpu_min_window_samples: 3\ndynamic_cpu_confirm_windows: 4\n\
                   dynamic_cpu_stable_windows: 5\n";
    let averages = texts("1", "2", "3");
    assert_eq!(
        print_process_stats("x", &report(0), &averages, Some(&state), Some(summary), Some(2)),
        format!(
            "{head}heatmap_path: map.csv\nheatmap_sample_stride: 64\nheatmap_window_ns: 1000\n\
             heatmap_min_window_samples: 2\nheatmap_total_windows: 7\n\
             heatmap_valid_windows: 6\nheatmap_invalid_windows: 1\n\
             heatmap_window_ewma_alpha: 0.20\nheatmap_max_bin_ns: 8\n\
             dynamic_cpu_affinity_cpus: 2\n{control}"
        )
    );
    assert_eq!(
        print_process_stats("x", &report(0), &averages, Some(&state), None, None),
        format!("{head}{control}")
    );
    assert_eq!(
        print_process_stats("x", &report(0), &averages, None, None, None),
        head
    );
}

#[test]
fn timing_sampling_uses_default_stride_of_eight() {
    let mut countdown = 0;
    let mut sampled = Vec::new();

    for _ in 0..16 {
        sampled.push(advance_periodic_sample(
            &mut countdown,
            DEFAULT_TIMING_SAMPLE_STRIDE,
        ));
    }

    assert_eq!(
        sampled,
        vec![
            true, false, false, false, false, false, false, false, true, false, false, false,
            false, false, false, false
        ]
    );
}

#[test]
fn parse_timing_sample_stride_uses_default_for_missing_or_invalid_values() {
    assert_eq!(
        parse_timing_sample_stride(None),
        DEFAULT_TIMING_SAMPLE_STRIDE
    );
    assert_eq!(
        parse_timing_sample_stride(Some("")),
        DEFAULT_TIMING_SAMPLE_STRIDE
    );
    assert_eq!(
        parse_timing_sample_stride(Some("0")),
        DEFAULT_TIMING_SAMPLE_STRIDE
    );
    assert_eq!(
        parse_timing_sample_stride(Some("abc")),
        DEFAULT_TIMING_SAMPLE_STRIDE
    );
}

#[test]
fn parse_timing_sample_stride_accepts_positive_values() {
    assert_eq!(parse_timing_sample_stride(Some("4")), 4);
    assert_eq!(parse_timing_sample_stride(Some(" 16 ")), 16);
}

#[test]
fn outside_stride_defaults_to_timing_stride_when_unset() {
    assert_eq!(
        outside_sample_stride(&vec![None, None], DEFAULT_TIMING_SAMPLE_STRIDE),
        DEFAULT_TIMING_SAMPLE_STRIDE
    );
    assert_eq!(
        outside_sample_stride(
            &vec![None, Some("3".to_string())],
            DEFAULT_TIMING_SAMPLE_STRIDE
        ),
        3
    );
}

#[test]
fn sampled_heatmap_stride_scales_with_outside_stride() {
    assert_eq!(sampled_heatmap_stride(64, 8), 8);
    assert_eq!(sampled_heatmap_stride(64, 64), 1);
    assert_eq!(sampled_heatmap_stride(65, 8), 9);
}

#[test]
fn outside_pending_forces_full_sample_without_timing_weight() {
    let mut aux = ThreadStatsAux {
        outside_sample_pending: true,
        timing_sample_countdown: 3,
        ..ThreadStatsAux::new()
    };

    decide_operation_sampling(&mut aux, DEFAULT_TIMING_SAMPLE_STRIDE);

    assert!(aux.op_sampled);
    assert!(!aux.op_timing_sampled);
}

#[test]
fn admission_helpers_track_pending_grant_and_release() {
    let mut ctx = LockSchedThreadCtx::new();
    let snapshot = |ctx: &LockSchedThreadCtx| {
        (
            ctx.admission_owned != 0,
            ctx.admission_cpu,
            ctx.admission_requeue_home != 0,
            ctx.in_critical_section != 0,
            ctx.slow_path_pending != 0,
        )
    };

    mark_slow_path_pending(&mut ctx);
    assert_eq!(
        snapshot(&ctx),
        (false, ADMISSION_CPU_NONE, false, false, true)
    );
    assert!(!thread_has_admission(&ctx));

    grant_slow_path_admission(&mut ctx, 7);
    assert_eq!(snapshot(&ctx), (true, 7, false, false, true));
    assert!(thread_has_admission(&ctx));

    mark_critical_section_entered(&mut ctx);
    assert_eq!(snapshot(&ctx), (true, 7, false, true, false));

    clear_admission_state(&mut ctx);
    assert_eq!(
        snapshot(&ctx),
        (false, ADMISSION_CPU_NONE, false, false, false)
    );
}

#[test]
fn settings_take_the_first_variable_that_is_set() {
    let unset = vec![None, Some("7".to_string()), Some("9".to_string())];
    assert_eq!(first_env_string(&unset), Some("7".to_string()));
    assert_eq!(first_env_string(&vec![None]), None);
    assert_eq!(parse_env_u64(&unset, 5), 7);
    assert_eq!(parse_env_u64(&vec![Some("zero".to_string())], 5), 5);
    assert_eq!(parse_env_u64(&vec![None], 5), 5);
}

#[test]
fn a_setting_that_no_longer_counts_is_reported() {
    let names = |names: &[&str]| -> Vec<String> { names.iter().map(|n| n.to_string()).collect() };
    let keys = names(&["A_SAMPLES", "B_SAMPLES", "C_SAMPLES"]);
    let values = vec![
        Some("  ".to_string()),
        Some(" 7 ".to_string()),
        Some("8".to_string()),
    ];
    assert_eq!(
        warn_ignored_env(&keys, &values, &names(&["A_NS", "B_NS"])),
        Some("[lock_stats] ignoring B_SAMPLES=7; use A_NS or B_NS instead".to_string())
    );
    assert_eq!(
        warn_ignored_env(&keys, &vec![None, None, None], &names(&["A_NS"])),
        None
    );
}

#[test]
fn unsampled_operations_add_no_time() {
    let mut aux = ThreadStatsAux::new();
    // The first operation of a stride is sampled, the next one is not.
    assert_eq!(record_wait_start(&mut aux, 2, 10), 10);
    record_wait_end(&mut aux, 10, 14);
    record_lock_acquired(&mut aux, 2, None, 4, 14);
    let end = record_hold_end_sample(&aux, 20);
    assert_eq!(record_post_unlock(&mut aux, &nanoseconds(), 2, 4, end, 20), None);
    assert_eq!(aux.wait_total, 8);
    assert_eq!(aux.hold_total, 12);

    aux.outside_sample_pending = false;
    assert_eq!(record_wait_start(&mut aux, 2, 30), 0);
    record_wait_end(&mut aux, 0, 40);
    record_lock_acquired(&mut aux, 2, None, 4, 40);
    assert_eq!(record_hold_end_sample(&aux, 50), 0);
    record_post_unlock(&mut aux, &nanoseconds(), 2, 4, 0, 50);
    assert_eq!(aux.wait_total, 8);
    assert_eq!(aux.hold_total, 12);
    assert_eq!(aux.lock_count, 2);
}

#[test]
fn an_outside_gap_becomes_a_heatmap_sample() {
    let mut aux = ThreadStatsAux {
        outside_sample_pending: true,
        outside_unlock_sample: 1_000,
        ..ThreadStatsAux::new()
    };

    record_lock_acquired(&mut aux, 8, Some(1), 1, 1_400);
    assert_eq!(aux.outside_gap_total, 400);
    assert!(aux.heatmap_sample_pending);
    let sample = record_post_unlock(&mut aux, &nanoseconds(), 8, 1, 1_450, 1_450);

    assert_eq!(
        sample,
        Some(HeatmapSample {
            time_ns: 1_450,
            critical_ns: 50,
            outside_ns: 400
        })
    );
    assert!(!aux.heatmap_sample_pending);
}

#[test]
fn a_stride_of_none_samples_everything() {
    let mut countdown = 0;
    for _ in 0..4 {
        assert!(advance_periodic_sample(&mut countdown, 0));
    }
}
