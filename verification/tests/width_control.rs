use accordin::accordin_shared::lock_class::{CLASS_COUNT, MAX_LOCK_CLASSES};
use accordin::accordin_shared::width_control::{
    advance_class, arbitrate_budget, bound_seed_by_occupancy, clamped_min_width,
    clamped_probe_span, class_demand, class_report, clear_class_state_ptrs, confirm_step,
    controller_active_with, count_cpulist, cpu_budget, enabled, fixed_class_widths, floored_width,
    fold_and_run_tick, fold_merged_classes, maybe_run_tick, new_classes,
    numa_critical_penalty_ns,
    parse_fixed_class_widths, parse_tick_window_ns, publish_inactive_probe_span, run_tick,
    settle_seed, step_allowed, stepped_width, store_probe_span, tick_config, width_vote,
    window_level, ClassController, ClassState, ModelUpdate, StepVote, TickConfig,
    WindowSignals, CROSS_NUMA_CRITICAL_PENALTY_NS, DEFAULT_MIN_WIDTH, DEFAULT_TICK_WINDOW_NS,
    MANAGED_CLASS_COUNT, MAX_STATIC_WIDTH, MIN_ACQUIRES_PER_DECISION,
    MULTICORE_CRITICAL_PENALTY_NS,
};

const HOLDOFF: u32 = 3;
const DEADZONE: u32 = 1;
const ENOUGH: u64 = MIN_ACQUIRES_PER_DECISION;
const MIN_WIDTH: u32 = DEFAULT_MIN_WIDTH;

/// Class 5 goes by class 2.
fn five_is_two() -> [usize; CLASS_COUNT] {
    let mut canonical = [0; CLASS_COUNT];
    for class in 0..CLASS_COUNT {
        canonical[class] = if class == 5 { 2 } else { class };
    }
    canonical
}

#[test]
fn returns_none_when_no_static_config_present() {
    assert!(parse_fixed_class_widths(None, None).is_none());
}

#[test]
fn fixed_width_applies_to_managed_classes_only() {
    let widths = parse_fixed_class_widths(Some("4"), None).expect("fixed width present");
    assert_eq!(widths[0], 0);
    for (class, width) in widths.iter().enumerate().skip(1) {
        assert_eq!(*width, 4, "class {class}");
    }
}

#[test]
fn class_map_overrides_apply_on_top_of_fixed_width() {
    let widths = parse_fixed_class_widths(Some("4"), Some("1:2,2:8")).expect("config present");
    assert_eq!(widths[0], 0);
    assert_eq!(widths[1], 2);
    assert_eq!(widths[2], 8);
    assert_eq!(widths[3], 4);
}

#[test]
fn class_map_alone_sets_only_named_classes() {
    let widths = parse_fixed_class_widths(None, Some("3:5")).expect("config present");
    assert_eq!(widths[3], 5);
    assert_eq!(widths[1], 0);
    assert_eq!(widths[2], 0);
}

#[test]
fn invalid_entries_are_ignored_defensively() {
    let out_of_range = MAX_LOCK_CLASSES;
    let widths = parse_fixed_class_widths(
        Some("not-a-number"),
        Some(&format!("0:9,{out_of_range}:9,x:1,2:oops,3:7,,5")),
    )
    .expect("config present");
    // Unparseable fixed width leaves the all-zero base intact.
    assert_eq!(widths[1], 0);
    // The unmanaged class and a class past the limit are both rejected.
    assert_eq!(widths[0], 0);
    // Only the well-formed entry lands.
    assert_eq!(widths[3], 7);
    // Malformed entries do not set their class.
    assert_eq!(widths[2], 0);
    assert_eq!(widths[5], 0);
}

#[test]
fn widths_are_clamped_to_the_static_maximum() {
    let widths = parse_fixed_class_widths(Some("100000000"), Some("1:99999999"))
        .expect("config present");
    assert_eq!(widths[1], MAX_STATIC_WIDTH);
    assert_eq!(widths[2], MAX_STATIC_WIDTH);
}

#[test]
fn fixed_width_mode_runs_the_controller_open_loop() {
    assert!(controller_active_with(true, false));
    assert!(!controller_active_with(true, true));
    assert!(!controller_active_with(false, false));
    assert!(!controller_active_with(false, true));
}

#[test]
fn parse_tick_window_uses_default_for_missing_or_invalid_values() {
    assert_eq!(parse_tick_window_ns(None), DEFAULT_TICK_WINDOW_NS);
    assert_eq!(parse_tick_window_ns(Some("")), DEFAULT_TICK_WINDOW_NS);
    assert_eq!(parse_tick_window_ns(Some("0")), DEFAULT_TICK_WINDOW_NS);
    assert_eq!(parse_tick_window_ns(Some("abc")), DEFAULT_TICK_WINDOW_NS);
    assert_eq!(parse_tick_window_ns(Some(" 5000 ")), 5_000);
}

#[test]
fn numa_penalty_distinguishes_single_node_from_cross_node() {
    assert_eq!(numa_critical_penalty_ns(1, Some(48)), 0);
    assert_eq!(
        numa_critical_penalty_ns(96, Some(48)),
        CROSS_NUMA_CRITICAL_PENALTY_NS
    );
    assert_eq!(
        numa_critical_penalty_ns(48, Some(48)),
        MULTICORE_CRITICAL_PENALTY_NS
    );
    assert_eq!(
        numa_critical_penalty_ns(96, None),
        MULTICORE_CRITICAL_PENALTY_NS
    );
}

#[test]
fn cpulist_counts_single_ids_and_ranges() {
    assert_eq!(count_cpulist("0-3,8,10-11\n"), 7);
    assert_eq!(count_cpulist("0-95"), 96);
    assert_eq!(count_cpulist(" "), 0);
    // Reversed and unparseable entries are dropped.
    assert_eq!(count_cpulist("5-1,x,2"), 1);
}

#[test]
fn holdoff_and_full_window_gate_both_have_to_pass() {
    assert!(step_allowed(ENOUGH, HOLDOFF, HOLDOFF));
    // The current width has not been in force for enough windows.
    assert!(!step_allowed(ENOUGH, HOLDOFF - 1, HOLDOFF));
    // The class barely participated in the windows it is judged on.
    assert!(!step_allowed(ENOUGH - 1, HOLDOFF, HOLDOFF));
}

#[test]
fn a_window_keeps_whichever_of_the_mark_and_the_live_level_is_larger() {
    // A rise that fell back before the tick is only in the mark.
    assert_eq!(window_level(7, 0), 7);
    // A level that outlives the read that consumed the mark is only live.
    assert_eq!(window_level(0, 7), 7);
    // Neither view may pull the other down.
    assert_eq!(window_level(7, 3), 7);
    assert_eq!(window_level(3, 7), 7);
    // A window in which the signal never moved reports nothing.
    assert_eq!(window_level(0, 0), 0);
}

#[test]
fn the_seed_never_exceeds_holders_plus_waiters() {
    // A cold class whose think time reads high is still bounded by the
    // threads that actually use it.
    assert_eq!(bound_seed_by_occupancy(96, 1, 1), 2);
    assert_eq!(bound_seed_by_occupancy(96, 9, 15), 24);
    // A busy class below its occupancy keeps its model seed.
    assert_eq!(bound_seed_by_occupancy(9, 9, 15), 9);
    // An idle window never bounds a class below one server.
    assert_eq!(bound_seed_by_occupancy(9, 0, 0), 1);
}

#[test]
fn the_seed_only_moves_once_it_leaves_its_own_dead_zone() {
    // First measurement always lands.
    assert_eq!(settle_seed(0, 9, DEADZONE), 9);
    // Drift across an integer boundary is absorbed.
    assert_eq!(settle_seed(9, 10, DEADZONE), 9);
    assert_eq!(settle_seed(9, 8, DEADZONE), 9);
    // A genuine move is taken.
    assert_eq!(settle_seed(9, 11, DEADZONE), 11);
    assert_eq!(settle_seed(9, 7, DEADZONE), 7);
}

#[test]
fn a_width_inside_the_dead_zone_of_the_seed_does_not_move() {
    // A saturated class one short of the seed stays put: jitter in the
    // smoothed averages must not walk the width back and forth.
    assert_eq!(width_vote(9, 10, 9, 5, DEADZONE), 0);
    assert_eq!(width_vote(9, 9, 9, 5, DEADZONE), 0);
    assert_eq!(width_vote(9, 8, 9, 5, DEADZONE), 0);
    // Outside the dead zone the width follows the model, one step at a time.
    assert_eq!(width_vote(9, 11, 9, 5, DEADZONE), 1);
    // Downwards only once the queue is empty: a saturated class with five
    // waiters holds its width whatever the seed reads.
    assert_eq!(width_vote(9, 7, 9, 5, DEADZONE), 0);
    assert_eq!(width_vote(9, 7, 8, 0, DEADZONE), -1);
}

#[test]
fn growth_needs_saturation_and_model_headroom() {
    // Saturated and beyond the dead zone below the seed: grow.
    assert_eq!(width_vote(4, 8, 4, 1, DEADZONE), 1);
    // Saturated but the seed says the class is already wide enough.
    assert_eq!(width_vote(8, 8, 8, 5, DEADZONE), 0);
    // Peak reached the width but nothing is queued behind it.
    assert_eq!(width_vote(4, 8, 4, 0, DEADZONE), 0);
}

#[test]
fn shrink_needs_under_occupancy_beyond_the_dead_zone() {
    // peak == width - 1 sits inside the dead zone.
    assert_eq!(width_vote(6, 8, 5, 0, DEADZONE), 0);
    // peak <= width - 1 - deadzone shrinks.
    assert_eq!(width_vote(6, 8, 4, 0, DEADZONE), -1);
    // A width the model no longer justifies shrinks too, one step at a
    // time, once nothing is queued behind it.
    assert_eq!(width_vote(8, 6, 8, 0, DEADZONE), -1);
    // ... but only outside the dead zone around the seed.
    assert_eq!(width_vote(7, 6, 7, 4, DEADZONE), 0);
    // A fully saturated class with four waiters holds: the model's lower
    // seed does not outrank real queued demand.
    assert_eq!(width_vote(8, 6, 8, 4, DEADZONE), 0);
}

#[test]
fn queued_waiters_veto_a_shrink_however_the_model_and_the_peak_read() {
    // A waiter parked in the inactive queue was denied admission under the
    // width in force, so the class wants more of it than it was allowed to
    // use. Every shrink is vetoed while the queue is occupied, whether the
    // peak fell short of the width or the model asks for less than it.
    assert_eq!(width_vote(6, 3, 6, 2, DEADZONE), 0);
    assert_eq!(width_vote(6, 3, 5, 2, DEADZONE), 0);
    assert_eq!(width_vote(6, 3, 4, 2, DEADZONE), 0);
    // With the queue empty the same signals describe a class that is
    // genuinely over-provisioned, and it steps down.
    assert_eq!(width_vote(6, 3, 5, 0, DEADZONE), -1);
    assert_eq!(width_vote(6, 3, 4, 0, DEADZONE), -1);
}

#[test]
fn steps_never_move_a_width_by_more_than_one() {
    assert_eq!(stepped_width(5, 1, MIN_WIDTH, 96), 6);
    assert_eq!(stepped_width(5, -1, MIN_WIDTH, 96), 4);
    assert_eq!(stepped_width(5, 0, MIN_WIDTH, 96), 5);
    // The configured hard cap.
    assert_eq!(stepped_width(4, 1, MIN_WIDTH, 4), 4);
}

#[test]
fn a_width_below_the_floor_is_published_at_the_floor() {
    // A class the controller values at nothing is still published as a
    // width, because 0 reads as unlimited.
    assert_eq!(floored_width(0, MIN_WIDTH, 96), MIN_WIDTH);
    // A single server is the case the floor exists for; a raised floor
    // lifts it further.
    assert_eq!(floored_width(1, MIN_WIDTH, 96), MIN_WIDTH);
    assert_eq!(floored_width(1, 3, 96), 3);
    // Wider widths are left alone, and the hard cap still wins.
    assert_eq!(floored_width(9, MIN_WIDTH, 96), 9);
    assert_eq!(floored_width(9, MIN_WIDTH, 4), 4);
    // A floor above the cap collapses to the cap.
    assert_eq!(floored_width(3, 3, 1), 1);
}

#[test]
fn a_width_never_steps_below_the_floor() {
    // Shrinking stops at the floor however hard the occupancy signal
    // pushes down.
    assert_eq!(stepped_width(MIN_WIDTH, -1, MIN_WIDTH, 96), MIN_WIDTH);
    assert_eq!(stepped_width(1, -1, MIN_WIDTH, 96), MIN_WIDTH);
    // A wider floor is honoured too.
    assert_eq!(stepped_width(3, -1, 3, 96), 3);
    // A budget that cannot seat the floor caps it instead of raising it.
    assert_eq!(stepped_width(1, -1, MIN_WIDTH, 1), 1);
    assert_eq!(clamped_min_width(MIN_WIDTH, 1), 1);
    assert_eq!(clamped_min_width(0, 96), 1);
}

#[test]
fn an_unpublished_class_is_never_stepped() {
    assert_eq!(width_vote(0, 8, 30, 30, DEADZONE), 0);
}

#[test]
fn a_direction_has_to_repeat_before_it_is_applied() {
    let mut vote = StepVote::default();

    assert_eq!(confirm_step(&mut vote, 1, 3), 0);
    assert_eq!(confirm_step(&mut vote, 1, 3), 0);
    assert_eq!(confirm_step(&mut vote, 1, 3), 1);
    // Applying a direction consumes the agreement.
    assert_eq!(confirm_step(&mut vote, 1, 3), 0);
}

#[test]
fn an_alternating_signal_never_accumulates_agreement() {
    let mut vote = StepVote::default();

    for _ in 0..16 {
        assert_eq!(confirm_step(&mut vote, 1, 3), 0);
        assert_eq!(confirm_step(&mut vote, -1, 3), 0);
    }

    // A quiet window clears the tally outright.
    assert_eq!(confirm_step(&mut vote, 1, 3), 0);
    assert_eq!(confirm_step(&mut vote, 0, 3), 0);
    assert_eq!(vote, StepVote::default());
}

#[test]
fn demand_is_capped_by_holders_plus_waiters() {
    assert_eq!(class_demand(11, 4, 2, MIN_WIDTH, 96), 6);
    assert_eq!(class_demand(11, 8, 30, MIN_WIDTH, 96), 11);
    // The hard cap still applies, and the floor holds against a lone holder.
    assert_eq!(class_demand(11, 8, 30, MIN_WIDTH, 4), 4);
    assert_eq!(class_demand(11, 1, 0, MIN_WIDTH, 96), MIN_WIDTH);
}

#[test]
fn a_class_with_neither_holders_nor_waiters_asks_for_nothing() {
    assert_eq!(class_demand(11, 0, 0, MIN_WIDTH, 96), 0);
    // A single parked waiter is demand.
    assert_eq!(class_demand(11, 0, 1, MIN_WIDTH, 96), MIN_WIDTH);
}

#[test]
fn committed_widths_are_published_untouched_when_demand_fits() {
    let mut widths = [0u32; CLASS_COUNT];
    let mut demands = [0u32; CLASS_COUNT];
    widths[1] = 8;
    demands[1] = 8;
    // A quiet window for class 2: it asks for less than it holds, but with
    // spare budget its committed width is published unchanged.
    widths[2] = 9;
    demands[2] = 3;

    let shares = arbitrate_budget(&widths, &demands, 96, MIN_WIDTH);

    assert_eq!(shares, widths);
}

#[test]
fn oversubscribed_budget_is_scaled_proportionally() {
    let mut demands = [0u32; CLASS_COUNT];
    demands[1] = 30;
    demands[2] = 10;

    let shares = arbitrate_budget(&demands, &demands, 20, 1);

    assert_eq!(shares[1] + shares[2], 20);
    assert!(shares[1] > shares[2], "larger demand keeps a larger share");
    assert_eq!(shares[1], 15);
    assert_eq!(shares[2], 5);
}

#[test]
fn rounding_remainder_goes_to_the_largest_deficit() {
    let mut demands = [0u32; CLASS_COUNT];
    demands[1] = 7;
    demands[2] = 7;
    demands[3] = 7;

    let shares = arbitrate_budget(&demands, &demands, 10, 1);

    assert_eq!(shares[1] + shares[2] + shares[3], 10);
    // floor(7 * 10 / 21) == 3 each, one CPU of remainder to the first
    // class scanned with the largest deficit.
    assert_eq!(shares[1], 4);
    assert_eq!(shares[2], 3);
    assert_eq!(shares[3], 3);
}

#[test]
fn a_scarce_budget_still_seats_the_floor_of_every_demanding_class() {
    let mut demands = [0u32; CLASS_COUNT];
    demands[1] = 100;
    demands[2] = 1;

    let shares = arbitrate_budget(&demands, &demands, 6, MIN_WIDTH);

    // The scaled share of the small class rounds to 0 and is lifted to the
    // floor, which is the one way the total may exceed the budget.
    assert_eq!(shares[2], MIN_WIDTH);
    assert_eq!(shares[1], 5);
    assert_eq!(shares[1] + shares[2], 5 + MIN_WIDTH);
    // Classes the controller never seeded are not classes and stay
    // unlimited.
    assert_eq!(shares[3], 0);
}

#[test]
fn demand_less_classes_neither_reserve_budget_nor_lose_their_width() {
    let mut widths = [0u32; CLASS_COUNT];
    let mut demands = [0u32; CLASS_COUNT];
    // One hot class that can use the whole budget.
    widths[1] = 16;
    demands[1] = 16;
    // A second class with a single waiter.
    widths[2] = 4;
    demands[2] = 2;
    // Twelve committed but idle classes: no holder, no waiter, no demand.
    for class in 3..15 {
        widths[class] = 6;
        demands[class] = 0;
    }

    let shares = arbitrate_budget(&widths, &demands, 16, 1);

    // The budget is split between the two classes that asked for it, and
    // the hot class is not squeezed by the idle ones.
    let demanding: u32 = (1..CLASS_COUNT)
        .filter(|class| demands[*class] > 0)
        .map(|class| shares[class])
        .sum();
    assert_eq!(demanding, 16);
    assert_eq!(shares[1], 15);
    assert_eq!(shares[2], 1);
    // Idle classes keep the width they committed: publishing them narrower
    // would throttle them the moment they wake, and 0 would mean unlimited.
    for (class, share) in shares.iter().enumerate().take(15).skip(3) {
        assert_eq!(*share, 6, "class {class}");
    }
}

#[test]
fn an_idle_class_is_excluded_from_the_budget_sum_it_would_otherwise_fit_in() {
    let mut widths = [0u32; CLASS_COUNT];
    let mut demands = [0u32; CLASS_COUNT];
    widths[1] = 8;
    demands[1] = 8;
    widths[2] = 8;
    demands[2] = 0;

    // Counting the idle class would oversubscribe a budget of 8 and scale
    // the active class down; excluding it leaves the active class whole.
    let shares = arbitrate_budget(&widths, &demands, 8, MIN_WIDTH);

    assert_eq!(shares[1], 8);
    assert_eq!(shares[2], 8);
}

#[test]
fn merge_folds_the_absorbed_class_into_its_canonical_class() {
    let mut classes = new_classes();
    classes[2].seed = 4;
    classes[2].width = 4;
    classes[2].cs_ewma_ns = Some(300.0f64.to_bits());
    classes[5].seed = 9;
    classes[5].width = 7;
    classes[5].ncs_ewma_ns = Some(3000.0f64.to_bits());

    fold_merged_classes(&mut classes, &five_is_two(), &[1_000; CLASS_COUNT]);

    // Canonical class takes the wider width and the larger seed.
    assert_eq!(classes[2].width, 7);
    assert_eq!(classes[2].seed, 9);
    assert_eq!(classes[2].cs_ewma_ns, Some(300.0f64.to_bits()));
    assert_eq!(classes[2].ncs_ewma_ns, Some(3000.0f64.to_bits()));
    // A merge restarts the holdoff and the full-window gate.
    assert_eq!(classes[2].ticks_since_change, 0);
    assert_eq!(classes[2].acquires_at_change, 1_000);
    // The absorbed class asks for nothing, so it publishes 0 (unlimited)
    // and its stale DSQ stays drainable.
    assert!(classes[5].absorbed);
    assert_eq!(classes[5].width, 0);
}

#[test]
fn folding_is_idempotent_across_ticks() {
    let mut classes = new_classes();
    classes[2].width = 4;
    classes[5].width = 7;
    let canonical = five_is_two();

    fold_merged_classes(&mut classes, &canonical, &[0; CLASS_COUNT]);
    classes[2].width = 5;
    fold_merged_classes(&mut classes, &canonical, &[0; CLASS_COUNT]);

    assert_eq!(classes[2].width, 5);
    assert!(classes[5].absorbed);
}

#[test]
fn a_class_enters_the_loop_at_the_floor_whatever_its_first_seed_asked_for() {
    let mut class = ClassController::new();
    class.seed = 9;

    class.commit_initial_width(MIN_WIDTH, 96, 128);

    // The model estimate of the first window buys no width of its own: the
    // class starts at the floor and has to earn the rest one confirmed step
    // at a time.
    assert_eq!(class.width, MIN_WIDTH);
    assert_ne!(class.width, floored_width(class.seed, MIN_WIDTH, 96));
    assert_eq!(class.history(), vec![MIN_WIDTH]);
    // The seed itself is untouched, so it can steer growth from here on.
    assert_eq!(class.seed, 9);
    // Entering the loop starts the holdoff and the full-window gate.
    assert_eq!(class.ticks_since_change, 0);
    assert_eq!(class.acquires_at_change, 128);
}

#[test]
fn a_class_enters_no_wider_than_a_budget_that_cannot_seat_the_floor() {
    let mut class = ClassController::new();
    class.seed = 9;

    class.commit_initial_width(3, 1, 0);

    assert_eq!(class.width, 1);
}

#[test]
fn a_probe_span_never_exceeds_the_ranks_that_exist() {
    assert_eq!(clamped_probe_span(0), 0);
    assert_eq!(clamped_probe_span(2), 2);
    assert_eq!(clamped_probe_span(MANAGED_CLASS_COUNT), MANAGED_CLASS_COUNT);
    assert_eq!(
        clamped_probe_span(MANAGED_CLASS_COUNT + 1),
        MANAGED_CLASS_COUNT
    );
    assert_eq!(clamped_probe_span(u32::MAX), MANAGED_CLASS_COUNT);
    // The probe reads class `rank + 1`, so the widest span it may be given
    // still leaves the highest rank inside the per-class arrays.
    assert!((clamped_probe_span(u32::MAX) as usize) < CLASS_COUNT);
}

#[test]
fn publishing_a_span_through_a_null_pointer_is_a_no_op() {
    let mut slot = None;
    store_probe_span(&mut slot, 4);
    assert_eq!(slot, None);
}

#[test]
fn a_published_span_lands_clamped_in_the_slot() {
    let mut slot = Some(0u32);

    store_probe_span(&mut slot, 2);
    assert_eq!(slot, Some(2));

    store_probe_span(&mut slot, u32::MAX);
    assert_eq!(slot, Some(MANAGED_CLASS_COUNT));
}

#[test]
fn width_history_keeps_the_most_recent_values_in_order() {
    let mut class = ClassController::new();
    for width in 1..=10 {
        class.commit_width(width, 0);
    }

    assert_eq!(class.history(), vec![3, 4, 5, 6, 7, 8, 9, 10]);
    assert_eq!(class.changes, 10);
}

fn config(budget: u32) -> TickConfig {
    let config = tick_config(budget, None, Some("2"), Some("1"), Some("1"));
    assert_eq!(config.budget, budget);
    assert_eq!(config.width_max, budget);
    assert_eq!(config.min_width, 2);
    config
}

fn tables() -> ClassState {
    ClassState {
        class_width: Some([0; CLASS_COUNT]),
        class_active: Some([0; CLASS_COUNT]),
        class_active_peak: Some([0; CLASS_COUNT]),
        class_inactive_depth: Some([0; CLASS_COUNT]),
        class_inactive_depth_peak: Some([0; CLASS_COUNT]),
        inactive_probe_span: Some(0),
    }
}

fn asks_for(seed: u32) -> Option<ModelUpdate> {
    Some(ModelUpdate {
        cs_ewma_ns: 100.0f64.to_bits(),
        ncs_ewma_ns: 900.0f64.to_bits(),
        seed: Some(seed),
    })
}

#[test]
fn a_tick_publishes_widths_and_consumes_the_peaks() {
    let mut classes = new_classes();
    let mut state = tables();
    let config = config(16);
    let mut models = [None; CLASS_COUNT];
    models[3] = asks_for(10);

    // The first window enters the class at the floor.
    let mut acquires = [0; CLASS_COUNT];
    state.class_active_peak.as_mut().unwrap()[3] = 6;
    state.class_inactive_depth_peak.as_mut().unwrap()[3] = 6;
    run_tick(&mut classes, &mut state, &config, &models, &acquires);
    assert_eq!(state.class_width.unwrap()[3], 2);
    assert_eq!(state.class_active_peak.unwrap()[3], 0);
    assert_eq!(state.class_inactive_depth_peak.unwrap()[3], 0);
    assert_eq!(classes[3].seed, 10);

    // Saturated windows then widen it, one step at a time.
    for tick in 1..4 {
        acquires[3] += MIN_ACQUIRES_PER_DECISION;
        state.class_active_peak.as_mut().unwrap()[3] = 2 + tick;
        state.class_inactive_depth_peak.as_mut().unwrap()[3] = 8;
        run_tick(&mut classes, &mut state, &config, &models, &acquires);
    }
    assert_eq!(state.class_width.unwrap()[3], 5);
    assert_eq!(classes[3].history(), vec![2, 3, 4, 5]);
    assert_eq!(state.class_width.unwrap()[1], 0);

    let report = class_report(true, &classes, 3).expect("the class has a width");
    assert_eq!(report.width, 5);
    assert_eq!(report.published, 5);
    assert_eq!(report.seed, 10);
    assert!(class_report(true, &classes, 1).is_none());
    assert!(class_report(false, &classes, 3).is_none());
}

#[test]
fn a_tick_folds_merged_classes_first() {
    let mut classes = new_classes();
    classes[2].seed = 4;
    classes[2].width = 4;
    classes[5].seed = 9;
    classes[5].width = 7;
    let mut state = tables();
    let config = config(16);
    let mut models = [None; CLASS_COUNT];
    models[5] = asks_for(10);
    let acquires = [7; CLASS_COUNT];

    let mut unmerged = classes;
    fold_and_run_tick(&mut unmerged, &mut state, &config, None, &models, &acquires);
    assert_eq!(unmerged[2].width, 4);
    assert_ne!(state.class_width.unwrap()[5], 0);

    fold_and_run_tick(
        &mut classes,
        &mut state,
        &config,
        Some(&five_is_two()),
        &models,
        &acquires,
    );
    // The merged class has no say, and is left unlimited.
    assert!(classes[5].absorbed);
    assert_eq!(classes[5].seed, 0);
    assert_eq!(state.class_width.unwrap()[5], 0);
    // Its width and its seed went to the class that it goes by.
    assert_eq!(classes[2].seed, 9);
    assert_eq!(classes[2].width, 7);
    assert_eq!(classes[2].acquires_at_change, 7);
    assert_eq!(state.class_width.unwrap()[2], 7);
}

#[test]
fn an_absorbed_class_stays_as_it_is() {
    let mut class = ClassController::new();
    class.absorbed = true;
    let window = WindowSignals {
        peak: 9,
        depth: 9,
        acquires: 1_000_000,
        model: asks_for(9),
    };
    assert_eq!(advance_class(&mut class, &window, &config(16)), (0, 0));
    assert_eq!(class.width, 0);
    assert_eq!(class.seed, 0);
}

#[test]
fn ticks_are_a_window_apart() {
    let mut last_tick = 0;
    assert!(!maybe_run_tick(&mut last_tick, true, 1_000, 500));
    assert_eq!(last_tick, 1_000);
    assert!(!maybe_run_tick(&mut last_tick, true, 1_499, 500));
    assert!(!maybe_run_tick(&mut last_tick, false, 9_000, 500));
    assert!(maybe_run_tick(&mut last_tick, true, 1_500, 500));
    assert_eq!(last_tick, 1_500);
}

#[test]
fn tables_are_handed_over_with_the_span_of_all_classes() {
    let mut state = tables();
    publish_inactive_probe_span(&mut state, 5);
    assert_eq!(state.inactive_probe_span, Some(5));
    clear_class_state_ptrs(&mut state);
    assert!(state.class_width.is_none());
    publish_inactive_probe_span(&mut state, 5);
    assert_eq!(state.inactive_probe_span, None);
}

#[test]
fn a_process_has_at_least_one_cpu() {
    assert_eq!(cpu_budget(0), 1);
    assert_eq!(cpu_budget(12), 12);
}

#[test]
fn static_widths_need_width_control() {
    assert!(enabled(Some("1")));
    assert!(!enabled(None));
    assert!(fixed_class_widths(false, Some("4"), None).is_none());
    assert_eq!(fixed_class_widths(true, Some("4"), None).unwrap()[1], 4);
}

#[test]
fn a_direction_that_keeps_repeating_is_applied_again_and_again() {
    let mut vote = StepVote::default();
    let steps: Vec<i32> = (0..7).map(|_| confirm_step(&mut vote, -1, 3)).collect();
    assert_eq!(steps, vec![0, 0, -1, 0, 0, -1, 0]);
    // A step takes one window at least.
    let mut vote = StepVote::default();
    let steps: Vec<i32> = (0..3).map(|_| confirm_step(&mut vote, 1, 0)).collect();
    assert_eq!(steps, vec![1, 1, 1]);
}
