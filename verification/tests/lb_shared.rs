use accordin::accordin_shared::env::{env_flag, env_u32_clamped};
use accordin::lb_shared::admission::{
    mark_critical_section_entered, mark_critical_section_exit, mark_slow_path_pending, new_word,
    reset_state, word_for_test, IN_CRITICAL_SECTION, SLOW_PATH_PENDING,
};
use accordin::lb_shared::arch::{
    anchor_cycles, calibration_done, convert_sample_to_ns, detect_tsc_frequency_hz,
    elapsed_sample_ns, measured_freq_hz, published_freq_hz, scale_cycles_to_ns,
    wait_time_elapsed_ns_between, wait_time_to_ns, wait_time_total_to_ns, TscCalibration,
};
use accordin::lb_shared::cpu_affinity::{
    configured_cpu_count_env, cpu_outside_mask, ensure_current_thread_affinity,
    first_numa_node_cpus, format_cpu_list, load_cpu_affinity_state, next_node, numa_node_id, parse_cpu_list, parse_requested_cpu_count,
    select_first_numa_cpus, AffinityError, CountVariable, CpuAffinityState, CpuCountError,
    CpuListError, EnvValue, ListGave, NodeList, NodeStep, CPU_SETSIZE,
};

#[test]
fn admission_word_helpers_track_bit_transitions() {
    let mut word = new_word();
    reset_state(&mut word);

    mark_slow_path_pending(&mut word);
    assert_eq!(word_for_test(&word), SLOW_PATH_PENDING);

    mark_critical_section_entered(&mut word);
    assert_eq!(word_for_test(&word), IN_CRITICAL_SECTION);

    mark_slow_path_pending(&mut word);
    assert_eq!(
        word_for_test(&word),
        IN_CRITICAL_SECTION | SLOW_PATH_PENDING
    );

    mark_critical_section_exit(&mut word);
    assert_eq!(word_for_test(&word), SLOW_PATH_PENDING);

    mark_critical_section_entered(&mut word);
    mark_critical_section_exit(&mut word);
    assert_eq!(word_for_test(&word), 0);
}

fn test_calibration() -> TscCalibration {
    TscCalibration {
        base_cycles: 1_000,
        base_ns: 5_000,
        freq_hz: 2_000_000_000,
    }
}

#[test]
fn cycles_to_ns_uses_calibrated_anchor_and_frequency() {
    let calibration = test_calibration();

    assert_eq!(scale_cycles_to_ns(600, calibration.freq_hz), 300);
    assert_eq!(convert_sample_to_ns(&calibration, 1_600), 5_300);
    assert_eq!(wait_time_to_ns(&calibration, 1_600), 5_300);
}

#[test]
fn elapsed_between_samples_scales_by_frequency() {
    let calibration = test_calibration();

    assert_eq!(elapsed_sample_ns(&calibration, 2_000, 3_000), 500);
    assert_eq!(
        wait_time_elapsed_ns_between(&calibration, 2_000, 3_000),
        500
    );
    assert_eq!(wait_time_total_to_ns(&calibration, 2_000), 1_000);
}

#[test]
fn converting_sample_before_anchor_saturates_to_anchor_ns() {
    let calibration = test_calibration();

    assert_eq!(convert_sample_to_ns(&calibration, 900), 5_000);
    assert_eq!(elapsed_sample_ns(&calibration, 3_000, 2_000), 0);
}

#[test]
fn a_published_frequency_is_taken_before_a_measured_one() {
    assert_eq!(published_freq_hz("2400000\n"), Some(2_400_000_000));
    assert_eq!(published_freq_hz("0"), Some(1));
    assert_eq!(published_freq_hz("fast"), None);
    assert_eq!(
        detect_tsc_frequency_hz(&vec![
            None,
            Some("bad".to_string()),
            Some("3000000".to_string()),
            Some("1".to_string())
        ]),
        Some(3_000_000_000)
    );
    assert_eq!(detect_tsc_frequency_hz(&vec![None]), None);

    assert!(!calibration_done(1_000, 20_000_999));
    assert!(calibration_done(1_000, 20_001_000));
    assert_eq!(measured_freq_hz(40_000_000, 20_000_000), 2_000_000_000);
    assert_eq!(anchor_cycles(1_000, 3_000), 2_000);
}

#[test]
fn parse_cpu_list_accepts_singletons_and_ranges() {
    assert_eq!(
        parse_cpu_list("0,2,4-6,10\n").ok(),
        Some(vec![0, 2, 4, 5, 6, 10])
    );
}

#[test]
fn parse_cpu_list_deduplicates_and_sorts() {
    assert_eq!(parse_cpu_list("4,2,2,0-1").ok(), Some(vec![0, 1, 2, 4]));
}

#[test]
fn parse_cpu_list_rejects_descending_ranges() {
    let error = parse_cpu_list("4-2").err().unwrap();
    assert!(error.describe().contains("descending"));
    assert!(matches!(error, CpuListError::Descending { ref part } if part == "4-2"));
}

#[test]
fn parse_cpu_list_rejects_what_is_no_cpu() {
    assert!(matches!(
        parse_cpu_list("1,,2").err(),
        Some(CpuListError::EmptyEntry)
    ));
    assert!(matches!(
        parse_cpu_list("1,x").err(),
        Some(CpuListError::InvalidId { ref value }) if value == "x"
    ));
    assert!(matches!(
        parse_cpu_list("3-y").err(),
        Some(CpuListError::InvalidId { ref value }) if value == "y"
    ));
    assert_eq!(parse_cpu_list("").ok(), Some(vec![]));
}

#[test]
fn select_first_numa_cpus_respects_current_affinity() {
    let numa_cpus = vec![0, 2, 4, 6, 8, 10];
    let allowed_cpus = vec![2, 6, 8, 12];

    assert_eq!(
        select_first_numa_cpus(&numa_cpus, Some(&allowed_cpus), 3),
        Ok(vec![2, 6, 8])
    );
    assert_eq!(
        select_first_numa_cpus(&numa_cpus, None, 2),
        Ok(vec![0, 2])
    );
}

#[test]
fn select_first_numa_cpus_requires_enough_available_cpus() {
    let error = select_first_numa_cpus(&vec![0, 2], Some(&vec![2]), 2).unwrap_err();
    assert!(error.contains("requested 2 CPUs"));
    assert_eq!(
        error,
        "requested 2 CPUs from the first NUMA node but only 1 are available"
    );
}

#[test]
fn format_cpu_list_joins_selected_cpus() {
    assert_eq!(format_cpu_list(&vec![0, 2, 4]), "0,2,4");
}

#[test]
fn a_cpu_count_is_a_positive_number() {
    assert_eq!(parse_requested_cpu_count(" 8 "), Ok(8));
    assert_eq!(parse_requested_cpu_count("0"), Err(CpuCountError::Zero));
    assert_eq!(
        parse_requested_cpu_count("many"),
        Err(CpuCountError::NotANumber)
    );
}

#[test]
fn the_first_count_variable_that_is_set_counts() {
    assert_eq!(
        configured_cpu_count_env(
            EnvValue::Present("4".to_string()),
            EnvValue::Present("8".to_string())
        ),
        Some((CountVariable::MaskK, "4".to_string()))
    );
    assert_eq!(
        configured_cpu_count_env(EnvValue::Missing, EnvValue::Present("8".to_string())),
        Some((CountVariable::Short, "8".to_string()))
    );
    assert_eq!(
        configured_cpu_count_env(EnvValue::Missing, EnvValue::Missing),
        None
    );
}

#[test]
fn a_process_is_limited_to_the_cpus_it_asks_for() {
    let asks = |value: &str| Some((CountVariable::Short, value.to_string()));
    let node = vec![0, 2, 4];
    assert!(matches!(
        load_cpu_affinity_state(None, Some(&node), None),
        CpuAffinityState::Disabled
    ));
    assert!(matches!(
        load_cpu_affinity_state(asks("2"), Some(&node), None),
        CpuAffinityState::Configured { requested_cpus: 2, ref cpus, .. } if *cpus == vec![0, 2]
    ));
    assert!(matches!(
        load_cpu_affinity_state(asks("x"), Some(&node), None),
        CpuAffinityState::Invalid {
            error: AffinityError::Count(CpuCountError::NotANumber),
            ..
        }
    ));
    assert!(matches!(
        load_cpu_affinity_state(asks("0"), None, None),
        CpuAffinityState::Invalid {
            error: AffinityError::Count(CpuCountError::Zero),
            ..
        }
    ));
    assert!(matches!(
        load_cpu_affinity_state(asks("2"), None, None),
        CpuAffinityState::Invalid {
            error: AffinityError::NodeUnreadable,
            ..
        }
    ));
    assert!(matches!(
        load_cpu_affinity_state(asks("4"), Some(&node), None),
        CpuAffinityState::Invalid {
            error: AffinityError::TooFew(_),
            ..
        }
    ));
}

#[test]
fn numa_nodes_are_visited_by_their_number() {
    assert_eq!(numa_node_id("node10"), Some(10));
    assert_eq!(numa_node_id("node"), None);
    assert_eq!(numa_node_id("nodes1"), None);
    assert_eq!(numa_node_id("cpu1"), None);

    let ids = vec![10, 2, 7];
    let first = next_node(&ids, None);
    assert_eq!(first, Some(1));
    let second = next_node(&ids, first);
    assert_eq!(second, Some(2));
    let third = next_node(&ids, second);
    assert_eq!(third, Some(0));
    assert_eq!(next_node(&ids, third), None);
}

#[test]
fn a_mask_holds_only_so_many_cpus() {
    assert_eq!(cpu_outside_mask(&vec![0, CPU_SETSIZE - 1]), None);
    assert_eq!(
        cpu_outside_mask(&vec![0, CPU_SETSIZE, CPU_SETSIZE + 1]),
        Some(CPU_SETSIZE)
    );
}

#[test]
fn affinity_is_applied_once_per_thread() {
    let mut applied = false;
    assert!(!ensure_current_thread_affinity(false, &mut applied));
    assert!(ensure_current_thread_affinity(true, &mut applied));
    assert!(!ensure_current_thread_affinity(true, &mut applied));
}

#[test]
fn flags_and_bounded_numbers_are_read_from_the_environment() {
    assert!(env_flag(Some("1")));
    assert!(!env_flag(Some("0")));
    assert!(!env_flag(None));
    assert_eq!(env_u32_clamped(None, 5, 1, 9), 5);
    assert_eq!(env_u32_clamped(Some("100"), 5, 1, 9), 9);
    assert_eq!(env_u32_clamped(Some("0"), 5, 1, 9), 1);
    assert_eq!(env_u32_clamped(Some("x"), 5, 1, 9), 5);
}

#[test]
fn the_first_node_with_cpus_is_taken() {
    let ids = vec![3, 1];
    let read = |list: NodeList| NodeStep::Read { list };
    let node = |index: usize| NodeList::Node { index };
    let first = first_numa_node_cpus(&ids, None, ListGave::Empty);
    assert_eq!(first, read(node(1)));
    let step = |list: NodeList, gave: ListGave| first_numa_node_cpus(&ids, Some(list), gave);
    assert_eq!(step(node(1), ListGave::Cpus), NodeStep::Take);
    assert_eq!(step(node(1), ListGave::Unreadable), NodeStep::Fail);
    assert_eq!(step(node(1), ListGave::Empty), read(node(0)));
    assert_eq!(step(node(0), ListGave::Empty), read(NodeList::Online));
    assert_eq!(step(NodeList::Online, ListGave::Empty), NodeStep::Take);
    assert_eq!(step(NodeList::Online, ListGave::Cpus), NodeStep::Take);
    assert_eq!(step(NodeList::Online, ListGave::Unreadable), NodeStep::Fail);
    assert_eq!(
        first_numa_node_cpus(&Vec::new(), None, ListGave::Empty),
        read(NodeList::Online)
    );
}
