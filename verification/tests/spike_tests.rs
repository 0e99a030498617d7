use linux_task_manager::spike::{is_spike, spike_flags, SPIKE_THRESHOLD_CENTIPERCENT};

#[test]
fn change_exactly_at_threshold_is_not_a_spike() {
    // 100 -> 120 is exactly +20 %: strict comparison, not a spike.
    assert!(!is_spike(100, 120, SPIKE_THRESHOLD_CENTIPERCENT));
}

#[test]
fn change_above_threshold_is_a_spike() {
    // 100 -> 121 is +21 %.
    assert!(is_spike(100, 121, SPIKE_THRESHOLD_CENTIPERCENT));
}

#[test]
fn change_from_zero_is_never_a_spike() {
    // Relative change from zero is undefined: never reported as a spike.
    assert!(!is_spike(0, 5, SPIKE_THRESHOLD_CENTIPERCENT));
    assert!(!is_spike(0, u64::MAX, SPIKE_THRESHOLD_CENTIPERCENT));
}

#[test]
fn falling_spike_counts_by_magnitude() {
    // 100 -> 79 is -21 %: magnitude exceeds the threshold.
    assert!(is_spike(100, 79, SPIKE_THRESHOLD_CENTIPERCENT));
    // 100 -> 80 is exactly -20 %: not a spike.
    assert!(!is_spike(100, 80, SPIKE_THRESHOLD_CENTIPERCENT));
}

#[test]
fn huge_values_do_not_overflow() {
    assert!(is_spike(u64::MAX / 2, u64::MAX, SPIKE_THRESHOLD_CENTIPERCENT));
    assert!(!is_spike(u64::MAX, u64::MAX, SPIKE_THRESHOLD_CENTIPERCENT));
}

#[test]
fn flags_align_with_consecutive_pairs() {
    let series = vec![100u64, 120, 121, 400, 0, 7];
    let flags = spike_flags(&series, SPIKE_THRESHOLD_CENTIPERCENT);
    assert_eq!(flags.len(), series.len() - 1);
    assert_eq!(flags, vec![false, false, true, true, false]);
}

#[test]
fn short_series_yields_no_flags() {
    assert!(spike_flags(&Vec::new(), SPIKE_THRESHOLD_CENTIPERCENT).is_empty());
    assert!(spike_flags(&vec![42u64], SPIKE_THRESHOLD_CENTIPERCENT).is_empty());
}
