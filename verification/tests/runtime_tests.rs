use ocorganize_core::runtime::{classify_tier, memory_bytes_for_tiering, ONE_GIB};
use ocorganize_core::{parse_tier_override, PerformanceTier, RuntimeProfile};

#[test]
fn memory_bytes_for_tiering_prefers_reported_available() {
    let bytes = memory_bytes_for_tiering(6 * ONE_GIB, ONE_GIB, 16 * ONE_GIB);
    assert_eq!(bytes, 6 * ONE_GIB);
}

#[test]
fn memory_bytes_for_tiering_falls_back_to_free_memory() {
    let bytes = memory_bytes_for_tiering(ONE_GIB, 6 * ONE_GIB, 16 * ONE_GIB);
    assert_eq!(bytes, 6 * ONE_GIB);
}

#[test]
fn memory_bytes_for_tiering_estimates_from_total_when_available_unreported() {
    let bytes = memory_bytes_for_tiering(0, ONE_GIB, 24 * ONE_GIB);
    assert_eq!(bytes, 12 * ONE_GIB);
}

#[test]
fn classify_tier_high_when_macos_reports_zero_available() {
    let tier = classify_tier(14, memory_bytes_for_tiering(0, ONE_GIB, 24 * ONE_GIB));
    assert_eq!(tier, PerformanceTier::High);
}

#[test]
fn memory_bytes_for_tiering_takes_larger_small_figure() {
    assert_eq!(memory_bytes_for_tiering(ONE_GIB, 2 * ONE_GIB, 3 * ONE_GIB), 2 * ONE_GIB);
    assert_eq!(memory_bytes_for_tiering(0, 0, 0), 0);
}

#[test]
fn profile_values_per_tier() {
    let low = RuntimeProfile::from_specs(2, 2 * ONE_GIB);
    assert_eq!(
        (low.walk_threads, low.metadata_threads, low.move_concurrency, low.progress_interval, low.undo_flush_batch),
        (2, 2, 1, 5000, 500)
    );
    let standard = RuntimeProfile::from_specs(6, 6 * ONE_GIB);
    assert_eq!(
        (standard.walk_threads, standard.metadata_threads, standard.move_concurrency, standard.progress_interval),
        (6, 6, 6, 1000)
    );
    assert_eq!(standard.undo_flush_batch, 2000);
    let high = RuntimeProfile::from_specs(96, 64 * ONE_GIB);
    assert_eq!((high.walk_threads, high.metadata_threads, high.move_concurrency), (16, 96, 32));
    assert_eq!((high.progress_interval, high.undo_flush_batch), (500, 5000));
}

#[test]
fn sequential_moves_exactly_in_low_tier() {
    for cpu in [1usize, 2, 3, 4, 6, 8, 12, 64] {
        for gib in [1u64, 3, 4, 6, 8, 32] {
            let profile = RuntimeProfile::from_specs(cpu, gib * ONE_GIB);
            assert!(profile.move_concurrency >= 1);
            assert_eq!(profile.move_concurrency <= 1, profile.tier == PerformanceTier::Low);
        }
    }
}

#[test]
fn tier_never_drops_with_more_resources() {
    let rank = |t: PerformanceTier| match t {
        PerformanceTier::Low => 0,
        PerformanceTier::Standard => 1,
        PerformanceTier::High => 2,
    };
    assert!(rank(classify_tier(4, 4 * ONE_GIB)) <= rank(classify_tier(8, 8 * ONE_GIB)));
    assert!(rank(classify_tier(3, 16 * ONE_GIB)) <= rank(classify_tier(4, 16 * ONE_GIB)));
}

#[test]
fn progress_interval_bounds() {
    let profile = RuntimeProfile::from_specs(12, 16 * ONE_GIB);
    assert_eq!(profile.progress_interval_for_total(0), 20);
    assert_eq!(profile.progress_interval_for_total(100), 20);
    assert_eq!(profile.progress_interval_for_total(10_000), 50);
    assert_eq!(profile.progress_interval_for_total(1_000_000), 500);
}

#[test]
fn tier_override_ignores_case() {
    assert_eq!(parse_tier_override("LOW"), PerformanceTier::Low);
    assert_eq!(parse_tier_override("High"), PerformanceTier::High);
    assert_eq!(parse_tier_override("medium"), PerformanceTier::Standard);
    let forced = RuntimeProfile::detect(Some("low"), Some(16), 64 * ONE_GIB);
    assert_eq!(forced.tier, PerformanceTier::Low);
    let fallback = RuntimeProfile::detect(None, None, 64 * ONE_GIB);
    assert_eq!(fallback.cpu_threads, 4);
    assert_eq!(fallback.tier, PerformanceTier::Standard);
}
