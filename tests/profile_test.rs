use gsnake_levels::profile::{normalize_difficulties, LevelStats};

#[test]
fn normalize_difficulties_trims_lowercases_and_deduplicates() {
    let raw = vec![
        " Easy ".to_string(),
        "medium".to_string(),
        "EASY".to_string(),
        "".to_string(),
    ];
    let normalized = normalize_difficulties(&raw);
    assert_eq!(normalized, vec!["easy".to_string(), "medium".to_string()]);
}

#[test]
fn level_stats_record_tracks_extremes() {
    let mut stats = LevelStats::default();
    stats.record(5_000_000, 10);
    stats.record(2_000_000, 12);
    stats.record(9_000_000, 8);
    assert_eq!(stats.total_nanos, 16_000_000);
    assert_eq!(stats.solves, 3);
    assert_eq!(stats.total_moves, 30);
    assert_eq!(stats.min_nanos, Some(2_000_000));
    assert_eq!(stats.max_nanos, Some(9_000_000));
}
