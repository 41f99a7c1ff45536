use vexy_svgo_plugin_sdk::registry::{PerformanceHints, PluginStats, RegistryConfig};

#[test]
fn record_execution_tracks_counts_extremes_and_mean() {
    let mut stats = PluginStats::default();
    stats.record_execution(30, true);
    assert_eq!(stats.executions, 1);
    assert_eq!(stats.min_time, 30);
    assert_eq!(stats.max_time, 30);
    assert_eq!(stats.avg_time, 30);
    stats.record_execution(10, false);
    stats.record_execution(50, true);
    assert_eq!(stats.executions, 3);
    assert_eq!(stats.total_time, 90);
    assert_eq!(stats.avg_time, 30);
    assert_eq!(stats.min_time, 10);
    assert_eq!(stats.max_time, 50);
    assert_eq!(stats.error_count, 1);
    assert!(stats.last_execution.is_some());
}

#[test]
fn mean_uses_the_low_64_bits_of_the_total() {
    let mut stats = PluginStats::default();
    stats.record_execution(1u128 << 64, true);
    stats.record_execution(4, true);
    assert_eq!(stats.avg_time, 2);
}

#[test]
fn registry_defaults() {
    let c = RegistryConfig::default();
    assert!(c.enable_caching && c.collect_stats && !c.allow_experimental);
    assert_eq!(c.max_cache_size, 100);
    let h = PerformanceHints::default();
    assert_eq!((h.time_complexity, h.memory_usage, h.execution_order), (5, 5, 0));
}

#[test]
fn mean_stays_between_shortest_and_longest() {
    let mut stats = PluginStats::default();
    for d in [5u128, 3, 9, 4] {
        stats.record_execution(d, true);
        assert!(stats.min_time <= stats.avg_time && stats.avg_time <= stats.max_time);
        assert!(stats.executions as u128 * stats.min_time <= stats.total_time);
        assert!(stats.total_time <= stats.executions as u128 * stats.max_time);
    }
    assert_eq!((stats.min_time, stats.avg_time, stats.max_time), (3, 5, 9));
}
