//! The telemetry store: windowed history, ordering, retention purges,
//! and the bounded host-snapshot ring.

use kvm_manager::monitoring::MonitoringService;
use kvm_manager::system_monitor::{LoadAverage, NetworkInfo, SystemStats, SystemStatsCache};

fn sample_stats(ts: u64) -> SystemStats {
    SystemStats {
        timestamp: ts,
        cpu_usage: 10,
        memory_used: 100,
        memory_total: 200,
        memory_percentage: 50,
        swap_used: 0,
        swap_total: 0,
        disk_stats: vec![],
        network_stats: NetworkInfo {
            total_bytes_received: 0,
            total_bytes_transmitted: 0,
            total_packets_received: 0,
            total_packets_transmitted: 0,
            interfaces: vec![],
        },
        load_average: LoadAverage { one: 1, five: 2, fifteen: 3 },
        uptime: ts,
        running_vms: 1,
    }
}

#[test]
fn history_is_windowed_and_ordered() {
    let mut svc = MonitoringService::new();
    assert_eq!(svc.collection_interval_secs, 5);
    svc.store_metric("vm-1", "cpu_usage", 10, 100);
    svc.store_metric("vm-1", "cpu_usage", 20, 200);
    svc.store_metric("vm-1", "cpu_usage", 30, 300);
    // Window of 150 seconds ending at 320: only points newer than 170.
    let h = svc.get_metric_history("vm-1", "cpu_usage", 150, 320);
    assert_eq!(h.len(), 2);
    assert_eq!((h[0].timestamp, h[0].value), (200, 20));
    assert_eq!((h[1].timestamp, h[1].value), (300, 30));
    assert!(h.windows(2).all(|w| w[0].timestamp <= w[1].timestamp));
    // A window covering everything returns the whole series in order.
    let all = svc.get_metric_history("vm-1", "cpu_usage", 1_000, 320);
    assert_eq!(all.len(), 3);
    // An unknown series is empty, not an error.
    assert!(svc.get_metric_history("vm-2", "cpu_usage", 1_000, 320).is_empty());
    assert!(svc.get_metric_history("vm-1", "disk_read", 1_000, 320).is_empty());
}

#[test]
fn out_of_order_samples_are_dropped() {
    let mut svc = MonitoringService::new();
    svc.store_metric("host", "cpu_usage", 1, 500);
    svc.store_metric("host", "cpu_usage", 2, 400);
    svc.store_metric("host", "cpu_usage", 3, 500);
    let h = svc.get_metric_history("host", "cpu_usage", 10_000, 500);
    assert_eq!(h.len(), 2);
    assert_eq!(h[0].value, 1);
    assert_eq!(h[1].value, 3);
}

#[test]
fn purge_drops_old_points_and_empty_series() {
    let mut svc = MonitoringService::new();
    svc.store_metric("vm-1", "cpu_usage", 10, 100);
    svc.store_metric("vm-1", "cpu_usage", 20, 5_000);
    svc.store_metric("vm-2", "memory_usage", 99, 100);
    let before = svc.get_metric_history("vm-1", "cpu_usage", u64::MAX, 5_000).len();
    // Retain one hour of history at time 5000: the points at 100 fall out.
    svc.cleanup_old_metrics(5_000, 3_600);
    let after = svc.get_metric_history("vm-1", "cpu_usage", u64::MAX, 5_000);
    assert!(after.len() <= before);
    assert_eq!(after.len(), 1);
    assert_eq!(after[0].timestamp, 5_000);
    // The second entity's only point was old; its series is gone entirely.
    assert!(svc.get_metric_history("vm-2", "memory_usage", u64::MAX, 5_000).is_empty());
    assert_eq!(svc.metrics_history.len(), 1);
    // A second purge cycle never grows a series.
    svc.cleanup_old_metrics(6_000, 3_600);
    assert!(svc.get_metric_history("vm-1", "cpu_usage", u64::MAX, 6_000).len() <= 1);
}

#[test]
fn series_of_different_entities_stay_apart() {
    let mut svc = MonitoringService::new();
    svc.store_metric("a", "cpu_usage", 1, 10);
    svc.store_metric("b", "cpu_usage", 2, 10);
    svc.store_metric("a", "network_rx", 3, 10);
    let a = svc.get_metric_history("a", "cpu_usage", 100, 10);
    assert_eq!(a.len(), 1);
    assert_eq!(a[0].value, 1);
    let b = svc.get_metric_history("b", "cpu_usage", 100, 10);
    assert_eq!(b[0].value, 2);
    let rx = svc.get_metric_history("a", "network_rx", 100, 10);
    assert_eq!(rx[0].value, 3);
}

#[test]
fn snapshot_ring_evicts_oldest_first() {
    let mut cache = SystemStatsCache::new(2);
    assert!(cache.current().is_none());
    cache.record(sample_stats(1));
    cache.record(sample_stats(2));
    cache.record(sample_stats(3));
    assert_eq!(cache.history_len(), 2);
    assert_eq!(cache.get_history(0).timestamp, 2);
    assert_eq!(cache.get_history(1).timestamp, 3);
    assert_eq!(cache.current().unwrap().timestamp, 3);
}
