use liven::config::LivenConfig;
use liven::sysinfo::{calculate_auto_budget, detect_system_ram_mb, estimate_key_capacity};

#[test]
fn test_calculate_auto_budget() {
    assert_eq!(calculate_auto_budget(128), 32);
    assert_eq!(calculate_auto_budget(256), 64);
    assert_eq!(calculate_auto_budget(1024), 256);
    assert_eq!(calculate_auto_budget(4096), 1024);
    assert_eq!(calculate_auto_budget(16384), 4096);
    assert_eq!(calculate_auto_budget(32768), 4096);
}

#[test]
fn test_estimate_key_capacity() {
    let capacity_16 = estimate_key_capacity(16);
    assert!(
        capacity_16 > 190_000 && capacity_16 < 200_000,
        "16MB should be ~190K keys, got {}",
        capacity_16
    );

    let capacity_64 = estimate_key_capacity(64);
    assert!(
        capacity_64 > 790_000 && capacity_64 < 800_000,
        "64MB should be ~798K keys, got {}",
        capacity_64
    );

    let capacity_256 = estimate_key_capacity(256);
    assert!(
        capacity_256 > 3_100_000 && capacity_256 < 3_200_000,
        "256MB should be ~3.19M keys, got {}",
        capacity_256
    );
}

#[test]
fn estimate_key_capacity_exact_value() {
    assert_eq!(estimate_key_capacity(1), (1048576 + 83) / 84);
    assert_eq!(estimate_key_capacity(0), 0);
}

#[test]
fn meminfo_total_is_read_in_megabytes() {
    let text = "MemFree:  100 kB\nMemTotal:       16384000 kB\nSwapTotal: 0 kB\n";
    assert_eq!(detect_system_ram_mb(text), Some(16000));
}

#[test]
fn meminfo_without_total_gives_none() {
    assert_eq!(detect_system_ram_mb("MemFree: 10 kB\n"), None);
    assert_eq!(detect_system_ram_mb(""), None);
    assert_eq!(detect_system_ram_mb("MemTotal: lots kB\nMemTotal: 2048 kB\n"), None);
}

#[test]
fn meminfo_accepts_a_plus_sign() {
    assert_eq!(detect_system_ram_mb("MemTotal: +2048 kB"), Some(2));
}

#[test]
fn embedded_defaults() {
    let c = LivenConfig::default();
    assert_eq!(c.max_index_ram_mb, 16);
    assert_eq!(c.max_streams, 32);
    assert_eq!(c.max_segment_mb, 16);
    assert_eq!(c.max_open_fds, 64);
    assert_eq!(c.broadcast_capacity, 4096);
    assert_eq!(c.compaction_threshold_segments, 4);
    assert_eq!(c.compaction_threshold_bytes, 64 * 1024 * 1024);
    assert_eq!(c.max_scan_results, 100_000);
    assert_eq!(c.commit_drain_window_us, 5000);
    assert_eq!(c.commit_max_batch_size, 2048);
}
