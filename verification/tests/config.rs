use entropy_scan::config::{ScanConfig, DEFAULT_POOL_SIZE, DEFAULT_QUEUE_CAPACITY};
use entropy_scan::filter::PathEntry;
use entropy_scan::scan::{Offer, Phase};

#[test]
fn default_config_has_the_documented_values() {
    let config = ScanConfig::default();
    assert_eq!(config.min_file_size, 2048);
    assert!(config.require_sector_alignment);
    assert_eq!(f32::from_bits(config.entropy_threshold.bits()), 7.9);
    assert_eq!(config.sample_window, 171072);
    assert_eq!(config.worker_pool_size, DEFAULT_POOL_SIZE);
    assert_eq!(config.queue_capacity, DEFAULT_QUEUE_CAPACITY);
    assert!(!config.follow_symlinks);
    assert!(config.probe_types);
}

#[test]
fn config_builds_its_filter_and_evaluator() {
    let mut config = ScanConfig::default();
    config.min_file_size = 1024;
    config.require_sector_alignment = false;
    config.sample_window = 4096;
    config.probe_types = false;

    let filter = config.filter();
    assert_eq!(filter.min_size, 1024);
    assert!(!filter.require_sector_alignment);

    let evaluator = config.evaluator();
    assert_eq!(evaluator.filter, filter);
    assert_eq!(evaluator.window, 4096);
    assert_eq!(evaluator.threshold, config.entropy_threshold);
    assert!(!evaluator.probe_types);
}

#[test]
fn config_builds_a_coordinator_that_has_not_begun() {
    let mut config = ScanConfig::default();
    config.queue_capacity = 1;
    let mut coordinator = config.coordinator();
    assert_eq!(coordinator.phase(), Phase::Scanning);
    assert_eq!(coordinator.accepted(), 0);
    assert_eq!(coordinator.pending(), 0);
    assert_eq!(coordinator.in_flight(), 0);
    assert!(!coordinator.is_done());

    let file = |path: &str, size: u64| PathEntry {
        path: String::from(path),
        size,
        is_dir: false,
        is_file: true,
    };
    assert_eq!(coordinator.offer(file("/small", 512)), Offer::Rejected);
    assert_eq!(coordinator.offer(file("/first", 4096)), Offer::Queued(0));
    assert_eq!(coordinator.offer(file("/second", 4096)), Offer::Full(file("/second", 4096)));
}
