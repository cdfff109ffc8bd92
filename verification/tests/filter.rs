use entropy_scan::filter::{FileFilter, PathEntry, DEFAULT_MIN_SIZE, SECTOR_SIZE};

fn entry(size: u64, is_dir: bool, is_file: bool) -> PathEntry {
    PathEntry { path: String::from("/data/blob"), size, is_dir, is_file }
}

#[test]
fn filter_accepts_aligned_regular_file() {
    let filter = FileFilter { min_size: 2048, require_sector_alignment: true };
    assert!(filter.accept(&entry(4096, false, true)));
}

#[test]
fn default_filter_asks_for_alignment_and_2048_bytes() {
    let filter = FileFilter::default();
    assert_eq!(SECTOR_SIZE, 512);
    assert_eq!(DEFAULT_MIN_SIZE, 2048);
    assert_eq!(filter.min_size, 2048);
    assert!(filter.require_sector_alignment);
}

#[test]
fn filter_rejects_directories() {
    let filter = FileFilter::default();
    assert!(!filter.accept(&entry(4096, true, false)));
    assert!(!filter.accept(&entry(4096, true, true)));
}

#[test]
fn filter_rejects_what_is_no_regular_file() {
    let filter = FileFilter::default();
    assert!(!filter.accept(&entry(4096, false, false)));
}

#[test]
fn filter_rejects_sizes_that_are_no_multiple_of_512() {
    let filter = FileFilter::default();
    assert!(!filter.accept(&entry(4097, false, true)));
    assert!(!filter.accept(&entry(2048 + 511, false, true)));
    assert!(filter.accept(&entry(2048 + 512, false, true)));
}

#[test]
fn filter_rejects_files_below_the_minimum_size() {
    let filter = FileFilter::default();
    assert!(!filter.accept(&entry(0, false, true)));
    assert!(!filter.accept(&entry(512, false, true)));
    assert!(!filter.accept(&entry(1536, false, true)));
    assert!(filter.accept(&entry(2048, false, true)));
}

#[test]
fn filter_without_alignment_takes_any_size_from_the_minimum() {
    let filter = FileFilter { min_size: 300, require_sector_alignment: false };
    assert!(!filter.accept(&entry(299, false, true)));
    assert!(filter.accept(&entry(300, false, true)));
    assert!(filter.accept(&entry(301, false, true)));
    assert!(!filter.accept(&entry(301, true, false)));
}

#[test]
fn filter_with_zero_minimum_takes_the_empty_file() {
    let filter = FileFilter { min_size: 0, require_sector_alignment: true };
    assert!(filter.accept(&entry(0, false, true)));
}
