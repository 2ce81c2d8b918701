use surge::large_files::{size_band, LargeFileScanner, SizeBand};
use surge::models::{FileEntry, LargeFileItem, ScanError, Timestamp, Walk};

const MIB: u64 = 1024 * 1024;
const DAY: i64 = 86_400;

fn now() -> Timestamp {
    Timestamp::new(1_700_000_000, 0)
}

fn file(path: &str, size: u64, age_days: i64) -> FileEntry {
    FileEntry {
        path: path.to_string(),
        depth: 1,
        is_file: true,
        size,
        modified: Timestamp::new(1_700_000_000 - age_days * DAY, 0),
        accessed: Timestamp::new(1_700_000_000, 0),
    }
}

fn walk(entries: Vec<FileEntry>) -> Walk {
    Walk { root: "/t".to_string(), readable: true, entries }
}

fn item(path: &str, size: u64) -> LargeFileItem {
    LargeFileItem {
        path: path.to_string(),
        size,
        modified: now(),
        accessed: now(),
        age_days: 0,
        selected: false,
    }
}

#[test]
fn test_finds_large_files() {
    let temp_path = walk(vec![file("/t/large.bin", 1024 * 1024, 0), file("/t/small.txt", 5, 0)]);

    let scanner = LargeFileScanner::new().with_min_size(1024 * 500);
    let items = scanner.scan(&temp_path, &now()).unwrap();

    assert_eq!(items.len(), 1, "Should find exactly one large file");
    assert!(items[0].size >= 1024 * 1024);
}

#[test]
fn test_age_filter() {
    let temp_path = walk(vec![file("/t/test.bin", 1024 * 1024, 0)]);

    let scanner = LargeFileScanner::new().with_min_size(1024 * 500).with_min_age_days(1);
    let items = scanner.scan(&temp_path, &now()).unwrap();

    assert_eq!(items.len(), 0, "Should not find newly created file");
}

#[test]
fn test_sorting_by_size() {
    let temp_path = walk(vec![
        file("/t/small.bin", 1024 * 1024, 0),
        file("/t/large.bin", 5 * 1024 * 1024, 0),
        file("/t/medium.bin", 3 * 1024 * 1024, 0),
    ]);

    let scanner = LargeFileScanner::new().with_min_size(1024 * 500);
    let items = scanner.scan(&temp_path, &now()).unwrap();

    assert_eq!(items.len(), 3);
    assert!(items[0].size >= items[1].size);
    assert!(items[1].size >= items[2].size);
    assert_eq!(items[0].path, "/t/large.bin");
    assert_eq!(items[1].path, "/t/medium.bin");
    assert_eq!(items[2].path, "/t/small.bin");
}

#[test]
fn defaults_are_one_hundred_mebibytes_and_no_age() {
    let scanner = LargeFileScanner::new();
    assert_eq!(scanner.min_size(), 100 * MIB);
    assert_eq!(scanner.min_age_days(), 0);
    assert_eq!(scanner.max_depth(), None);
    assert_eq!(scanner.with_max_depth(10).max_depth(), Some(10));
}

#[test]
fn files_of_equal_size_stay_in_walk_order() {
    let entries = vec![
        file("/t/b", 2 * MIB, 0),
        file("/t/a", 2 * MIB, 0),
        file("/t/z", 9 * MIB, 0),
        file("/t/c", 2 * MIB, 0),
    ];
    let items = LargeFileScanner::new().with_min_size(1).scan_entries(&entries, &now());
    let paths: Vec<&str> = items.iter().map(|i| i.path.as_str()).collect();
    assert_eq!(paths, vec!["/t/z", "/t/b", "/t/a", "/t/c"]);
}

#[test]
fn age_threshold_includes_the_instant_of_the_cutoff() {
    let scanner = LargeFileScanner::new().with_min_size(1).with_min_age_days(2);
    let mut exact = file("/t/exact", MIB, 2);
    assert!(scanner.accepts(&exact, &now()));
    let items = scanner.scan_entries(&vec![exact.clone()], &now());
    assert_eq!(items.len(), 1);
    assert_eq!(items[0].age_days, 2);
    assert!(!items[0].selected);
    exact.modified = Timestamp::new(1_700_000_000 - 2 * DAY, 1);
    assert!(!scanner.accepts(&exact, &now()));
    assert!(scanner.scan_entries(&vec![exact.clone()], &now()).is_empty());
    exact.modified = Timestamp::new(1_700_000_000 - 2 * DAY - 1, 999_999_999);
    assert!(scanner.accepts(&exact, &now()));
}

#[test]
fn a_file_modified_exactly_one_day_ago_is_one_day_old() {
    let found = walk(vec![file("/t/f.bin", 1_048_576, 1)]);
    let scanner = LargeFileScanner::new().with_min_size(512_000).with_min_age_days(1);
    let items = scanner.scan(&found, &now()).unwrap();
    assert_eq!(items.len(), 1);
    assert_eq!(items[0].age_days, 1);
    assert_eq!(items[0].path, "/t/f.bin");
}

#[test]
fn every_result_meets_both_thresholds() {
    let entries = vec![
        file("/t/a", 10 * MIB, 40),
        file("/t/b", 10 * MIB, 3),
        file("/t/c", MIB, 400),
        file("/t/d", 700 * MIB, 31),
        file("/t/e", 2 * MIB, 30),
    ];
    let scanner = LargeFileScanner::new().with_min_size(2 * MIB).with_min_age_days(30);
    let items = scanner.scan_entries(&entries, &now());
    let paths: Vec<&str> = items.iter().map(|i| i.path.as_str()).collect();
    // The file of exactly the least size and the least age is among them.
    assert_eq!(paths, vec!["/t/d", "/t/a", "/t/e"]);
    for found in &items {
        assert!(found.size >= 2 * MIB);
        assert!(found.age_days >= 30);
    }
}

#[test]
fn lower_thresholds_lose_nothing() {
    let entries = vec![
        file("/t/a", 10 * MIB, 40),
        file("/t/b", 10 * MIB, 3),
        file("/t/c", MIB, 400),
        file("/t/d", 700 * MIB, 31),
    ];
    let strict = LargeFileScanner::new().with_min_size(2 * MIB).with_min_age_days(30);
    let no_age = strict.with_min_age_days(0);
    let no_size = strict.with_min_size(0);
    let found = strict.scan_entries(&entries, &now());
    for loose in [no_age, no_size] {
        let more = loose.scan_entries(&entries, &now());
        assert!(more.len() > found.len());
        for kept in &found {
            assert!(more.iter().any(|m| m.path == kept.path && m.size == kept.size));
        }
    }
}

#[test]
fn directories_and_deep_entries_are_left_out() {
    let mut dir = file("/t/dir", 500 * MIB, 0);
    dir.is_file = false;
    let mut deep = file("/t/a/b/c/deep.bin", 500 * MIB, 0);
    deep.depth = 4;
    let mut edge = file("/t/a/b/edge.bin", 400 * MIB, 0);
    edge.depth = 3;
    let scanner = LargeFileScanner::new().with_max_depth(3);
    let items = scanner.scan_entries(&vec![dir, deep, edge], &now());
    assert_eq!(items.len(), 1);
    assert_eq!(items[0].path, "/t/a/b/edge.bin");
}

#[test]
fn bands_part_the_items() {
    assert_eq!(size_band(1024 * MIB), SizeBand::Huge);
    assert_eq!(size_band(1024 * MIB - 1), SizeBand::VeryLarge);
    assert_eq!(size_band(500 * MIB), SizeBand::VeryLarge);
    assert_eq!(size_band(500 * MIB - 1), SizeBand::Large);
    assert_eq!(size_band(100 * MIB), SizeBand::Large);
    assert_eq!(size_band(100 * MIB - 1), SizeBand::Medium);
    assert_eq!(size_band(0), SizeBand::Medium);

    let items = vec![
        item("m1", 5),
        item("h1", 2048 * MIB),
        item("l1", 100 * MIB),
        item("v1", 999 * MIB),
        item("m2", 99 * MIB),
        item("h2", 1024 * MIB),
    ];
    let bands = LargeFileScanner::group_by_size_category(&items);
    let names = |list: &Vec<LargeFileItem>| -> Vec<String> {
        list.iter().map(|i| i.path.clone()).collect()
    };
    assert_eq!(names(&bands.huge), vec!["h1", "h2"]);
    assert_eq!(names(&bands.very_large), vec!["v1"]);
    assert_eq!(names(&bands.large), vec!["l1"]);
    assert_eq!(names(&bands.medium), vec!["m1", "m2"]);
    assert_eq!(bands.total_count(), items.len());
    assert_eq!(bands.total_size(), LargeFileScanner::calculate_total_size(&items));
    assert_eq!(bands.total_size(), 5 + (2048 + 100 + 999 + 99 + 1024) * MIB);
}

#[test]
fn total_of_nothing_is_zero() {
    assert_eq!(LargeFileScanner::calculate_total_size(&Vec::new()), 0);
    let bands = LargeFileScanner::group_by_size_category(&Vec::new());
    assert_eq!(bands.total_count(), 0);
    assert_eq!(bands.total_size(), 0);
}

#[test]
fn an_unreadable_root_is_an_error_and_no_partial_result() {
    let gone = Walk {
        root: "/gone".to_string(),
        readable: false,
        entries: vec![file("/gone/huge.bin", 900 * MIB, 100)],
    };
    let result = LargeFileScanner::new().scan(&gone, &now());
    assert!(matches!(result, Err(ScanError::Unreadable(p)) if p == "/gone"));
    let empty = Walk { root: "/empty".to_string(), readable: true, entries: Vec::new() };
    assert!(LargeFileScanner::new().scan(&empty, &now()).unwrap().is_empty());
}
