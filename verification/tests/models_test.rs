use surge::models::{CleanupCategory, Timestamp, TreeMapItem};

#[test]
fn category_names_are_the_titles() {
    assert_eq!(CleanupCategory::all().len(), 8);
    assert_eq!(CleanupCategory::Logs.name(), "Log Files");
    assert_eq!(CleanupCategory::DeveloperCaches.description(), "npm, cargo, gradle, pip caches");
}

#[test]
fn tree_item_takes_its_name_from_the_path() {
    let item = TreeMapItem::new("/tmp/photos/cat.png".to_string(), 42, true);
    assert_eq!(item.name, "cat.png");
    assert_eq!(item.size, 42);
    assert!(item.children.is_empty());
    let root = TreeMapItem::new("/".to_string(), 0, false);
    assert_eq!(root.name, "Unknown");
}

#[test]
fn age_is_counted_in_whole_days() {
    let then = Timestamp::new(1_000_000, 500);
    let now = Timestamp::new(1_000_000 + 3 * 86_400 - 1, 400);
    assert_eq!(then.age_days(&now), 2);
    assert_eq!(now.age_days(&then), 0);
}

#[test]
fn the_root_disk_is_the_first_one_mounted_at_the_root() {
    let disk = |mount: &str, total: u64, available: u64| surge::system::DiskInfo {
        mount_point: mount.to_string(),
        total_space: total,
        available_space: available,
    };
    let disks = vec![disk("/boot", 10, 4), disk("/", 100, 30), disk("/home", 500, 1), disk("/", 7, 7)];
    assert_eq!(surge::system::root_disk_stats(&disks), (70, 100));
    assert_eq!(surge::system::root_disk_stats(&vec![disk("/", 5, 9)]), (0, 5));
    assert_eq!(surge::system::root_disk_stats(&vec![disk("/data", 5, 1)]), (0, 0));
    assert_eq!(surge::system::root_disk_stats(&Vec::new()), (0, 0));
}

#[test]
fn instants_are_counted_from_the_epoch_both_ways() {
    assert_eq!(Timestamp::after_epoch(0, 0), Timestamp::new(0, 0));
    assert_eq!(Timestamp::after_epoch(1_700_000_000, 5), Timestamp::new(1_700_000_000, 5));
    assert_eq!(Timestamp::after_epoch(u64::MAX, 7), Timestamp::new(i64::MAX, 7));
    assert_eq!(Timestamp::before_epoch(0, 0), Timestamp::new(0, 0));
    assert_eq!(Timestamp::before_epoch(10, 0), Timestamp::new(-10, 0));
    assert_eq!(Timestamp::before_epoch(10, 250_000_000), Timestamp::new(-11, 750_000_000));
    assert_eq!(Timestamp::before_epoch(0, 1), Timestamp::new(-1, 999_999_999));
    assert_eq!(Timestamp::before_epoch(1, 2_500_000_000), Timestamp::new(-4, 500_000_000));
    assert_eq!(Timestamp::before_epoch(u64::MAX, 1), Timestamp::new(i64::MIN, 0));
    assert_eq!(Timestamp::before_epoch(i64::MAX as u64, 0), Timestamp::new(-i64::MAX, 0));
    assert_eq!(Timestamp::before_epoch(i64::MAX as u64, 1), Timestamp::new(i64::MIN, 0));
    // Ten and a quarter seconds before the epoch lie that long before it.
    let early = Timestamp::before_epoch(10, 250_000_000);
    assert_eq!(early.total_nanos(), -10_250_000_000);
    assert!(early.is_before(&Timestamp::new(-10, 0)));
    assert_eq!(early.age_days(&Timestamp::after_epoch(86_400 * 3, 0)), 3);
}
