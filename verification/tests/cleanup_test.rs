use surge::cleanup::CleanupScanner;
use surge::models::{CleanableItem, CleanupCategory, FileEntry, Timestamp, Walk};
use surge::platform::{
    blacklisted_paths, category_paths, developer_cache_paths, fallback_paths, whitelisted_paths,
    Platform,
};

const KIB: u64 = 1024;

fn file(path: &str, depth: usize, size: u64) -> FileEntry {
    FileEntry {
        path: path.to_string(),
        depth,
        is_file: true,
        size,
        modified: Timestamp::new(1_650_000_000, 0),
        accessed: Timestamp::new(1_650_000_000, 0),
    }
}

fn dir(path: &str, depth: usize, modified_secs: i64) -> FileEntry {
    FileEntry {
        path: path.to_string(),
        depth,
        is_file: false,
        size: 4096,
        modified: Timestamp::new(modified_secs, 7),
        accessed: Timestamp::new(modified_secs, 7),
    }
}

fn walked(root: &str, entries: Vec<FileEntry>) -> Walk {
    Walk { root: root.to_string(), readable: true, entries }
}

fn walk() -> Vec<FileEntry> {
    vec![
        dir("/c", 0, 100),
        file("/c/a.bin", 1, 60 * KIB),
        dir("/c/pip", 1, 200),
        file("/c/pip/x.whl", 2, 80 * KIB),
        file("/c/b.bin", 1, 50 * KIB),
        file("/c/pip/y.whl", 2, 30 * KIB),
        dir("/c/tiny", 1, 300),
        file("/c/tiny/t", 2, 100 * KIB),
        dir("/c/1", 1, 1),
        dir("/c/1/2", 2, 2),
        dir("/c/1/2/3", 3, 3),
        dir("/c/1/2/3/4", 4, 4),
        file("/c/1/2/3/4/edge", 5, 500 * KIB),
        dir("/c/1/2/3/4/5", 5, 5),
        file("/c/1/2/3/4/5/deep", 6, 900 * KIB),
    ]
}

#[test]
fn sizes_are_added_up_by_parent_directory() {
    let scanner = CleanupScanner::new();
    let items = scanner.scan_path(&walk(), &CleanupCategory::UserCaches);
    let found: Vec<(&str, u64)> = items.iter().map(|i| (i.path.as_str(), i.size)).collect();
    assert_eq!(
        found,
        vec![("/c", 110 * KIB), ("/c/pip", 110 * KIB), ("/c/1/2/3/4", 500 * KIB)]
    );
    for item in &items {
        assert_eq!(item.category, CleanupCategory::UserCaches);
        assert!(!item.selected);
    }
    assert_eq!(items[0].modified, Timestamp::new(100, 7));
    assert_eq!(items[1].modified, Timestamp::new(200, 7));
}

#[test]
fn a_directory_must_hold_more_than_the_threshold() {
    let scanner = CleanupScanner::new();
    let exactly = vec![dir("/c", 0, 1), file("/c/a", 1, 100 * KIB)];
    assert!(scanner.scan_path(&exactly, &CleanupCategory::Logs).is_empty());
    let more = vec![dir("/c", 0, 1), file("/c/a", 1, 100 * KIB), file("/c/b", 1, 1)];
    let items = scanner.scan_path(&more, &CleanupCategory::Logs);
    assert_eq!(items.len(), 1);
    assert_eq!(items[0].size, 100 * KIB + 1);
    assert_eq!(items[0].category, CleanupCategory::Logs);
}

#[test]
fn a_directory_that_the_walk_did_not_report_is_left_out() {
    let scanner = CleanupScanner::new();
    let entries = vec![file("/c/a", 1, 500 * KIB)];
    assert!(scanner.scan_path(&entries, &CleanupCategory::Trash).is_empty());
    assert!(scanner.scan_path(&Vec::new(), &CleanupCategory::Trash).is_empty());
}

fn one_directory(root: &str, size: u64) -> Walk {
    walked(root, vec![dir(root, 0, 1), file(&format!("{}/data", root), 1, size)])
}

fn paths(items: &[CleanableItem]) -> Vec<(&str, CleanupCategory)> {
    items.iter().map(|i| (i.path.as_str(), i.category)).collect()
}

#[test]
fn the_directories_are_reported_in_the_order_in_which_they_are_named() {
    let scanner = CleanupScanner::new();
    let mut gone = one_directory("/c", 900 * KIB);
    gone.readable = false;
    // The walks are looked up by their root, whatever their order.
    let walks = vec![
        one_directory("/d", 300 * KIB),
        one_directory("/b", 10 * KIB),
        gone,
        one_directory("/a", 200 * KIB),
        one_directory("/unasked", 500 * KIB),
    ];
    let roots: Vec<String> = ["/a", "/b", "/c", "/none", "/d"].iter().map(|r| r.to_string()).collect();
    let items = scanner.scan_roots(&walks, &roots, CleanupCategory::Downloads);
    assert_eq!(
        paths(&items),
        vec![("/a", CleanupCategory::Downloads), ("/d", CleanupCategory::Downloads)]
    );
    assert!(scanner.scan_roots(&Vec::new(), &roots, CleanupCategory::Downloads).is_empty());
    assert!(scanner.scan_roots(&walks, &Vec::new(), CleanupCategory::Downloads).is_empty());
}

#[test]
fn a_category_is_scanned_in_its_directories() {
    let scanner = CleanupScanner::new();
    let home = Some("/home/u".to_string());
    let walks = vec![
        one_directory("/home/u/.cache/pip", 700 * KIB),
        one_directory("/home/u/.npm", 300 * KIB),
        one_directory("/var/log", 400 * KIB),
    ];
    let items =
        scanner.scan_category(Platform::Linux, CleanupCategory::DeveloperCaches, &home, &walks);
    assert_eq!(
        paths(&items),
        vec![
            ("/home/u/.npm", CleanupCategory::DeveloperCaches),
            ("/home/u/.cache/pip", CleanupCategory::DeveloperCaches)
        ]
    );
    let items = scanner.scan_category(Platform::Linux, CleanupCategory::Logs, &None, &walks);
    assert_eq!(paths(&items), vec![("/var/log", CleanupCategory::Logs)]);
    let items =
        scanner.scan_category(Platform::Linux, CleanupCategory::DeveloperCaches, &None, &walks);
    assert!(items.is_empty());
}

#[test]
fn the_categories_are_joined_in_their_order() {
    let scanner = CleanupScanner::new();
    let home = Some("/home/u".to_string());
    let walks = vec![
        one_directory("/home/u/Downloads", 150 * KIB),
        one_directory("/home/u/.npm", 300 * KIB),
        one_directory("/var/log", 400 * KIB),
        one_directory("/home/u/.cache", 500 * KIB),
        one_directory("/var/cache", 600 * KIB),
        one_directory("/home/u/Documents", 999 * KIB),
        one_directory("/home/u", 999 * KIB),
    ];
    let expected = vec![
        ("/var/cache", CleanupCategory::SystemCaches),
        ("/home/u/.cache", CleanupCategory::UserCaches),
        ("/var/log", CleanupCategory::Logs),
        ("/home/u/Downloads", CleanupCategory::Downloads),
        ("/home/u/.npm", CleanupCategory::DeveloperCaches),
    ];
    assert_eq!(paths(&scanner.scan_categories(Platform::Linux, &home, &walks)), expected);
    // Where a category holds something the common directories are not reported.
    assert_eq!(paths(&scanner.scan_all(Platform::Linux, &home, &walks)), expected);
}

#[test]
fn the_fallback_is_used_only_when_nothing_was_found() {
    let scanner = CleanupScanner::new();
    let home = Some("/home/u".to_string());
    let walks = vec![
        one_directory("/home/u", 800 * KIB),
        one_directory("/home/u/Desktop", 700 * KIB),
        one_directory("/home/u/Library", 600 * KIB),
        one_directory("/home/u/Documents", 999 * KIB),
        one_directory("/home/u/Downloads", 5 * KIB),
        one_directory("/var/log", 7 * KIB),
    ];
    let found = scanner.scan_categories(Platform::Linux, &home, &walks);
    assert!(found.is_empty());
    assert!(CleanupScanner::needs_fallback(&found));
    let items = scanner.scan_all(Platform::Linux, &home, &walks);
    assert_eq!(
        paths(&items),
        vec![
            ("/home/u/Documents", CleanupCategory::UserCaches),
            ("/home/u/Desktop", CleanupCategory::UserCaches),
            ("/home/u", CleanupCategory::UserCaches)
        ]
    );
    assert_eq!(items[0].size, 999 * KIB);

    // Without a home directory there is nothing to fall back on.
    assert!(scanner.scan_all(Platform::Linux, &None, &walks).is_empty());

    let kept = vec![CleanableItem {
        path: "/var/log".to_string(),
        size: 5,
        category: CleanupCategory::Logs,
        modified: Timestamp::new(1, 0),
        selected: true,
    }];
    assert!(!CleanupScanner::needs_fallback(&kept));
}

#[test]
fn category_directories_follow_the_platform_table() {
    let home = Some("/home/u".to_string());
    assert_eq!(
        category_paths(Platform::Linux, CleanupCategory::SystemCaches, &home),
        vec!["/var/cache"]
    );
    assert_eq!(
        category_paths(Platform::Linux, CleanupCategory::DeveloperCaches, &home),
        vec![
            "/home/u/.npm",
            "/home/u/.yarn",
            "/home/u/.cargo/registry",
            "/home/u/.gradle/caches",
            "/home/u/.cache/pip"
        ]
    );
    assert!(category_paths(Platform::Linux, CleanupCategory::ApplicationSupport, &home).is_empty());
    assert_eq!(
        category_paths(Platform::MacOs, CleanupCategory::Logs, &Some("/Users/a".to_string())),
        vec!["/Library/Logs", "/private/var/log", "/Users/a/Library/Logs"]
    );
    assert_eq!(
        category_paths(Platform::MacOs, CleanupCategory::Logs, &None),
        vec!["/Library/Logs", "/private/var/log"]
    );
    assert!(category_paths(Platform::MacOs, CleanupCategory::Trash, &None).is_empty());
    assert_eq!(
        CleanupScanner::get_category_paths(Platform::MacOs, &CleanupCategory::Trash, &home),
        vec!["/home/u/.Trash"]
    );
    assert_eq!(
        fallback_paths(&home),
        vec!["/home/u/Downloads", "/home/u/Documents", "/home/u/Desktop", "/home/u"]
    );
    assert!(fallback_paths(&None).is_empty());
}

#[test]
fn blacklist_tables_have_their_entries() {
    let mac = blacklisted_paths(Platform::MacOs);
    assert_eq!(mac.len(), 33);
    assert_eq!(mac[0], "/System");
    assert!(mac.contains(&"~/Library/Keychains"));
    let linux = blacklisted_paths(Platform::Linux);
    assert_eq!(linux.len(), 25);
    assert!(linux.contains(&"/proc"));
    assert!(!linux.contains(&"/System"));
}

#[test]
fn cleanable_tables_have_their_entries() {
    assert_eq!(whitelisted_paths(Platform::MacOs).len(), 9);
    assert_eq!(whitelisted_paths(Platform::Linux), vec![
        "/var/cache",
        "/var/tmp",
        "/tmp",
        "~/.cache",
        "~/.local/share/Trash",
        "~/Downloads",
        "/var/log"
    ]);
    let developer = developer_cache_paths();
    assert_eq!(developer.len(), 13);
    assert_eq!(developer[0], "~/.npm");
    assert_eq!(developer[12], "~/.cache/go-build");
}
