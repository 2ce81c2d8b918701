use surge::models::{ScanError, TreeMapItem};
use surge::treemap::{is_hidden_path, looks_into, EntryKind, FsNode, TreeMapScanner};

fn file(path: &str, len: u64) -> FsNode {
    FsNode { path: path.to_string(), kind: EntryKind::File, len, readable: true, entries: Vec::new() }
}

fn dir(path: &str, entries: Vec<FsNode>) -> FsNode {
    FsNode { path: path.to_string(), kind: EntryKind::Directory, len: 4096, readable: true, entries }
}

fn names(item: &TreeMapItem) -> Vec<&str> {
    item.children.iter().map(|c| c.name.as_str()).collect()
}

fn sizes_add_up(item: &TreeMapItem) -> bool {
    (item.children.is_empty() || item.size == item.children.iter().map(|c| c.size).sum::<u64>())
        && item.children.iter().all(sizes_add_up)
}

#[test]
fn a_file_is_a_leaf_of_its_own_size() {
    let tree = TreeMapScanner::new().scan(&file("/r/a.txt", 12)).unwrap();
    assert_eq!(tree.path, "/r/a.txt");
    assert_eq!(tree.name, "a.txt");
    assert_eq!(tree.size, 12);
    assert!(tree.is_file);
    assert!(tree.children.is_empty());
}

#[test]
fn an_unreadable_root_is_an_error() {
    let mut root = dir("/r", vec![file("/r/a", 1)]);
    root.readable = false;
    let result = TreeMapScanner::new().scan(&root);
    assert!(matches!(result, Err(ScanError::Unreadable(p)) if p == "/r"));
}

#[test]
fn children_come_largest_first_and_sizes_add_up() {
    let root = dir(
        "/r",
        vec![
            file("/r/small", 10),
            dir("/r/sub", vec![file("/r/sub/x", 300), file("/r/sub/y", 50), file("/r/sub/.z", 7)]),
            file("/r/.hidden", 1000),
            file("/r/big", 200),
            dir("/r/.git", vec![file("/r/.git/pack", 9999)]),
            dir("/r/empty", Vec::new()),
            file("/r/also_small", 10),
        ],
    );
    let tree = TreeMapScanner::new().scan(&root).unwrap();
    assert_eq!(names(&tree), vec!["sub", "big", "small", "also_small", "empty"]);
    assert_eq!(tree.size, 350 + 200 + 10 + 10);
    assert!(!tree.is_file);
    let sub = &tree.children[0];
    assert_eq!(names(sub), vec!["x", "y"]);
    assert_eq!(sub.size, 350);
    assert!(!sub.is_file);
    let empty = &tree.children[4];
    assert_eq!(empty.size, 0);
    assert!(!empty.is_file);
    assert!(sizes_add_up(&tree));
}

#[test]
fn below_the_depth_cap_a_directory_is_a_leaf_with_a_one_level_sum() {
    let deepest = dir(
        "/r/1/2/3/4",
        vec![
            file("/r/1/2/3/4/f", 100),
            file("/r/1/2/3/4/.hidden", 11),
            dir("/r/1/2/3/4/5", vec![file("/r/1/2/3/4/5/huge", 1_000_000)]),
        ],
    );
    let root = dir(
        "/r",
        vec![dir(
            "/r/1",
            vec![dir("/r/1/2", vec![dir("/r/1/2/3", vec![deepest, file("/r/1/2/3/g", 5)])])],
        )],
    );
    let tree = TreeMapScanner::new().scan(&root).unwrap();
    let level3 = &tree.children[0].children[0].children[0];
    assert_eq!(level3.path, "/r/1/2/3");
    assert_eq!(names(level3), vec!["4", "g"]);
    let capped = &level3.children[0];
    assert!(capped.children.is_empty());
    assert!(!capped.is_file);
    // Its own entries count with the size they have themselves, hidden ones too;
    // what lies below them does not.
    assert_eq!(capped.size, 100 + 11 + 4096);
    assert_eq!(level3.size, 100 + 11 + 4096 + 5);
    assert_eq!(tree.size, level3.size);
    assert!(sizes_add_up(&tree));
}

#[test]
fn unreadable_directories_are_left_out_and_other_entries_are_files() {
    let mut locked = dir("/r/locked", vec![file("/r/locked/secret", 500)]);
    locked.readable = false;
    let link = FsNode {
        path: "/r/link".to_string(),
        kind: EntryKind::Other,
        len: 9,
        readable: true,
        entries: Vec::new(),
    };
    let root = dir("/r", vec![locked, link, file("/r/a", 1)]);
    let tree = TreeMapScanner::new().scan(&root).unwrap();
    assert_eq!(names(&tree), vec!["link", "a"]);
    assert!(tree.children[0].is_file);
    assert_eq!(tree.size, 10);
}

#[test]
fn a_root_that_is_neither_file_nor_directory_is_an_empty_directory() {
    let root = FsNode {
        path: "/dev/null".to_string(),
        kind: EntryKind::Other,
        len: 0,
        readable: true,
        entries: Vec::new(),
    };
    let tree = TreeMapScanner::new().scan(&root).unwrap();
    assert!(!tree.is_file);
    assert_eq!(tree.size, 0);
    assert_eq!(tree.name, "null");
}

#[test]
fn hidden_means_a_name_that_starts_with_a_dot() {
    assert!(is_hidden_path("/home/u/.cache"));
    assert!(is_hidden_path(".profile"));
    assert!(!is_hidden_path("/home/u/a.b"));
    assert!(!is_hidden_path("/home/.u/visible"));
    assert!(!is_hidden_path("/"));
    assert!(!is_hidden_path("/home/u/.."));
}

#[test]
fn sizes_that_do_not_fit_are_reported_before_the_scan() {
    let root = dir("/r", vec![file("/r/a", u64::MAX - 5000), file("/r/b", 904)]);
    assert_eq!(TreeMapScanner::checked_snapshot_size(&root), Some(u64::MAX));
    let tree = TreeMapScanner::new().scan_if_fits(&root).unwrap().unwrap();
    assert_eq!(tree.size, u64::MAX - 4096);

    let root = dir("/r", vec![file("/r/a", u64::MAX - 5000), file("/r/b", 905)]);
    assert_eq!(TreeMapScanner::checked_snapshot_size(&root), None);
    assert!(TreeMapScanner::new().scan_if_fits(&root).is_none());

    let mut gone = dir("/r", Vec::new());
    gone.readable = false;
    assert!(matches!(
        TreeMapScanner::new().scan_if_fits(&gone),
        Some(Err(ScanError::Unreadable(p))) if p == "/r"
    ));
}

#[test]
fn a_copy_of_a_tree_is_the_same_tree() {
    let root = dir("/r", vec![file("/r/a", 1), dir("/r/d", vec![file("/r/d/b", 2)])]);
    let tree = TreeMapScanner::new().scan(&root).unwrap();
    let copy = tree.clone();
    assert_eq!(copy.path, tree.path);
    assert_eq!(copy.size, 3);
    assert_eq!(names(&copy), names(&tree));
    assert_eq!(copy.children[0].children[0].path, "/r/d/b");
    assert!(!std::ptr::eq(&copy.children[0], &tree.children[0]));
}

#[test]
fn an_unreadable_directory_is_left_out_at_the_depth_cap_too() {
    let mut denied = dir("/r/1/2/3/denied", vec![file("/r/1/2/3/denied/x", 50)]);
    denied.readable = false;
    let open = dir("/r/1/2/3/open", vec![file("/r/1/2/3/open/x", 50)]);
    let root = dir(
        "/r",
        vec![dir("/r/1", vec![dir("/r/1/2", vec![dir("/r/1/2/3", vec![denied, open])])])],
    );
    let tree = TreeMapScanner::new().scan(&root).unwrap();
    let level3 = &tree.children[0].children[0].children[0];
    assert_eq!(names(level3), vec!["open"]);
    assert_eq!(level3.size, 50);
}

#[test]
fn the_scan_says_which_directories_it_looks_into() {
    assert!(looks_into("/r", EntryKind::Directory, 0));
    assert!(looks_into("/r/.hidden_root", EntryKind::Directory, 0));
    assert!(looks_into("/dev/null", EntryKind::Other, 0));
    assert!(!looks_into("/r/a.txt", EntryKind::File, 0));
    assert!(looks_into("/r/a", EntryKind::Directory, 1));
    assert!(!looks_into("/r/.git", EntryKind::Directory, 1));
    assert!(!looks_into("/r/a.txt", EntryKind::File, 1));
    assert!(!looks_into("/r/link", EntryKind::Other, 1));
    assert!(looks_into("/r/1/2/3", EntryKind::Directory, 3));
    assert!(looks_into("/r/1/2/3/4", EntryKind::Directory, 4));
    assert!(!looks_into("/r/1/2/3/4/5", EntryKind::Directory, 5));
}
