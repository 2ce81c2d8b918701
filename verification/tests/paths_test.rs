use surge::paths::{
    chars_of, default_scan_path, holds_parent_segment, home_directory, join_path, lies_under,
};

#[test]
fn joining_puts_one_separator_between() {
    assert_eq!(join_path("/home/u", "Downloads"), "/home/u/Downloads");
    assert_eq!(join_path("/home/u/", "Downloads"), "/home/u/Downloads");
    assert_eq!(join_path("/", "etc"), "/etc");
    assert_eq!(join_path("", "etc"), "etc");
    assert_eq!(join_path("/home/u", ""), "/home/u/");
    assert_eq!(join_path("/home/u", "/abs"), "/abs");
    assert_eq!(join_path("/home/ü", "Müsik"), "/home/ü/Müsik");
}

#[test]
fn under_means_equal_or_below() {
    let under = |path: &str, dir: &str| lies_under(&chars_of(path), &chars_of(dir));
    assert!(under("/usr/bin", "/usr/bin"));
    assert!(under("/usr/bin/env", "/usr/bin"));
    assert!(!under("/usr/binx", "/usr/bin"));
    assert!(!under("/usr", "/usr/bin"));
    assert!(!under("/usr/bin", "/usr/bin/"));
    assert!(under("/usr/bin/", "/usr/bin"));
    assert!(under("", ""));
}

#[test]
fn parent_segment_needs_a_separator_in_front() {
    assert!(holds_parent_segment(&chars_of("/a/../b")));
    assert!(holds_parent_segment(&chars_of("/a/..")));
    assert!(holds_parent_segment(&chars_of("/..")));
    assert!(!holds_parent_segment(&chars_of("..")));
    assert!(!holds_parent_segment(&chars_of("../a")));
    assert!(!holds_parent_segment(&chars_of("/a/..b")));
    assert!(!holds_parent_segment(&chars_of("/a/...")));
    assert!(!holds_parent_segment(&chars_of("")));
}

#[test]
fn default_root_is_home_or_slash() {
    assert_eq!(default_scan_path(Some("/home/u".to_string())), "/home/u");
    assert_eq!(default_scan_path(None), "/");
    let root = default_scan_path(home_directory());
    assert!(!root.is_empty());
}
