use surge::duplicates::{DuplicateScanner, HashedFile};
use surge::hasher::{hash_bytes, hash_chunks, ContentHasher};
use surge::models::{FileEntry, ScanError, Timestamp, Walk};
use surge::sums::checked_sum_weights;

fn entry(path: &str, size: u64) -> FileEntry {
    FileEntry {
        path: path.to_string(),
        depth: 1,
        is_file: true,
        size,
        modified: Timestamp::new(1_600_000_000, 0),
        accessed: Timestamp::new(1_600_000_000, 0),
    }
}

fn hashed(path: &str, content: &[u8], modified_secs: i64) -> HashedFile {
    HashedFile {
        path: path.to_string(),
        size: content.len() as u64,
        modified: Timestamp::new(modified_secs, 0),
        digest: hash_bytes(content),
    }
}

fn sized(path: &str, size: u64, digest: &str, modified_secs: i64) -> HashedFile {
    HashedFile {
        path: path.to_string(),
        size,
        modified: Timestamp::new(modified_secs, 0),
        digest: digest.to_string(),
    }
}

#[test]
fn test_finds_duplicates() {
    let content = b"test content for duplicate detection";
    let temp_path = Walk {
        root: "/t".to_string(),
        readable: true,
        entries: vec![
            entry("/t/file1.txt", content.len() as u64),
            entry("/t/file2.txt", content.len() as u64),
        ],
    };

    let scanner = DuplicateScanner::new().with_min_size(1);
    let candidates = scanner.select_for_hashing(&temp_path).unwrap();
    assert_eq!(candidates.len(), 2);
    let files: Vec<HashedFile> =
        candidates.iter().map(|c| hashed(&c.path, content, 1_600_000_000)).collect();
    let groups = scanner.scan(&files);

    assert_eq!(groups.len(), 1, "Should find exactly one duplicate group");
    assert_eq!(groups[0].files.len(), 2, "Group should contain 2 files");
    assert_eq!(groups[0].wasted_size, content.len() as u64);
    assert_eq!(groups[0].total_size, 2 * content.len() as u64);
}

#[test]
fn test_hash_file() {
    let content = b"hello world";

    let hash1 = hash_bytes(content);
    let hash2 = hash_bytes(content);

    assert_eq!(hash1, hash2, "Same file should produce same hash");
}

#[test]
fn digest_is_sha256_in_lower_case_hex() {
    assert_eq!(
        hash_bytes(b"hello world"),
        "b94d27b9934d3e08a52e52d7da7dabfac484efe37a5380ee9088f7ace2efcde9"
    );
    assert_eq!(
        hash_bytes(b""),
        "e3b0c44298fc1c149afbf4c8996fb92427ae41e4649b934ca495991b7852b855"
    );
    assert_eq!(ContentHasher::new().finalize(), hash_bytes(b""));
}

#[test]
fn digest_does_not_depend_on_the_chunks() {
    let whole = hash_bytes(b"hello world");
    let mut hasher = ContentHasher::new();
    hasher.update(b"hello");
    hasher.update(b"");
    hasher.update(b" wor");
    hasher.update(b"ld");
    assert_eq!(hasher.finalize(), whole);
    let chunks = vec![b"he".to_vec(), b"llo w".to_vec(), Vec::new(), b"orld".to_vec()];
    assert_eq!(hash_chunks(&chunks), whole);
    assert_eq!(hash_chunks(&Vec::new()), hash_bytes(b""));
    assert_ne!(hash_bytes(b"hello world!"), whole);
}

#[test]
fn defaults_are_one_hundred_kibibytes_and_any_depth() {
    let scanner = DuplicateScanner::new();
    assert_eq!(scanner.min_size(), 100 * 1024);
    assert_eq!(scanner.max_depth(), None);
    let tuned = scanner.with_min_size(7).with_max_depth(4);
    assert_eq!(tuned.min_size(), 7);
    assert_eq!(tuned.max_depth(), Some(4));
}

#[test]
fn files_of_a_unique_size_are_not_hashed() {
    let mut dir = entry("/t/dir", 300);
    dir.is_file = false;
    let mut deep = entry("/t/a/b/c/deep", 300);
    deep.depth = 4;
    let entries = vec![
        entry("/t/a", 300),
        entry("/t/b", 200),
        entry("/t/c", 700),
        dir,
        entry("/t/d", 200),
        deep,
        entry("/t/e", 50),
        entry("/t/f", 50),
        entry("/t/g", 200),
    ];
    let scanner = DuplicateScanner::new().with_min_size(100).with_max_depth(3);
    let groups = scanner.group_by_size(&entries);
    let shape: Vec<Vec<&str>> =
        groups.iter().map(|g| g.iter().map(|e| e.path.as_str()).collect()).collect();
    assert_eq!(shape, vec![vec!["/t/a"], vec!["/t/b", "/t/d", "/t/g"], vec!["/t/c"]]);
    let candidates = scanner.hash_candidates(&entries);
    let paths: Vec<&str> = candidates.iter().map(|e| e.path.as_str()).collect();
    assert_eq!(paths, vec!["/t/b", "/t/d", "/t/g"]);
}

#[test]
fn same_size_with_different_content_is_no_duplicate() {
    let files = vec![hashed("/t/a", b"aaaa", 1), hashed("/t/b", b"bbbb", 2)];
    let groups = DuplicateScanner::new().with_min_size(1).scan(&files);
    assert!(groups.is_empty());
}

#[test]
fn same_digest_with_different_size_is_no_duplicate() {
    let files = vec![sized("/t/a", 10, "cafe", 1), sized("/t/b", 11, "cafe", 2)];
    let groups = DuplicateScanner::new().with_min_size(1).scan(&files);
    assert!(groups.is_empty());
}

#[test]
fn members_come_oldest_first_and_groups_most_wasteful_first() {
    let files = vec![
        sized("/t/a3", 100, "aa", 30),
        sized("/t/b1", 1000, "bb", 10),
        sized("/t/a1", 100, "aa", 10),
        sized("/t/c", 5000, "cc", 10),
        sized("/t/a2", 100, "aa", 20),
        sized("/t/b2", 1000, "bb", 10),
        sized("/t/a4", 100, "aa", 10),
        sized("/t/small1", 5, "dd", 10),
        sized("/t/small2", 5, "dd", 10),
    ];
    assert_eq!(checked_sum_weights(&files), Some(7410));
    let groups = DuplicateScanner::new().with_min_size(10).scan(&files);
    assert_eq!(groups.len(), 2);

    assert_eq!(groups[0].hash, "bb");
    assert_eq!(groups[0].total_size, 2000);
    assert_eq!(groups[0].wasted_size, 1000);
    let paths: Vec<&str> = groups[0].files.iter().map(|f| f.path.as_str()).collect();
    assert_eq!(paths, vec!["/t/b1", "/t/b2"]);

    assert_eq!(groups[1].hash, "aa");
    assert_eq!(groups[1].total_size, 400);
    assert_eq!(groups[1].wasted_size, 300);
    let paths: Vec<&str> = groups[1].files.iter().map(|f| f.path.as_str()).collect();
    assert_eq!(paths, vec!["/t/a1", "/t/a4", "/t/a2", "/t/a3"]);

    for group in &groups {
        assert!(group.files.len() >= 2);
        assert_eq!(group.wasted_size, group.total_size - group.files[0].size);
        for member in &group.files {
            assert_eq!(member.size, group.files[0].size);
            assert!(!member.selected);
        }
    }
    assert_eq!(DuplicateScanner::calculate_total_duplicates(&groups), 1300);
}

#[test]
fn groups_of_equal_waste_keep_the_order_of_first_appearance() {
    let files = vec![
        sized("/t/x1", 100, "xx", 1),
        sized("/t/y1", 100, "yy", 1),
        sized("/t/y2", 100, "yy", 1),
        sized("/t/x2", 100, "xx", 1),
    ];
    let groups = DuplicateScanner::new().with_min_size(1).scan(&files);
    let hashes: Vec<&str> = groups.iter().map(|g| g.hash.as_str()).collect();
    assert_eq!(hashes, vec!["xx", "yy"]);
}

#[test]
fn nothing_in_nothing_out() {
    let scanner = DuplicateScanner::new();
    assert!(scanner.scan(&Vec::new()).is_empty());
    assert!(scanner.hash_candidates(&Vec::new()).is_empty());
    assert!(scanner.group_by_size(&Vec::new()).is_empty());
    assert_eq!(DuplicateScanner::calculate_total_duplicates(&Vec::new()), 0);
}

#[test]
fn sum_that_does_not_fit_is_reported() {
    let files = vec![sized("/t/a", u64::MAX, "aa", 1), sized("/t/b", 1, "bb", 1)];
    assert_eq!(checked_sum_weights(&files), None);
    let files = vec![sized("/t/a", u64::MAX - 1, "aa", 1), sized("/t/b", 1, "bb", 1)];
    assert_eq!(checked_sum_weights(&files), Some(u64::MAX));
}

#[test]
fn an_unreadable_root_is_an_error_before_anything_is_hashed() {
    let gone = Walk {
        root: "/gone".to_string(),
        readable: false,
        entries: vec![entry("/gone/a", 500_000), entry("/gone/b", 500_000)],
    };
    let result = DuplicateScanner::new().select_for_hashing(&gone);
    assert!(matches!(result, Err(ScanError::Unreadable(p)) if p == "/gone"));
}
