use surge::grouping::group_by_key;
use surge::models::{DuplicateFile, FileEntry, Timestamp};
use surge::ordering::{sort_by_rank, Ranked};
use surge::sums::{checked_sum_weights, sum_weights};

fn copy(path: &str, secs: i64, nanos: u32) -> DuplicateFile {
    DuplicateFile {
        path: path.to_string(),
        size: 1,
        modified: Timestamp::new(secs, nanos),
        selected: false,
    }
}

fn entry(path: &str, size: u64) -> FileEntry {
    FileEntry {
        path: path.to_string(),
        depth: 0,
        is_file: true,
        size,
        modified: Timestamp::new(0, 0),
        accessed: Timestamp::new(0, 0),
    }
}

#[test]
fn copies_are_ordered_oldest_first() {
    let sorted = sort_by_rank(vec![
        copy("c", 10, 5),
        copy("a", -3, 0),
        copy("d", 10, 5),
        copy("b", 10, 4),
        copy("e", 11, 0),
    ]);
    let paths: Vec<&str> = sorted.iter().map(|f| f.path.as_str()).collect();
    assert_eq!(paths, vec!["a", "b", "c", "d", "e"]);
    assert!(sorted[0].outranks(&sorted[1]));
    assert!(!sorted[2].outranks(&sorted[3]));
    assert!(sort_by_rank(Vec::<DuplicateFile>::new()).is_empty());
}

#[test]
fn groups_come_in_the_order_of_first_appearance() {
    let groups = group_by_key(vec![
        entry("a", 3),
        entry("b", 1),
        entry("c", 3),
        entry("d", 2),
        entry("e", 1),
        entry("f", 3),
    ]);
    let shape: Vec<Vec<&str>> =
        groups.iter().map(|g| g.iter().map(|e| e.path.as_str()).collect()).collect();
    assert_eq!(shape, vec![vec!["a", "c", "f"], vec!["b", "e"], vec!["d"]]);
}

#[test]
fn sums_are_exact() {
    assert_eq!(sum_weights(&vec![1u64, 2, 3, 4]), 10);
    assert_eq!(sum_weights(&Vec::<u64>::new()), 0);
    assert_eq!(checked_sum_weights(&vec![u64::MAX, 0]), Some(u64::MAX));
    assert_eq!(checked_sum_weights(&vec![u64::MAX, 0, 1]), None);
}

#[test]
fn sorting_agrees_with_a_stable_sort_on_many_items() {
    let mut items = Vec::new();
    let mut seed: u64 = 12345;
    for i in 0..2000 {
        seed = seed.wrapping_mul(6364136223846793005).wrapping_add(1442695040888963407);
        let secs = ((seed >> 33) % 50) as i64;
        items.push(copy(&format!("f{}", i), secs, 0));
    }
    let mut expected: Vec<(String, i64)> =
        items.iter().map(|f| (f.path.clone(), f.modified.secs)).collect();
    expected.sort_by_key(|(_, secs)| *secs);
    let sorted = sort_by_rank(items);
    let found: Vec<(String, i64)> =
        sorted.iter().map(|f| (f.path.clone(), f.modified.secs)).collect();
    assert_eq!(found, expected);
}

#[test]
fn grouping_many_items_keeps_every_item_in_its_group() {
    let mut items = Vec::new();
    for i in 0..3000u64 {
        items.push(entry(&format!("f{}", i), (i * 7919) % 101));
    }
    let groups = group_by_key(items);
    assert_eq!(groups.len(), 101);
    assert_eq!(groups.iter().map(|g| g.len()).sum::<usize>(), 3000);
    for (position, group) in groups.iter().enumerate() {
        assert_eq!(group[0].size, (position as u64 * 7919) % 101);
        for pair in group.windows(2) {
            assert_eq!(pair[0].size, pair[1].size);
            let earlier: u64 = pair[0].path[1..].parse().unwrap();
            let later: u64 = pair[1].path[1..].parse().unwrap();
            assert!(earlier < later);
        }
    }
}
