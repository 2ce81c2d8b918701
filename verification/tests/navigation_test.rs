use surge::keys::{action_for, clears_number, Action, Key, Situation};
use surge::models::{CleanableItem, CleanupCategory, DuplicateFile, DuplicateGroup, Timestamp, TreeMapItem};
use surge::navigation::{
    clamp_index, jump_down, jump_to_item, jump_up, parse_item_number, screen_for_number,
    screen_to_return_to, sort_items, step_down, step_up, takes_digit, Screen, SortOrder,
};
use surge::presentation::{
    format_age_days, is_audio_file, is_image_file, is_of_kind, is_text_file, is_video_file, FileKind,
};
use surge::selection::{
    deselect_duplicates, remaining, select_all_but, select_duplicates, select_every,
    selected_count, selected_size, toggle_selection, DuplicateCursor, Keep,
};

fn item(path: &str, size: u64, selected: bool) -> CleanableItem {
    CleanableItem {
        path: path.to_string(),
        size,
        category: CleanupCategory::Logs,
        modified: Timestamp::new(0, 0),
        selected,
    }
}

fn copy(path: &str) -> DuplicateFile {
    DuplicateFile { path: path.to_string(), size: 10, modified: Timestamp::new(0, 0), selected: false }
}

fn group(hash: &str, count: usize) -> DuplicateGroup {
    DuplicateGroup {
        hash: hash.to_string(),
        files: (0..count).map(|i| copy(&format!("{}{}", hash, i))).collect(),
        total_size: 10 * count as u64,
        wasted_size: 10 * (count as u64).saturating_sub(1),
    }
}

fn marks(group: &DuplicateGroup) -> Vec<bool> {
    group.files.iter().map(|f| f.selected).collect()
}

#[test]
fn menu_numbers_open_their_screens() {
    assert_eq!(screen_for_number(1), Some(Screen::StorageCleanup));
    assert_eq!(screen_for_number(2), Some(Screen::DiskTreeMap));
    assert_eq!(screen_for_number(0), None);
    assert_eq!(screen_for_number(3), None);
    assert_eq!(screen_to_return_to(Some(Screen::LargeFiles)), Screen::LargeFiles);
    assert_eq!(screen_to_return_to(None), Screen::Home);
}

#[test]
fn cursor_stays_inside_the_list() {
    assert_eq!(step_up(0), 0);
    assert_eq!(step_up(4), 3);
    assert_eq!(step_down(0, 0), 0);
    assert_eq!(step_down(2, 3), 2);
    assert_eq!(step_down(1, 3), 2);
    assert_eq!(step_down(usize::MAX, 3), usize::MAX);
    assert_eq!(jump_up(12, 10), 2);
    assert_eq!(jump_up(9, 10), 0);
    assert_eq!(jump_down(0, 10, 0), 0);
    assert_eq!(jump_down(0, 10, 5), 4);
    assert_eq!(jump_down(3, 5, 20), 8);
    assert_eq!(jump_down(14, 5, 20), 19);
    assert_eq!(jump_down(15, 5, 20), 19);
    assert_eq!(jump_down(usize::MAX, 5, 20), 19);
    assert_eq!(jump_to_item(7, 1, 3), 0);
    assert_eq!(jump_to_item(7, 3, 3), 2);
    assert_eq!(jump_to_item(7, 4, 3), 7);
    assert_eq!(jump_to_item(7, 0, 3), 7);
    assert_eq!(clamp_index(5, 3), 2);
    assert_eq!(clamp_index(2, 3), 2);
    assert_eq!(clamp_index(5, 0), 5);
}

#[test]
fn item_numbers_have_up_to_five_digits() {
    assert_eq!(parse_item_number("7"), Some(7));
    assert_eq!(parse_item_number("007"), Some(7));
    assert_eq!(parse_item_number("99999"), Some(99_999));
    assert_eq!(parse_item_number("100000"), None);
    assert_eq!(parse_item_number(""), None);
    assert_eq!(parse_item_number("12a"), None);
    assert_eq!(parse_item_number("+1"), None);
    assert_eq!(parse_item_number("١٢"), None);
    assert!(takes_digit(0));
    assert!(takes_digit(4));
    assert!(!takes_digit(5));
}

#[test]
fn sort_order_goes_round() {
    assert_eq!(SortOrder::Unsorted.next(), SortOrder::SizeDesc);
    assert_eq!(SortOrder::SizeDesc.next(), SortOrder::SizeAsc);
    assert_eq!(SortOrder::SizeAsc.next(), SortOrder::Unsorted);
    assert_eq!(SortOrder::Unsorted.label(), "Sort: Default order");
    assert_eq!(SortOrder::SizeDesc.label(), "Sort: Largest first");
    assert_eq!(SortOrder::SizeAsc.label(), "Sort: Smallest first");
}

#[test]
fn items_of_one_size_keep_their_order_both_ways() {
    let list = || vec![item("a", 5, false), item("b", 9, false), item("c", 5, false), item("d", 1, false)];
    let paths = |items: Vec<CleanableItem>| -> Vec<String> { items.into_iter().map(|i| i.path).collect() };
    assert_eq!(paths(sort_items(list(), SortOrder::Unsorted)), vec!["a", "b", "c", "d"]);
    assert_eq!(paths(sort_items(list(), SortOrder::SizeDesc)), vec!["b", "a", "c", "d"]);
    assert_eq!(paths(sort_items(list(), SortOrder::SizeAsc)), vec!["d", "a", "c", "b"]);
}

#[test]
fn marks_are_set_counted_and_removed() {
    let mut items = vec![item("a", 5, false), item("b", 9, true), item("c", 2, false)];
    assert_eq!(selected_count(&items), 1);
    assert_eq!(selected_size(&items), 9);
    toggle_selection(&mut items, 0);
    toggle_selection(&mut items, 1);
    toggle_selection(&mut items, 3);
    assert_eq!(items.iter().map(|i| i.selected).collect::<Vec<_>>(), vec![true, false, false]);
    select_every(&mut items, true);
    assert_eq!(selected_count(&items), 3);
    assert_eq!(selected_size(&items), 16);
    select_all_but(&mut items, 1);
    assert_eq!(items.iter().map(|i| i.selected).collect::<Vec<_>>(), vec![true, false, true]);
    let rest = remaining(items);
    assert_eq!(rest.len(), 1);
    assert_eq!(rest[0].path, "b");
    let mut none: Vec<CleanableItem> = Vec::new();
    select_every(&mut none, true);
    assert_eq!(selected_count(&none), 0);
    assert_eq!(selected_size(&none), 0);
    assert!(remaining(none).is_empty());
}

#[test]
fn one_copy_of_every_group_stays_unmarked() {
    let mut groups = vec![group("a", 3), group("b", 2), group("c", 0)];
    select_duplicates(&mut groups, Keep::Newest);
    assert_eq!(marks(&groups[0]), vec![true, true, false]);
    assert_eq!(marks(&groups[1]), vec![true, false]);
    assert!(groups[2].files.is_empty());
    select_duplicates(&mut groups, Keep::Oldest);
    assert_eq!(marks(&groups[0]), vec![false, true, true]);
    assert_eq!(marks(&groups[1]), vec![false, true]);
    assert_eq!(groups[0].total_size, 30);
    assert_eq!(groups[0].hash, "a");
    deselect_duplicates(&mut groups);
    assert_eq!(marks(&groups[0]), vec![false, false, false]);
    assert_eq!(marks(&groups[1]), vec![false, false]);
}

#[test]
fn duplicate_cursor_walks_through_the_groups() {
    let groups = vec![group("a", 2), group("b", 3)];
    let at = |group, file| DuplicateCursor { group, file };
    assert_eq!(at(0, 0).move_down(&groups), at(0, 1));
    assert_eq!(at(0, 1).move_down(&groups), at(1, 0));
    assert_eq!(at(1, 2).move_down(&groups), at(1, 2));
    assert_eq!(at(5, 1).move_down(&groups), at(5, 1));
    assert_eq!(at(1, 2).move_up(&groups), at(1, 1));
    assert_eq!(at(1, 0).move_up(&groups), at(0, 1));
    assert_eq!(at(0, 0).move_up(&groups), at(0, 0));
    assert_eq!(at(9, 0).move_up(&groups), at(8, 0));
    assert_eq!(at(2, 0).move_up(&groups), at(1, 2));
    assert_eq!(at(4, 7).clamp(&groups), at(1, 2));
    assert_eq!(at(0, 7).clamp(&groups), at(0, 1));
    assert_eq!(at(1, 1).clamp(&groups), at(1, 1));
    assert_eq!(at(3, 3).clamp(&Vec::new()), at(0, 3));
}

#[test]
fn going_down_the_tree_follows_the_paths() {
    let mut root = TreeMapItem::new("/r".to_string(), 0, false);
    let mut sub = TreeMapItem::new("/r/sub".to_string(), 0, false);
    sub.children.push(TreeMapItem::new("/r/sub/x".to_string(), 3, true));
    root.children.push(TreeMapItem::new("/r/a".to_string(), 1, true));
    root.children.push(sub);
    assert_eq!(root.descend(&Vec::new()).unwrap().path, "/r");
    assert_eq!(root.descend(&vec!["/r/sub".to_string()]).unwrap().children.len(), 1);
    let deep = vec!["/r/sub".to_string(), "/r/sub/x".to_string()];
    assert_eq!(root.descend(&deep).unwrap().size, 3);
    assert!(root.descend(&vec!["/r/none".to_string()]).is_none());
    assert!(root.descend(&vec!["/r/sub".to_string(), "/r/a".to_string()]).is_none());
    assert_eq!(root.child(&"/r/a".to_string()).unwrap().name, "a");
    assert!(root.child(&"/r".to_string()).is_none());
}

#[test]
fn ages_are_told_in_the_largest_full_unit() {
    assert_eq!(format_age_days(0), "today");
    assert_eq!(format_age_days(1), "1 days");
    assert_eq!(format_age_days(29), "29 days");
    assert_eq!(format_age_days(30), "1 months");
    assert_eq!(format_age_days(364), "12 months");
    assert_eq!(format_age_days(365), "1 years");
    assert_eq!(format_age_days(3650), "10 years");
    assert_eq!(format_age_days(u64::MAX), "50539024859478223 years");
}

#[test]
fn extensions_tell_the_kind_of_file() {
    assert!(is_text_file("rs"));
    assert!(is_text_file("srt"));
    assert!(!is_text_file("RS"));
    assert!(!is_text_file(""));
    assert!(!is_text_file("tx"));
    assert!(is_image_file("webp"));
    assert!(!is_image_file("mp4"));
    assert!(is_video_file("mp4"));
    assert!(is_video_file("mpeg"));
    assert!(is_audio_file("flac"));
    assert!(!is_audio_file("c"));
    assert!(is_of_kind("c", FileKind::Text));
    assert!(!is_of_kind("ape", FileKind::Video));
}

#[test]
fn keys_are_bound_to_actions() {
    let at = |screen| Situation { screen, typing: false, below_root: false };
    let home = at(Screen::Home);
    let cleanup = at(Screen::StorageCleanup);
    let tree = at(Screen::DiskTreeMap);
    let duplicates = at(Screen::DuplicateFinder);

    assert_eq!(action_for(Key::Char('q'), false, home), Action::Quit);
    assert_eq!(action_for(Key::Char('Q'), true, tree), Action::Quit);
    assert_eq!(action_for(Key::Char('?'), false, cleanup), Action::ShowHelp);
    assert_eq!(action_for(Key::Home, false, cleanup), Action::GoHome);
    assert_eq!(action_for(Key::Char('G'), false, cleanup), Action::GoHome);

    assert_eq!(action_for(Key::Char('1'), false, home), Action::OpenScreen(1));
    assert_eq!(action_for(Key::Char('2'), false, home), Action::OpenScreen(2));
    assert_eq!(action_for(Key::Char('3'), false, home), Action::Nothing);
    assert_eq!(action_for(Key::Char('0'), false, home), Action::Nothing);
    assert_eq!(action_for(Key::Char('7'), false, cleanup), Action::TypeDigit('7'));
    assert_eq!(action_for(Key::Char('7'), false, tree), Action::Nothing);

    assert_eq!(action_for(Key::Up, false, cleanup), Action::MoveUp);
    assert_eq!(action_for(Key::Char('k'), false, tree), Action::TreeUp);
    assert_eq!(action_for(Key::Down, false, duplicates), Action::DuplicateDown);
    assert_eq!(action_for(Key::Char('j'), false, at(Screen::LargeFiles)), Action::MoveDown);

    assert_eq!(action_for(Key::Char('u'), true, cleanup), Action::JumpUp);
    assert_eq!(action_for(Key::Char('u'), false, cleanup), Action::Nothing);
    assert_eq!(action_for(Key::Char('d'), true, cleanup), Action::JumpDown);
    assert_eq!(action_for(Key::Char('d'), false, cleanup), Action::DeleteSelected);

    assert_eq!(action_for(Key::Esc, false, tree), Action::GoBack);
    let deep = Situation { screen: Screen::DiskTreeMap, typing: false, below_root: true };
    assert_eq!(action_for(Key::Esc, false, deep), Action::LeaveDirectory);
    let elsewhere = Situation { screen: Screen::StorageCleanup, typing: false, below_root: true };
    assert_eq!(action_for(Key::Esc, false, elsewhere), Action::GoBack);

    assert_eq!(action_for(Key::Enter, false, cleanup), Action::Confirm);
    assert_eq!(action_for(Key::Enter, false, tree), Action::EnterDirectory);
    let typing = Situation { screen: Screen::DiskTreeMap, typing: true, below_root: false };
    assert_eq!(action_for(Key::Enter, false, typing), Action::JumpToTyped);

    assert_eq!(action_for(Key::Char('p'), false, tree), Action::TogglePreview);
    assert_eq!(action_for(Key::Char('p'), false, cleanup), Action::Nothing);
    assert_eq!(action_for(Key::Char('O'), false, tree), Action::OpenFile);
    assert_eq!(action_for(Key::Char('l'), false, tree), Action::MoveRight);
    assert_eq!(action_for(Key::Left, false, tree), Action::MoveLeft);
    assert_eq!(action_for(Key::Char(' '), false, cleanup), Action::ToggleSelection);
    assert_eq!(action_for(Key::Char('a'), false, cleanup), Action::SelectAll);
    assert_eq!(action_for(Key::Char('n'), false, cleanup), Action::SelectNone);
    assert_eq!(action_for(Key::Char('S'), false, cleanup), Action::ToggleSort);
    assert_eq!(action_for(Key::Other, false, cleanup), Action::Nothing);
    assert_eq!(action_for(Key::Char('x'), false, cleanup), Action::Nothing);

    assert!(clears_number(Action::GoBack));
    assert!(clears_number(Action::DeleteSelected));
    assert!(clears_number(Action::PageDown));
    assert!(!clears_number(Action::TypeDigit('1')));
    assert!(!clears_number(Action::JumpToTyped));
    assert!(!clears_number(Action::ShowHelp));
    assert!(!clears_number(Action::MoveLeft));
    assert!(!clears_number(Action::Quit));
}

#[test]
fn time_ago_is_told_in_the_largest_fitting_unit() {
    let now = Timestamp::new(1_700_000_000, 0);
    let ago = |secs: i64| surge::presentation::format_age(&Timestamp::new(1_700_000_000 - secs, 0), &now);
    assert_eq!(ago(0), "0 min ago");
    assert_eq!(ago(59), "0 min ago");
    assert_eq!(ago(60), "1 min ago");
    assert_eq!(ago(3599), "59 min ago");
    assert_eq!(ago(3600), "1 hours ago");
    assert_eq!(ago(86_399), "23 hours ago");
    assert_eq!(ago(86_400), "1 days ago");
    assert_eq!(ago(30 * 86_400), "30 days ago");
    assert_eq!(ago(31 * 86_400), "1 months ago");
    assert_eq!(ago(365 * 86_400), "12 months ago");
    assert_eq!(ago(366 * 86_400), "1 years ago");
    assert_eq!(ago(3660 * 86_400), "10 years ago");
    assert_eq!(ago(-30), "0 min ago");
    assert_eq!(ago(-600), "-10 min ago");
    assert_eq!(ago(-86_400 * 3), "-4320 min ago");
    let late = Timestamp::new(1_700_000_000, 999_999_999);
    assert_eq!(surge::presentation::format_age(&Timestamp::new(1_699_999_940, 0), &late), "1 min ago");
}
