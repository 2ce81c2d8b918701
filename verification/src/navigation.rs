//! The rules by which the user moves through the screens and the lists, free of any terminal.

use crate::models::CleanableItem;
use crate::ordering::{rank_of, reversed, sort_by_rank, sorted_by, Ranked};
use vstd::prelude::*;

verus! {

/// The screens of the program.
#[derive(Debug, Clone, Copy, PartialEq, Eq, Structural)]
pub enum Screen {
    Home,
    StorageCleanup,
    DiskTreeMap,
    DuplicateFinder,
    LargeFiles,
    Performance,
    SecurityScan,
    Help,
}

/// The order in which the cleanup list is shown.
#[derive(Debug, Clone, Copy, PartialEq, Eq, Structural)]
pub enum SortOrder {
    /// The order of the scan.
    Unsorted,
    /// Smallest first.
    SizeAsc,
    /// Largest first.
    SizeDesc,
}

/// How far the page keys move the cursor.
pub const PAGE_STEP: usize = 10;

/// How far the jump keys move the cursor.
pub const JUMP_STEP: usize = 5;

/// The most digits of an item number that are taken.
pub const MAX_NUMBER_DIGITS: usize = 5;

/// The screen that the number `number` of the home menu opens, if any.
pub fn screen_for_number(number: usize) -> (screen: Option<Screen>)
    ensures
        screen == if number == 1 {
            Some(Screen::StorageCleanup)
        } else if number == 2 {
            Some(Screen::DiskTreeMap)
        } else {
            None::<Screen>
        },
{
    if number == 1 {
        Some(Screen::StorageCleanup)
    } else if number == 2 {
        Some(Screen::DiskTreeMap)
    } else {
        None
    }
}

/// The screen to go back to: the one that was left, or the home screen.
pub fn screen_to_return_to(previous: Option<Screen>) -> (screen: Screen)
    ensures
        screen == match previous {
            Some(left) => left,
            None => Screen::Home,
        },
{
    match previous {
        Some(left) => left,
        None => Screen::Home,
    }
}

/// The cursor one item up; at the top it stays.
pub fn step_up(index: usize) -> (moved: usize)
    ensures
        moved == if index > 0 {
            index - 1
        } else {
            0
        },
{
    if index > 0 {
        index - 1
    } else {
        index
    }
}

/// The cursor one item down in a list of `len` items; at the bottom it stays.
pub fn step_down(index: usize, len: usize) -> (moved: usize)
    ensures
        moved == if index + 1 < len {
            index + 1
        } else {
            index as int
        },
{
    if len > 0 && index < len - 1 {
        index + 1
    } else {
        index
    }
}

/// The cursor `by` items up, but not beyond the first item.
pub fn jump_up(index: usize, by: usize) -> (moved: usize)
    ensures
        moved == if index >= by {
            index - by
        } else {
            0
        },
{
    if index >= by {
        index - by
    } else {
        0
    }
}

/// The cursor `by` items down in a list of `len` items, but not beyond the last item; in an
/// empty list it stays.
pub fn jump_down(index: usize, by: usize, len: usize) -> (moved: usize)
    ensures
        moved == if len == 0 {
            index as int
        } else if index + by < len - 1 {
            index + by
        } else {
            len - 1
        },
{
    if len == 0 {
        index
    } else if index < len - 1 && by < len - 1 - index {
        index + by
    } else {
        len - 1
    }
}

/// The cursor on the item with the number `number`, counted from 1; where the list has no
/// such item the cursor stays.
pub fn jump_to_item(index: usize, number: usize, len: usize) -> (moved: usize)
    ensures
        moved == if 0 < number <= len {
            number - 1
        } else {
            index as int
        },
{
    if number > 0 && number <= len {
        number - 1
    } else {
        index
    }
}

/// The cursor after items have been removed from the list, which now has `len` items: a
/// cursor beyond the end moves to the last item.
pub fn clamp_index(index: usize, len: usize) -> (clamped: usize)
    ensures
        clamped == if index >= len && len > 0 {
            (len - 1) as usize
        } else {
            index
        },
{
    if index >= len && len > 0 {
        len - 1
    } else {
        index
    }
}

/// The value of a decimal digit, if the character is one.
pub open spec fn digit_value(c: char) -> Option<nat> {
    if c == '0' {
        Some(0)
    } else if c == '1' {
        Some(1)
    } else if c == '2' {
        Some(2)
    } else if c == '3' {
        Some(3)
    } else if c == '4' {
        Some(4)
    } else if c == '5' {
        Some(5)
    } else if c == '6' {
        Some(6)
    } else if c == '7' {
        Some(7)
    } else if c == '8' {
        Some(8)
    } else if c == '9' {
        Some(9)
    } else {
        None
    }
}

/// The number that the digits spell, if they are digits all.
pub open spec fn number_of(digits: Seq<char>) -> Option<nat>
    decreases digits.len(),
{
    if digits.len() == 0 {
        Some(0)
    } else {
        match (number_of(digits.drop_last()), digit_value(digits.last())) {
            (Some(front), Some(last)) => Some(front * 10 + last),
            _ => None,
        }
    }
}

/// The item number that was typed: a number of one to five digits.
pub open spec fn typed_number(text: Seq<char>) -> Option<nat> {
    if 0 < text.len() <= MAX_NUMBER_DIGITS {
        number_of(text)
    } else {
        None
    }
}

/// The number that up to five digits spell is less than a hundred thousand.
proof fn lemma_number_is_small(digits: Seq<char>)
    requires
        digits.len() <= MAX_NUMBER_DIGITS,
    ensures
        match number_of(digits) {
            Some(n) => n < 100_000,
            None => true,
        },
{
    reveal_with_fuel(number_of, 6);
}

fn digit_of(c: char) -> (value: Option<u8>)
    ensures
        match value {
            Some(v) => digit_value(c) == Some(v as nat),
            None => digit_value(c) is None,
        },
{
    if c == '0' {
        Some(0)
    } else if c == '1' {
        Some(1)
    } else if c == '2' {
        Some(2)
    } else if c == '3' {
        Some(3)
    } else if c == '4' {
        Some(4)
    } else if c == '5' {
        Some(5)
    } else if c == '6' {
        Some(6)
    } else if c == '7' {
        Some(7)
    } else if c == '8' {
        Some(8)
    } else if c == '9' {
        Some(9)
    } else {
        None
    }
}

/// Reads the item number that was typed.
pub fn parse_item_number(text: &str) -> (number: Option<usize>)
    ensures
        match number {
            Some(n) => typed_number(text@) == Some(n as nat),
            None => typed_number(text@) is None,
        },
{
    let digits = crate::paths::chars_of(text);
    if digits.len() == 0 || digits.len() > MAX_NUMBER_DIGITS {
        return None;
    }
    let mut value: usize = 0;
    let mut i: usize = 0;
    assert(digits@.take(0) =~= Seq::<char>::empty());
    while i < digits.len()
        invariant
            i <= digits@.len(),
            digits@ == text@,
            0 < digits@.len() <= MAX_NUMBER_DIGITS,
            number_of(digits@.take(i as int)) == Some(value as nat),
            value < 100_000,
        decreases digits@.len() - i,
    {
        let ghost front = digits@.take(i as int);
        let ghost next = digits@.take(i as int + 1);
        proof {
            assert(next.drop_last() =~= front);
            assert(next.last() == digits@[i as int]);
            lemma_number_is_small(next);
        }
        match digit_of(digits[i]) {
            Some(d) => {
                value = value * 10 + d as usize;
            },
            None => {
                proof {
                    assert(digit_value(next.last()) is None);
                    assert(number_of(next) is None);
                    lemma_no_number_after_a_bad_digit(digits@, i as int + 1);
                }
                return None;
            },
        }
        i += 1;
    }
    assert(digits@.take(i as int) =~= digits@);
    Some(value)
}

/// Where the first `k` characters spell no number, the whole text spells none.
proof fn lemma_no_number_after_a_bad_digit(digits: Seq<char>, k: int)
    requires
        0 <= k <= digits.len(),
        number_of(digits.take(k)) is None,
    ensures
        number_of(digits) is None,
    decreases digits.len() - k,
{
    if k < digits.len() {
        assert(digits.take(k + 1).drop_last() =~= digits.take(k));
        lemma_no_number_after_a_bad_digit(digits, k + 1);
    } else {
        assert(digits.take(k) =~= digits);
    }
}

/// Whether one more digit is taken into a number of `typed` digits.
pub fn takes_digit(typed: usize) -> (taken: bool)
    ensures
        taken == (typed < MAX_NUMBER_DIGITS),
{
    typed < MAX_NUMBER_DIGITS
}

impl SortOrder {
    /// The order that follows when the user asks for the next one.
    pub open spec fn following(self) -> SortOrder {
        match self {
            SortOrder::Unsorted => SortOrder::SizeDesc,
            SortOrder::SizeDesc => SortOrder::SizeAsc,
            SortOrder::SizeAsc => SortOrder::Unsorted,
        }
    }

    /// The words that tell the user of the order.
    pub open spec fn words(self) -> Seq<char> {
        match self {
            SortOrder::Unsorted => "Sort: Default order"@,
            SortOrder::SizeDesc => "Sort: Largest first"@,
            SortOrder::SizeAsc => "Sort: Smallest first"@,
        }
    }

    pub fn next(self) -> (order: SortOrder)
        ensures
            order == self.following(),
    {
        match self {
            SortOrder::Unsorted => SortOrder::SizeDesc,
            SortOrder::SizeDesc => SortOrder::SizeAsc,
            SortOrder::SizeAsc => SortOrder::Unsorted,
        }
    }

    pub fn label(self) -> (text: &'static str)
        ensures
            text@ == self.words(),
    {
        match self {
            SortOrder::Unsorted => "Sort: Default order",
            SortOrder::SizeDesc => "Sort: Largest first",
            SortOrder::SizeAsc => "Sort: Smallest first",
        }
    }
}

impl Ranked for CleanableItem {
    open spec fn rank(&self) -> int {
        self.size as int
    }

    fn outranks(&self, other: &Self) -> (b: bool) {
        self.size > other.size
    }
}

/// The items in the order `order`. Items of one size keep the order they have.
pub open spec fn ordered(items: Seq<CleanableItem>, order: SortOrder) -> Seq<CleanableItem> {
    match order {
        SortOrder::Unsorted => items,
        SortOrder::SizeDesc => sorted_by(items, rank_of::<CleanableItem>()),
        SortOrder::SizeAsc => sorted_by(items.reverse(), rank_of::<CleanableItem>()).reverse(),
    }
}

/// Puts the items in the order `order`.
pub fn sort_items(items: Vec<CleanableItem>, order: SortOrder) -> (sorted: Vec<CleanableItem>)
    ensures
        sorted@ == ordered(items@, order),
{
    match order {
        SortOrder::Unsorted => items,
        SortOrder::SizeDesc => sort_by_rank(items),
        SortOrder::SizeAsc => reversed(sort_by_rank(reversed(items))),
    }
}

} // verus!
