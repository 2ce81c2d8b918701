//! The marks that the user sets on the items of a list.

use crate::models::{CleanableItem, DuplicateFile, DuplicateGroup, LargeFileItem};
use crate::ordering::reversed;
use crate::sums::{lemma_total_prefix_bounded, total_weight, Weighable};
use vstd::prelude::*;

verus! {

/// An item that the user can mark for deletion.
pub trait Selectable: Sized {
    /// Whether the item is marked.
    spec fn chosen(&self) -> bool;

    /// The item with its mark set to `on`.
    spec fn with_mark(self, on: bool) -> Self;

    fn is_selected(&self) -> (marked: bool)
        ensures
            marked == self.chosen(),
    ;

    fn set_selected(&mut self, on: bool)
        ensures
            *final(self) == old(self).with_mark(on),
    ;
}

impl Selectable for CleanableItem {
    open spec fn chosen(&self) -> bool {
        self.selected
    }

    open spec fn with_mark(self, on: bool) -> Self {
        CleanableItem {
            path: self.path,
            size: self.size,
            category: self.category,
            modified: self.modified,
            selected: on,
        }
    }

    fn is_selected(&self) -> (marked: bool) {
        self.selected
    }

    fn set_selected(&mut self, on: bool) {
        self.selected = on;
    }
}

impl Selectable for LargeFileItem {
    open spec fn chosen(&self) -> bool {
        self.selected
    }

    open spec fn with_mark(self, on: bool) -> Self {
        LargeFileItem {
            path: self.path,
            size: self.size,
            modified: self.modified,
            accessed: self.accessed,
            age_days: self.age_days,
            selected: on,
        }
    }

    fn is_selected(&self) -> (marked: bool) {
        self.selected
    }

    fn set_selected(&mut self, on: bool) {
        self.selected = on;
    }
}

impl Selectable for DuplicateFile {
    open spec fn chosen(&self) -> bool {
        self.selected
    }

    open spec fn with_mark(self, on: bool) -> Self {
        DuplicateFile { path: self.path, size: self.size, modified: self.modified, selected: on }
    }

    fn is_selected(&self) -> (marked: bool) {
        self.selected
    }

    fn set_selected(&mut self, on: bool) {
        self.selected = on;
    }
}

/// The predicate "is marked".
pub open spec fn marked<T: Selectable>() -> spec_fn(T) -> bool {
    |item: T| item.chosen()
}

/// The predicate "is not marked".
pub open spec fn unmarked<T: Selectable>() -> spec_fn(T) -> bool {
    |item: T| !item.chosen()
}

/// The number of marked items.
pub fn selected_count<T: Selectable>(items: &Vec<T>) -> (count: usize)
    ensures
        count == items@.filter(marked::<T>()).len(),
{
    let mut count: usize = 0;
    let mut i: usize = 0;
    proof {
        reveal(Seq::filter);
        assert(items@.take(0) =~= Seq::<T>::empty());
    }
    while i < items.len()
        invariant
            i <= items@.len(),
            count <= i,
            count == items@.take(i as int).filter(marked::<T>()).len(),
        decreases items@.len() - i,
    {
        proof {
            let front = items@.take(i as int);
            assert(items@.take(i as int + 1) =~= front.push(items@[i as int]));
            front.lemma_filter_push(items@[i as int], marked::<T>());
        }
        if items[i].is_selected() {
            count += 1;
        }
        i += 1;
    }
    assert(items@.take(i as int) =~= items@);
    count
}

/// The total size of the marked items.
pub fn selected_size<T: Selectable + Weighable>(items: &Vec<T>) -> (total: u64)
    requires
        total_weight(items@.filter(marked::<T>())) <= u64::MAX,
    ensures
        total == total_weight(items@.filter(marked::<T>())),
{
    let ghost all = items@.filter(marked::<T>());
    let mut total: u64 = 0;
    let mut i: usize = 0;
    let ghost mut taken: int = 0;
    proof {
        reveal(Seq::filter);
        assert(items@.take(0) =~= Seq::<T>::empty());
        assert(all.take(0) =~= Seq::<T>::empty());
    }
    while i < items.len()
        invariant
            i <= items@.len(),
            all == items@.filter(marked::<T>()),
            total_weight(all) <= u64::MAX,
            0 <= taken <= all.len(),
            items@.take(i as int).filter(marked::<T>()) == all.take(taken),
            total == total_weight(all.take(taken)),
        decreases items@.len() - i,
    {
        proof {
            let front = items@.take(i as int);
            assert(items@.take(i as int + 1) =~= front.push(items@[i as int]));
            front.lemma_filter_push(items@[i as int], marked::<T>());
            items@.lemma_filter_take_len(marked::<T>(), i as int + 1);
            lemma_filter_take_is_prefix(items@, marked::<T>(), i as int + 1);
        }
        if items[i].is_selected() {
            proof {
                let grown = items@.take(i as int + 1).filter(marked::<T>());
                assert(grown == all.take(taken + 1));
                assert(all.take(taken + 1).drop_last() =~= all.take(taken));
                lemma_total_prefix_bounded(all, taken + 1);
                taken = taken + 1;
            }
            total = total + items[i].weigh();
        }
        i += 1;
    }
    proof {
        assert(items@.take(i as int) =~= items@);
        assert(all.take(taken) =~= all);
    }
    total
}

/// The marked items among the first `k` are the first marked items of the whole list.
pub proof fn lemma_filter_take_is_prefix<T>(items: Seq<T>, pred: spec_fn(T) -> bool, k: int)
    requires
        0 <= k <= items.len(),
    ensures
        items.take(k).filter(pred).len() <= items.filter(pred).len(),
        items.take(k).filter(pred) == items.filter(pred).take(
            items.take(k).filter(pred).len() as int,
        ),
    decreases items.len() - k,
{
    if k == items.len() {
        assert(items.take(k) =~= items);
        assert(items.filter(pred).take(items.filter(pred).len() as int) =~= items.filter(pred));
    } else {
        lemma_filter_take_is_prefix(items, pred, k + 1);
        let front = items.take(k);
        assert(items.take(k + 1) =~= front.push(items[k]));
        front.lemma_filter_push(items[k], pred);
        let more = items.take(k + 1).filter(pred);
        let all = items.filter(pred);
        if pred(items[k]) {
            assert(front.filter(pred) =~= more.take(more.len() - 1));
            assert(more.take(more.len() - 1) =~= all.take(more.len() - 1));
        }
    }
}

/// The items that are not marked, in their order: what is left of a list after the marked
/// items have been deleted.
pub fn remaining<T: Selectable>(items: Vec<T>) -> (rest: Vec<T>)
    ensures
        rest@ == items@.filter(unmarked::<T>()),
{
    let ghost all = items@;
    let mut stack = reversed(items);
    let mut rest: Vec<T> = Vec::new();
    proof {
        reveal(Seq::filter);
        assert(all.take(0) =~= Seq::<T>::empty());
    }
    while stack.len() > 0
        invariant
            stack@.len() <= all.len(),
            stack@ == all.reverse().take(stack@.len() as int),
            rest@ == all.take(all.len() - stack@.len()).filter(unmarked::<T>()),
        decreases stack@.len(),
    {
        let ghost n = all.len() - stack@.len();
        let x = stack.pop().unwrap();
        proof {
            assert(x == all[n]);
            assert(all.take(n + 1) =~= all.take(n).push(x));
            all.take(n).lemma_filter_push(x, unmarked::<T>());
        }
        if !x.is_selected() {
            rest.push(x);
        }
    }
    assert(all.take(all.len() as int) =~= all);
    rest
}

/// The items with every mark set to `on`.
pub open spec fn all_marked<T: Selectable>(items: Seq<T>, on: bool) -> Seq<T> {
    Seq::new(items.len(), |i: int| items[i].with_mark(on))
}

/// The items with the mark of the item at `k` turned over.
pub open spec fn toggled<T: Selectable>(items: Seq<T>, k: int) -> Seq<T> {
    if 0 <= k < items.len() {
        items.update(k, items[k].with_mark(!items[k].chosen()))
    } else {
        items
    }
}

/// The items with every mark set but that of the item at `kept`.
pub open spec fn marked_but<T: Selectable>(items: Seq<T>, kept: int) -> Seq<T> {
    Seq::new(items.len(), |i: int| items[i].with_mark(i != kept))
}

/// Sets or clears the mark of every item.
pub fn select_every<T: Selectable>(items: &mut Vec<T>, on: bool)
    ensures
        final(items)@ == all_marked(old(items)@, on),
{
    let ghost before = items@;
    let mut i: usize = 0;
    while i < items.len()
        invariant
            i <= items@.len(),
            items@.len() == before.len(),
            forall|j: int| 0 <= j < i ==> items@[j] == before[j].with_mark(on),
            forall|j: int| i <= j < items@.len() ==> items@[j] == before[j],
        decreases items@.len() - i,
    {
        items[i].set_selected(on);
        i += 1;
    }
    assert(items@ =~= all_marked(before, on));
}

/// Turns the mark of the item under the cursor over; a cursor beyond the list does nothing.
pub fn toggle_selection<T: Selectable>(items: &mut Vec<T>, index: usize)
    ensures
        final(items)@ == toggled(old(items)@, index as int),
{
    let ghost before = items@;
    if index < items.len() {
        let on = !items[index].is_selected();
        items[index].set_selected(on);
        assert(items@ =~= toggled(before, index as int));
    }
}

/// Marks every item but the one at `kept`, whose mark is cleared.
pub fn select_all_but<T: Selectable>(items: &mut Vec<T>, kept: usize)
    ensures
        final(items)@ == marked_but(old(items)@, kept as int),
{
    let ghost before = items@;
    let mut i: usize = 0;
    while i < items.len()
        invariant
            i <= items@.len(),
            items@.len() == before.len(),
            forall|j: int| 0 <= j < i ==> items@[j] == before[j].with_mark(j != kept),
            forall|j: int| i <= j < items@.len() ==> items@[j] == before[j],
        decreases items@.len() - i,
    {
        items[i].set_selected(i != kept);
        i += 1;
    }
    assert(items@ =~= marked_but(before, kept as int));
}

/// Which copy of a group of duplicates is kept.
#[derive(Debug, Clone, Copy, PartialEq, Eq, Structural)]
pub enum Keep {
    /// The first of the group, which is the oldest.
    Oldest,
    /// The last of the group, which is the newest.
    Newest,
}

/// The index of the copy that is kept in a group of `count` files.
pub open spec fn kept_index(keep: Keep, count: nat) -> int {
    match keep {
        Keep::Oldest => 0,
        Keep::Newest => count - 1,
    }
}

/// The group with every file marked but the one that is kept.
pub open spec fn group_marked_but(group: DuplicateGroup, keep: Keep, after: DuplicateGroup) -> bool {
    &&& after.hash == group.hash
    &&& after.total_size == group.total_size
    &&& after.wasted_size == group.wasted_size
    &&& after.files@ == marked_but(group.files@, kept_index(keep, group.files@.len()))
}

/// Marks, in every group, all files but the one that is kept.
pub fn select_duplicates(groups: &mut Vec<DuplicateGroup>, keep: Keep)
    ensures
        final(groups)@.len() == old(groups)@.len(),
        forall|g: int|
            0 <= g < old(groups)@.len() ==> group_marked_but(
                #[trigger] old(groups)@[g],
                keep,
                final(groups)@[g],
            ),
{
    let ghost before = groups@;
    let mut g: usize = 0;
    while g < groups.len()
        invariant
            g <= groups@.len(),
            groups@.len() == before.len(),
            forall|h: int| 0 <= h < g ==> group_marked_but(#[trigger] before[h], keep, groups@[h]),
            forall|h: int| g <= h < groups@.len() ==> groups@[h] == before[h],
        decreases groups@.len() - g,
    {
        let count: usize = groups[g].files.len();
        if count > 0 {
            let kept: usize = match keep {
                Keep::Oldest => 0,
                Keep::Newest => count - 1,
            };
            select_all_but(&mut groups[g].files, kept);
        } else {
            assert(groups@[g as int].files@ =~= marked_but(
                before[g as int].files@,
                kept_index(keep, 0),
            ));
        }
        assert(group_marked_but(before[g as int], keep, groups@[g as int]));
        g += 1;
    }
}

/// Clears the mark of every file of every group.
pub fn deselect_duplicates(groups: &mut Vec<DuplicateGroup>)
    ensures
        final(groups)@.len() == old(groups)@.len(),
        forall|g: int|
            0 <= g < old(groups)@.len() ==> {
                let before = #[trigger] old(groups)@[g];
                let after = final(groups)@[g];
                &&& after.hash == before.hash
                &&& after.total_size == before.total_size
                &&& after.wasted_size == before.wasted_size
                &&& after.files@ == all_marked(before.files@, false)
            },
{
    let ghost before = groups@;
    let mut g: usize = 0;
    while g < groups.len()
        invariant
            g <= groups@.len(),
            groups@.len() == before.len(),
            forall|h: int|
                0 <= h < g ==> {
                    let was = #[trigger] before[h];
                    let is = groups@[h];
                    &&& is.hash == was.hash
                    &&& is.total_size == was.total_size
                    &&& is.wasted_size == was.wasted_size
                    &&& is.files@ == all_marked(was.files@, false)
                },
            forall|h: int| g <= h < groups@.len() ==> groups@[h] == before[h],
        decreases groups@.len() - g,
    {
        select_every(&mut groups[g].files, false);
        g += 1;
    }
}

/// The cursor in the list of duplicates: a group and a file of the group.
#[derive(Debug, Clone, Copy, PartialEq, Eq, Structural)]
pub struct DuplicateCursor {
    pub group: usize,
    pub file: usize,
}

/// The cursor one file up: within the group, or on the last file of the group before.
pub open spec fn cursor_above(cursor: DuplicateCursor, groups: Seq<DuplicateGroup>) -> DuplicateCursor {
    if cursor.file > 0 {
        DuplicateCursor { group: cursor.group, file: (cursor.file - 1) as usize }
    } else if cursor.group > 0 {
        DuplicateCursor {
            group: (cursor.group - 1) as usize,
            file: if cursor.group - 1 < groups.len() {
                if groups[cursor.group - 1].files@.len() > 0 {
                    (groups[cursor.group - 1].files@.len() - 1) as usize
                } else {
                    0
                }
            } else {
                cursor.file
            },
        }
    } else {
        cursor
    }
}

/// The cursor one file down: within the group, or on the first file of the next group.
pub open spec fn cursor_below(cursor: DuplicateCursor, groups: Seq<DuplicateGroup>) -> DuplicateCursor {
    if cursor.group < groups.len() {
        if cursor.file + 1 < groups[cursor.group as int].files@.len() {
            DuplicateCursor { group: cursor.group, file: (cursor.file + 1) as usize }
        } else if cursor.group + 1 < groups.len() {
            DuplicateCursor { group: (cursor.group + 1) as usize, file: 0 }
        } else {
            cursor
        }
    } else {
        cursor
    }
}

impl DuplicateCursor {
    pub fn move_up(self, groups: &Vec<DuplicateGroup>) -> (moved: DuplicateCursor)
        ensures
            moved == cursor_above(self, groups@),
    {
        if self.file > 0 {
            DuplicateCursor { group: self.group, file: self.file - 1 }
        } else if self.group > 0 {
            let group: usize = self.group - 1;
            let file: usize = if group < groups.len() {
                let count: usize = groups[group].files.len();
                if count > 0 {
                    count - 1
                } else {
                    0
                }
            } else {
                self.file
            };
            DuplicateCursor { group, file }
        } else {
            self
        }
    }

    pub fn move_down(self, groups: &Vec<DuplicateGroup>) -> (moved: DuplicateCursor)
        ensures
            moved == cursor_below(self, groups@),
    {
        if self.group < groups.len() {
            let count: usize = groups[self.group].files.len();
            if count > 0 && self.file < count - 1 {
                DuplicateCursor { group: self.group, file: self.file + 1 }
            } else if self.group < groups.len() - 1 {
                DuplicateCursor { group: self.group + 1, file: 0 }
            } else {
                self
            }
        } else {
            self
        }
    }

    /// The cursor after files and groups have been removed: a cursor beyond the last group
    /// moves to the last group, and one beyond the last file of its group to that file.
    pub fn clamp(self, groups: &Vec<DuplicateGroup>) -> (moved: DuplicateCursor)
        ensures
            moved.group == if self.group >= groups@.len() {
                if groups@.len() > 0 {
                    (groups@.len() - 1) as usize
                } else {
                    0
                }
            } else {
                self.group
            },
            moved.file == if moved.group < groups@.len() && self.file
                >= groups@[moved.group as int].files@.len() {
                if groups@[moved.group as int].files@.len() > 0 {
                    (groups@[moved.group as int].files@.len() - 1) as usize
                } else {
                    0
                }
            } else {
                self.file
            },
    {
        let group: usize = if self.group >= groups.len() {
            if groups.len() > 0 {
                groups.len() - 1
            } else {
                0
            }
        } else {
            self.group
        };
        let file: usize = if group < groups.len() && self.file >= groups[group].files.len() {
            let count: usize = groups[group].files.len();
            if count > 0 {
                count - 1
            } else {
                0
            }
        } else {
            self.file
        };
        DuplicateCursor { group, file }
    }
}

} // verus!
