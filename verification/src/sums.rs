//! Totals over lists of sized items.

use crate::models::{
    CleanableItem, DuplicateFile, DuplicateGroup, FileEntry, LargeFileItem, TreeMapItem,
};
use crate::ordering::{choose_place, lemma_placed_is_insert, sorted_by};
use vstd::prelude::*;

verus! {

/// A value that counts for a number of bytes.
pub trait Weighted {
    /// The number of bytes the value counts for.
    spec fn weight(&self) -> nat;
}

/// A value whose weight can be computed.
pub trait Weighable: Weighted {
    fn weigh(&self) -> (w: u64)
        ensures
            w == self.weight(),
    ;
}

/// The sum of the weights of the items.
pub open spec fn total_weight<T: Weighted>(items: Seq<T>) -> nat
    decreases items.len(),
{
    if items.len() == 0 {
        0
    } else {
        total_weight(items.drop_last()) + items.last().weight()
    }
}

/// The total of a list is the total of a front part plus the total of the rest.
pub proof fn lemma_total_split<T: Weighted>(items: Seq<T>, k: int)
    requires
        0 <= k <= items.len(),
    ensures
        total_weight(items) == total_weight(items.take(k)) + total_weight(items.skip(k)),
    decreases items.len(),
{
    if k == items.len() {
        assert(items.take(k) =~= items);
        assert(items.skip(k) =~= Seq::<T>::empty());
    } else {
        let front = items.drop_last();
        lemma_total_split(front, k);
        assert(front.take(k) =~= items.take(k));
        assert(items.skip(k).drop_last() =~= front.skip(k));
    }
}

/// Putting one more item into a list, anywhere, adds its weight to the total.
pub proof fn lemma_total_insert<T: Weighted>(items: Seq<T>, k: int, x: T)
    requires
        0 <= k <= items.len(),
    ensures
        total_weight(items.insert(k, x)) == total_weight(items) + x.weight(),
{
    let grown = items.insert(k, x);
    lemma_total_split(items, k);
    lemma_total_split(grown, k + 1);
    assert(grown.take(k + 1) =~= items.take(k).push(x));
    assert(grown.take(k + 1).drop_last() =~= items.take(k));
    assert(grown.skip(k + 1) =~= items.skip(k));
}

/// A part of a list weighs no more than the list.
pub proof fn lemma_total_prefix_bounded<T: Weighted>(items: Seq<T>, k: int)
    requires
        0 <= k <= items.len(),
    ensures
        total_weight(items.take(k)) <= total_weight(items),
{
    lemma_total_split(items, k);
}

/// Sorting does not change the total.
pub proof fn lemma_total_sorted<T: Weighted>(items: Seq<T>, rank: spec_fn(T) -> int)
    ensures
        total_weight(sorted_by(items, rank)) == total_weight(items),
    decreases items.len(),
{
    if items.len() > 0 {
        let rest = items.drop_first();
        let inner = sorted_by(rest, rank);
        lemma_total_sorted(rest, rank);
        let p = choose_place(inner, items[0], rank);
        lemma_placed_is_insert(inner, items[0], rank, p);
        lemma_total_insert(inner, p, items[0]);
        lemma_total_insert(rest, 0, items[0]);
        assert(rest.insert(0, items[0]) =~= items);
    }
}

/// The items that satisfy a predicate weigh no more than the list.
pub proof fn lemma_total_filter_bounded<T: Weighted>(items: Seq<T>, pred: spec_fn(T) -> bool)
    ensures
        total_weight(items.filter(pred)) <= total_weight(items),
    decreases items.len(),
{
    reveal(Seq::filter);
    if items.len() > 0 {
        let front = items.drop_last();
        lemma_total_filter_bounded(front, pred);
        if pred(items.last()) {
            assert(items.filter(pred).drop_last() =~= front.filter(pred));
        }
    }
}

/// Items that all weigh `w` weigh together `w` times their number.
pub proof fn lemma_total_uniform<T: Weighted>(items: Seq<T>, w: nat)
    requires
        forall|i: int| 0 <= i < items.len() ==> (#[trigger] items[i]).weight() == w,
    ensures
        total_weight(items) == w * items.len(),
    decreases items.len(),
{
    if items.len() > 0 {
        let front = items.drop_last();
        assert forall|i: int| 0 <= i < front.len() implies (#[trigger] front[i]).weight() == w by {
            assert(front[i] == items[i]);
        }
        lemma_total_uniform(front, w);
        assert(w * items.len() == w * front.len() + w) by (nonlinear_arith)
            requires
                items.len() == front.len() + 1,
        ;
    } else {
        assert(w * items.len() == 0) by (nonlinear_arith)
            requires
                items.len() == 0,
        ;
    }
}

/// The sum of the weights of the items.
pub fn sum_weights<T: Weighable>(items: &Vec<T>) -> (total: u64)
    requires
        total_weight(items@) <= u64::MAX,
    ensures
        total == total_weight(items@),
{
    let mut total: u64 = 0;
    let mut i: usize = 0;
    while i < items.len()
        invariant
            i <= items@.len(),
            total == total_weight(items@.take(i as int)),
            total_weight(items@) <= u64::MAX,
        decreases items@.len() - i,
    {
        proof {
            lemma_total_prefix_bounded(items@, i as int + 1);
            assert(items@.take(i as int + 1).drop_last() =~= items@.take(i as int));
        }
        total = total + items[i].weigh();
        i += 1;
    }
    assert(items@.take(i as int) =~= items@);
    total
}

/// The sum of the weights of the items, or `None` where it does not fit into 64 bits.
pub fn checked_sum_weights<T: Weighable>(items: &Vec<T>) -> (total: Option<u64>)
    ensures
        match total {
            Some(t) => t == total_weight(items@),
            None => total_weight(items@) > u64::MAX,
        },
{
    let mut total: u64 = 0;
    let mut i: usize = 0;
    while i < items.len()
        invariant
            i <= items@.len(),
            total == total_weight(items@.take(i as int)),
        decreases items@.len() - i,
    {
        proof {
            lemma_total_prefix_bounded(items@, i as int + 1);
            assert(items@.take(i as int + 1).drop_last() =~= items@.take(i as int));
        }
        let w: u64 = items[i].weigh();
        if w > u64::MAX - total {
            return None;
        }
        total = total + w;
        i += 1;
    }
    assert(items@.take(i as int) =~= items@);
    Some(total)
}

impl Weighted for u64 {
    open spec fn weight(&self) -> nat {
        *self as nat
    }
}

impl Weighable for u64 {
    fn weigh(&self) -> (w: u64) {
        *self
    }
}

impl Weighted for FileEntry {
    open spec fn weight(&self) -> nat {
        self.size as nat
    }
}

impl Weighable for FileEntry {
    fn weigh(&self) -> (w: u64) {
        self.size
    }
}

impl Weighted for CleanableItem {
    open spec fn weight(&self) -> nat {
        self.size as nat
    }
}

impl Weighable for CleanableItem {
    fn weigh(&self) -> (w: u64) {
        self.size
    }
}

impl Weighted for TreeMapItem {
    open spec fn weight(&self) -> nat {
        self.size as nat
    }
}

impl Weighable for TreeMapItem {
    fn weigh(&self) -> (w: u64) {
        self.size
    }
}

impl Weighted for DuplicateFile {
    open spec fn weight(&self) -> nat {
        self.size as nat
    }
}

impl Weighable for DuplicateFile {
    fn weigh(&self) -> (w: u64) {
        self.size
    }
}

impl Weighted for DuplicateGroup {
    /// A group counts for the bytes that deleting all but one copy frees.
    open spec fn weight(&self) -> nat {
        self.wasted_size as nat
    }
}

impl Weighable for DuplicateGroup {
    fn weigh(&self) -> (w: u64) {
        self.wasted_size
    }
}

impl Weighted for LargeFileItem {
    open spec fn weight(&self) -> nat {
        self.size as nat
    }
}

impl Weighable for LargeFileItem {
    fn weigh(&self) -> (w: u64) {
        self.size
    }
}

} // verus!
