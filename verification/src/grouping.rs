//! Grouping a list by a key.
//!
//! The groups come in the order in which their keys first appear in the list, and the
//! elements of a group in the order they have in the list.
//!
//! To find the group of an element quickly, every key has a code, a number; the groups of
//! one code are chained, and a hash map leads from the code to the chain.

use crate::ordering::reversed;
use std::collections::HashMap;
use vstd::prelude::*;

verus! {

/// A value that belongs to the group of its key.
pub trait Keyed: Sized {
    type Key;

    /// The key of the value.
    spec fn key(&self) -> Self::Key;

    /// A number that all values of one key share.
    spec fn code(&self) -> u64;

    /// Values of one key have one code.
    proof fn lemma_one_code_for_a_key(first: &Self, second: &Self)
        requires
            first.key() == second.key(),
        ensures
            first.code() == second.code(),
    ;

    /// Whether two values have the same key.
    fn same_key(&self, other: &Self) -> (same: bool)
        ensures
            same == (self.key() == other.key()),
    ;

    fn key_code(&self) -> (code: u64)
        ensures
            code == self.code(),
    ;
}

/// The predicate "has the key `k`".
pub open spec fn has_key<T: Keyed>(k: T::Key) -> spec_fn(T) -> bool {
    |x: T| x.key() == k
}

/// The keys of the items, each once, in the order of their first appearance.
pub open spec fn first_keys<T: Keyed>(items: Seq<T>) -> Seq<T::Key>
    decreases items.len(),
{
    if items.len() == 0 {
        Seq::empty()
    } else {
        let before = first_keys(items.drop_last());
        if before.contains(items.last().key()) {
            before
        } else {
            before.push(items.last().key())
        }
    }
}

/// The items in groups: one group for each key, in the order of `first_keys`, which holds the
/// items of that key in the order they have in `items`.
pub open spec fn grouped<T: Keyed>(items: Seq<T>) -> Seq<Seq<T>> {
    Seq::new(first_keys(items).len(), |i: int| items.filter(has_key::<T>(first_keys(items)[i])))
}

/// The contents of a list of lists.
pub open spec fn contents<T>(lists: Seq<Vec<T>>) -> Seq<Seq<T>> {
    lists.map_values(|list: Vec<T>| list@)
}

/// The keys of a list are distinct, each is the key of some item, and every item's key is
/// among them.
pub proof fn lemma_first_keys<T: Keyed>(items: Seq<T>)
    ensures
        first_keys(items).no_duplicates(),
        forall|i: int| 0 <= i < items.len() ==> first_keys(items).contains(#[trigger] items[i].key()),
        forall|k: T::Key|
            first_keys(items).contains(k) ==> exists|i: int|
                0 <= i < items.len() && #[trigger] items[i].key() == k,
    decreases items.len(),
{
    if items.len() > 0 {
        let front = items.drop_last();
        let last = items.last();
        let before = first_keys(front);
        let keys = first_keys(items);
        lemma_first_keys(front);
        assert forall|i: int| 0 <= i < items.len() implies keys.contains(
            #[trigger] items[i].key(),
        ) by {
            if i < front.len() {
                assert(front[i] == items[i]);
                let j = choose|j: int| 0 <= j < before.len() && before[j] == front[i].key();
                assert(keys[j] == items[i].key());
            } else {
                if before.contains(last.key()) {
                } else {
                    assert(keys[before.len() as int] == last.key());
                }
            }
        }
        assert forall|k: T::Key| keys.contains(k) implies exists|i: int|
            0 <= i < items.len() && #[trigger] items[i].key() == k by {
            if before.contains(k) {
                let i = choose|i: int| 0 <= i < front.len() && #[trigger] front[i].key() == k;
                assert(items[i].key() == k);
            } else {
                let j = choose|j: int| 0 <= j < keys.len() && keys[j] == k;
                assert(j == before.len());
                assert(items[items.len() - 1].key() == k);
            }
        }
    }
}

/// Every group holds at least one item, all of its key; the groups hold as many items as the
/// list.
pub proof fn lemma_groups_are_filled<T: Keyed>(items: Seq<T>, g: int)
    requires
        0 <= g < grouped(items).len(),
    ensures
        grouped(items)[g].len() > 0,
        forall|j: int|
            0 <= j < grouped(items)[g].len() ==> (#[trigger] grouped(items)[g][j]).key()
                == first_keys(items)[g],
{
    let k = first_keys(items)[g];
    lemma_first_keys(items);
    assert(first_keys(items).contains(k));
    let i = choose|i: int| 0 <= i < items.len() && #[trigger] items[i].key() == k;
    items.lemma_filter_contains(has_key::<T>(k), i);
    assert forall|j: int| 0 <= j < grouped(items)[g].len() implies (#[trigger] grouped(
        items,
    )[g][j]).key() == k by {
        items.lemma_filter_pred(has_key::<T>(k), j);
    }
}

/// Where two items of a list satisfy a predicate, the filtered list holds both, in their
/// order.
pub proof fn lemma_filter_keeps_both<T>(items: Seq<T>, pred: spec_fn(T) -> bool, i: int, j: int) -> (at:
    (int, int))
    requires
        0 <= i < j < items.len(),
        pred(items[i]),
        pred(items[j]),
    ensures
        0 <= at.0 < at.1 < items.filter(pred).len(),
        items.filter(pred)[at.0] == items[i],
        items.filter(pred)[at.1] == items[j],
    decreases items.len(),
{
    reveal(Seq::filter);
    let front = items.drop_last();
    let last = items.last();
    assert(front.push(last) =~= items);
    front.lemma_filter_push(last, pred);
    if j == items.len() - 1 {
        front.lemma_filter_contains(pred, i);
        assert(front[i] == items[i]);
        let p = choose|p: int| 0 <= p < front.filter(pred).len() && front.filter(pred)[p] == items[i];
        (p, front.filter(pred).len() as int)
    } else {
        let at = lemma_filter_keeps_both(front, pred, i, j);
        assert(front[i] == items[i] && front[j] == items[j]);
        if pred(last) {
            assert(items.filter(pred)[at.0] == front.filter(pred)[at.0]);
            assert(items.filter(pred)[at.1] == front.filter(pred)[at.1]);
        }
        at
    }
}

/// Two items of one key lie in one group, which therefore holds two items or more.
pub proof fn lemma_same_key_same_group<T: Keyed>(items: Seq<T>, i: int, j: int) -> (g: int)
    requires
        0 <= i < j < items.len(),
        items[i].key() == items[j].key(),
    ensures
        0 <= g < grouped(items).len(),
        first_keys(items)[g] == items[i].key(),
        grouped(items)[g].len() >= 2,
        grouped(items)[g].contains(items[i]),
        grouped(items)[g].contains(items[j]),
{
    let k = items[i].key();
    lemma_first_keys(items);
    let keys = first_keys(items);
    assert(keys.contains(k));
    let g = choose|g: int| 0 <= g < keys.len() && keys[g] == k;
    let at = lemma_filter_keeps_both(items, has_key::<T>(k), i, j);
    let group = grouped(items)[g];
    assert(group[at.0] == items[i]);
    assert(group[at.1] == items[j]);
    g
}

/// An item of one of the lists is an item of the lists put together.
pub proof fn lemma_flatten_holds<T>(lists: Seq<Seq<T>>, m: int, x: T)
    requires
        0 <= m < lists.len(),
        lists[m].contains(x),
    ensures
        lists.flatten().contains(x),
    decreases lists.len(),
{
    let front = lists.drop_last();
    let last = lists.last();
    assert(front.push(last) =~= lists);
    front.lemma_flatten_push(last);
    let flat = lists.flatten();
    if m == lists.len() - 1 {
        let p = choose|p: int| 0 <= p < last.len() && last[p] == x;
        assert(flat[front.flatten().len() + p] == x);
    } else {
        lemma_flatten_holds(front, m, x);
        let p = choose|p: int| 0 <= p < front.flatten().len() && front.flatten()[p] == x;
        assert(flat[p] == x);
    }
}

/// Whether the group `g` lies on the chain that starts at the group `from`: `chain[i]` is the
/// group before `i` in the chain, an earlier group.
pub closed spec fn reaches(chain: Seq<Option<usize>>, from: int, g: int) -> bool
    decreases from,
{
    0 <= from < chain.len() && (from == g || match chain[from] {
        Some(before) => before < from && reaches(chain, before as int, g),
        None => false,
    })
}

/// A longer chain reaches what the shorter one reaches.
proof fn lemma_reaches_after_push(chain: Seq<Option<usize>>, link: Option<usize>, from: int, g: int)
    requires
        reaches(chain, from, g),
    ensures
        reaches(chain.push(link), from, g),
    decreases from,
{
    if from != g {
        let before = chain[from]->Some_0;
        lemma_reaches_after_push(chain, link, before as int, g);
    }
}

/// Whether the hash map and the chains lead to every group from the code of its key.
pub closed spec fn is_index_of<T: Keyed>(
    heads: Map<u64, usize>,
    chain: Seq<Option<usize>>,
    groups: Seq<Vec<T>>,
) -> bool {
    &&& chain.len() == groups.len()
    &&& forall|g: int|
        0 <= g < chain.len() ==> ((#[trigger] chain[g]) matches Some(before) ==> before < g)
    &&& forall|g: int| 0 <= g < groups.len() ==> (#[trigger] groups[g])@.len() > 0
    &&& forall|c: u64| heads.contains_key(c) ==> #[trigger] heads[c] < groups.len()
    &&& forall|g: int|
        0 <= g < groups.len() ==> heads.contains_key((#[trigger] groups[g])@[0].code()) && reaches(
            chain,
            heads[groups[g]@[0].code()] as int,
            g,
        )
}

/// The index of the group that takes `x`: the group of its key, if there is one.
fn find_group<T: Keyed>(
    groups: &Vec<Vec<T>>,
    heads: &HashMap<u64, usize>,
    chain: &Vec<Option<usize>>,
    x: &T,
) -> (found: Option<usize>)
    requires
        is_index_of(heads@, chain@, groups@),
    ensures
        match found {
            Some(g) => g < groups@.len() && groups@[g as int]@[0].key() == x.key(),
            None => forall|g: int|
                0 <= g < groups@.len() ==> (#[trigger] groups@[g])@[0].key() != x.key(),
        },
{
    broadcast use vstd::std_specs::hash::group_hash_axioms;

    let code: u64 = x.key_code();
    let mut cursor: Option<usize> = match heads.get(&code) {
        Some(head) => Some(*head),
        None => None,
    };
    proof {
        assert forall|g: int|
            0 <= g < groups@.len() && (#[trigger] groups@[g])@[0].key() == x.key() implies cursor
            is Some && reaches(chain@, cursor->Some_0 as int, g) by {
            T::lemma_one_code_for_a_key(&groups@[g]@[0], x);
        }
    }
    while cursor.is_some()
        invariant
            is_index_of(heads@, chain@, groups@),
            cursor matches Some(c) ==> c < groups@.len(),
            forall|g: int|
                0 <= g < groups@.len() && (#[trigger] groups@[g])@[0].key() == x.key() ==> cursor
                    is Some && reaches(chain@, cursor->Some_0 as int, g),
        decreases
                (match cursor {
                    Some(c) => c + 1,
                    None => 0,
                }),
    {
        let c: usize = cursor.unwrap();
        if groups[c][0].same_key(x) {
            return Some(c);
        }
        cursor = chain[c];
    }
    None
}

/// Groups the items by key.
pub fn group_by_key<T: Keyed>(items: Vec<T>) -> (groups: Vec<Vec<T>>)
    ensures
        contents(groups@) == grouped(items@),
{
    broadcast use vstd::std_specs::hash::group_hash_axioms;

    let ghost all = items@;
    let mut stack = reversed(items);
    let mut groups: Vec<Vec<T>> = Vec::new();
    let mut heads: HashMap<u64, usize> = HashMap::new();
    let mut chain: Vec<Option<usize>> = Vec::new();
    let ghost mut done: Seq<T> = Seq::empty();
    proof {
        assert(contents(groups@) =~= grouped(done));
    }
    while stack.len() > 0
        invariant
            stack@.len() <= all.len(),
            done == all.take(all.len() - stack@.len()),
            stack@ == all.reverse().take(stack@.len() as int),
            contents(groups@) == grouped(done),
            is_index_of(heads@, chain@, groups@),
        decreases stack@.len(),
    {
        let ghost n = all.len() - stack@.len();
        let x = stack.pop().unwrap();
        assert(x == all[n]);
        let ghost next = all.take(n + 1);
        let ghost prior = groups@;
        let ghost old_heads = heads@;
        let ghost old_chain = chain@;
        proof {
            assert(next.drop_last() =~= done);
            assert(next.last() == x);
            lemma_first_keys(done);
            assert(contents(prior).len() == prior.len());
            assert(grouped(done).len() == first_keys(done).len());
            assert(first_keys(done).len() == prior.len());
            assert forall|g: int| 0 <= g < groups@.len() implies (#[trigger] groups@[g])@.len()
                > 0 && groups@[g]@[0].key() == first_keys(done)[g] by {
                assert(contents(groups@)[g] == grouped(done)[g]);
                lemma_groups_are_filled(done, g);
            }
        }
        match find_group(&groups, &heads, &chain, &x) {
            Some(g) => {
                groups[g].push(x);
                proof {
                    let keys = first_keys(done);
                    assert(keys[g as int] == x.key());
                    assert(keys.contains(x.key()));
                    assert(first_keys(next) == keys);
                    assert forall|h: int| 0 <= h < keys.len() implies contents(groups@)[h]
                        == grouped(next)[h] by {
                        done.lemma_filter_push(x, has_key::<T>(keys[h]));
                        assert(done.push(x) =~= next);
                        assert(contents(prior)[h] == grouped(done)[h]);
                        if h != g {
                            assert(groups@[h] == prior[h]);
                            assert(keys[h] != keys[g as int]);
                        }
                    }
                    assert(contents(groups@) =~= grouped(next));
                    assert forall|h: int| 0 <= h < groups@.len() implies (#[trigger] groups@[h])@[0]
                        == prior[h]@[0] by {}
                    assert(is_index_of(heads@, chain@, groups@));
                }
            },
            None => {
                let code: u64 = x.key_code();
                let position: usize = groups.len();
                let link: Option<usize> = match heads.get(&code) {
                    Some(head) => Some(*head),
                    None => None,
                };
                chain.push(link);
                heads.insert(code, position);
                let mut group: Vec<T> = Vec::new();
                group.push(x);
                groups.push(group);
                proof {
                    let keys = first_keys(done);
                    assert(!keys.contains(x.key())) by {
                        if keys.contains(x.key()) {
                            let g = choose|g: int| 0 <= g < keys.len() && keys[g] == x.key();
                            assert(prior[g]@[0].key() == keys[g]);
                        }
                    }
                    assert(first_keys(next) == keys.push(x.key()));
                    assert forall|h: int| 0 <= h < keys.len() + 1 implies contents(groups@)[h]
                        == grouped(next)[h] by {
                        done.lemma_filter_push(x, has_key::<T>(first_keys(next)[h]));
                        assert(done.push(x) =~= next);
                        if h < keys.len() {
                            assert(groups@[h] == prior[h]);
                            assert(contents(prior)[h] == grouped(done)[h]);
                            assert(keys[h] != x.key());
                        } else {
                            let alone = done.filter(has_key::<T>(x.key()));
                            if alone.len() > 0 {
                                done.lemma_filter_pred(has_key::<T>(x.key()), 0);
                                assert(alone.contains(alone[0]));
                                done.lemma_filter_contains_rev(has_key::<T>(x.key()), alone[0]);
                                let i = choose|i: int| 0 <= i < done.len() && done[i] == alone[0];
                                assert(keys.contains(done[i].key()));
                            }
                            assert(alone.push(x) =~= seq![x]);
                            assert(groups@[h]@ =~= seq![x]);
                        }
                    }
                    assert(contents(groups@) =~= grouped(next));
                    assert forall|h: int| 0 <= h < groups@.len() implies heads@.contains_key(
                        (#[trigger] groups@[h])@[0].code(),
                    ) && reaches(chain@, heads@[groups@[h]@[0].code()] as int, h) by {
                        if h < prior.len() {
                            assert(groups@[h] == prior[h]);
                            let c = prior[h]@[0].code();
                            lemma_reaches_after_push(old_chain, link, old_heads[c] as int, h);
                            if c == code {
                                assert(link == Some(old_heads[c]));
                                assert(reaches(chain@, position as int, h));
                            }
                        } else {
                            assert(groups@[h]@[0] == x);
                            assert(reaches(chain@, position as int, h));
                        }
                    }
                    assert(is_index_of(heads@, chain@, groups@));
                }
            },
        }
        proof {
            done = next;
        }
    }
    assert(all.take(all.len() as int) =~= all);
    groups
}

} // verus!
