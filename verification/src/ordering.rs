//! Stable ordering of result lists by a numeric rank, highest rank first.
//!
//! Every scanner hands its results out ordered (largest first, or oldest first). The order is
//! defined once here as a mathematical function on sequences, `sorted_by`, together with the
//! facts that make it the stable descending sort; `sort_by_rank` computes it by merging.

use vstd::prelude::*;

verus! {

/// A value that is ordered by a number: a higher rank comes earlier in a sorted list.
pub trait Ranked: Sized {
    /// The number the value is ordered by.
    spec fn rank(&self) -> int;

    /// Whether `self` has a strictly higher rank than `other`.
    fn outranks(&self, other: &Self) -> (b: bool)
        ensures
            b == (self.rank() > other.rank()),
    ;
}

/// The rank of a `Ranked` value, as a function that `sorted_by` can take.
pub open spec fn rank_of<T: Ranked>() -> spec_fn(T) -> int {
    |x: T| x.rank()
}

/// `s` with `x` put in front of the first element whose rank does not exceed the rank of `x`.
pub open spec fn placed<T>(s: Seq<T>, x: T, rank: spec_fn(T) -> int) -> Seq<T>
    decreases s.len(),
{
    if s.len() == 0 || rank(s[0]) <= rank(x) {
        seq![x] + s
    } else {
        seq![s[0]] + placed(s.drop_first(), x, rank)
    }
}

/// The elements of `s` by descending rank; elements of equal rank keep the order they have
/// in `s`.
pub open spec fn sorted_by<T>(s: Seq<T>, rank: spec_fn(T) -> int) -> Seq<T>
    decreases s.len(),
{
    if s.len() == 0 {
        s
    } else {
        placed(sorted_by(s.drop_first(), rank), s[0], rank)
    }
}

/// No element is followed by one of higher rank.
pub open spec fn is_descending<T>(s: Seq<T>, rank: spec_fn(T) -> int) -> bool {
    forall|i: int, j: int| 0 <= i < j < s.len() ==> rank(s[i]) >= rank(s[j])
}

/// The predicate "has rank `r`".
pub open spec fn has_rank<T>(rank: spec_fn(T) -> int, r: int) -> spec_fn(T) -> bool {
    |x: T| rank(x) == r
}

/// The index at which `placed` puts `x`: in front of `s[p]`, the first element that does not
/// outrank `x`.
pub open spec fn is_place<T>(s: Seq<T>, x: T, rank: spec_fn(T) -> int, p: int) -> bool {
    &&& 0 <= p <= s.len()
    &&& forall|j: int| 0 <= j < p ==> rank(#[trigger] s[j]) > rank(x)
    &&& (p < s.len() ==> rank(s[p]) <= rank(x))
}

/// `placed` is an insertion at the place of `x`.
pub proof fn lemma_placed_is_insert<T>(s: Seq<T>, x: T, rank: spec_fn(T) -> int, p: int)
    requires
        is_place(s, x, rank, p),
    ensures
        placed(s, x, rank) == s.insert(p, x),
    decreases s.len(),
{
    if s.len() == 0 || rank(s[0]) <= rank(x) {
        assert(p == 0) by {
            if p > 0 {
                assert(rank(s[0]) > rank(x));
            }
        }
        assert(seq![x] + s =~= s.insert(0, x));
    } else {
        assert(p > 0);
        let rest = s.drop_first();
        assert(is_place(rest, x, rank, p - 1)) by {
            assert forall|j: int| 0 <= j < p - 1 implies rank(#[trigger] rest[j]) > rank(x) by {
                assert(rest[j] == s[j + 1]);
            }
        }
        lemma_placed_is_insert(rest, x, rank, p - 1);
        assert(seq![s[0]] + rest.insert(p - 1, x) =~= s.insert(p, x));
    }
}

/// Placing keeps every element and adds one.
pub proof fn lemma_placed_len<T>(s: Seq<T>, x: T, rank: spec_fn(T) -> int)
    ensures
        placed(s, x, rank).len() == s.len() + 1,
    decreases s.len(),
{
    if !(s.len() == 0 || rank(s[0]) <= rank(x)) {
        lemma_placed_len(s.drop_first(), x, rank);
    }
}

/// Placing into a descending list leaves it descending.
pub proof fn lemma_placed_descending<T>(s: Seq<T>, x: T, rank: spec_fn(T) -> int)
    requires
        is_descending(s, rank),
    ensures
        is_descending(placed(s, x, rank), rank),
        forall|k: int|
            0 <= k < placed(s, x, rank).len() ==> #[trigger] rank(placed(s, x, rank)[k]) == rank(x)
                || exists|j: int| 0 <= j < s.len() && rank(s[j]) == rank(placed(s, x, rank)[k]),
    decreases s.len(),
{
    let out = placed(s, x, rank);
    if s.len() == 0 || rank(s[0]) <= rank(x) {
        assert forall|i: int, j: int| 0 <= i < j < out.len() implies rank(out[i]) >= rank(
            out[j],
        ) by {
            if i > 0 {
                assert(out[i] == s[i - 1] && out[j] == s[j - 1]);
            } else {
                assert(out[j] == s[j - 1]);
                if j - 1 > 0 {
                    assert(rank(s[0]) >= rank(s[j - 1]));
                }
            }
        }
        assert forall|k: int| 0 <= k < out.len() implies #[trigger] rank(out[k]) == rank(x)
            || exists|j: int| 0 <= j < s.len() && rank(s[j]) == rank(out[k]) by {
            if k > 0 {
                assert(out[k] == s[k - 1]);
            }
        }
    } else {
        let rest = s.drop_first();
        assert(is_descending(rest, rank)) by {
            assert forall|i: int, j: int| 0 <= i < j < rest.len() implies rank(rest[i]) >= rank(
                rest[j],
            ) by {
                assert(rest[i] == s[i + 1] && rest[j] == s[j + 1]);
            }
        }
        lemma_placed_descending(rest, x, rank);
        let inner = placed(rest, x, rank);
        assert forall|k: int| 0 <= k < out.len() implies #[trigger] rank(out[k]) == rank(x)
            || exists|j: int| 0 <= j < s.len() && rank(s[j]) == rank(out[k]) by {
            if k > 0 {
                assert(out[k] == inner[k - 1]);
                if rank(inner[k - 1]) != rank(x) {
                    let j = choose|j: int|
                        0 <= j < rest.len() && rank(rest[j]) == rank(inner[k - 1]);
                    assert(rest[j] == s[j + 1]);
                }
            } else {
                assert(out[0] == s[0]);
            }
        }
        assert forall|i: int, j: int| 0 <= i < j < out.len() implies rank(out[i]) >= rank(
            out[j],
        ) by {
            if i > 0 {
                assert(out[i] == inner[i - 1] && out[j] == inner[j - 1]);
            } else {
                assert(out[0] == s[0]);
                assert(out[j] == inner[j - 1]);
                if rank(inner[j - 1]) != rank(x) {
                    let m = choose|m: int|
                        0 <= m < rest.len() && rank(rest[m]) == rank(inner[j - 1]);
                    assert(rest[m] == s[m + 1]);
                }
            }
        }
    }
}

/// Placing `x` adds `x` to the elements of rank `rank(x)`, in front, and changes no other
/// rank's elements.
pub proof fn lemma_placed_filter<T>(s: Seq<T>, x: T, rank: spec_fn(T) -> int, r: int)
    requires
        is_descending(s, rank),
    ensures
        placed(s, x, rank).filter(has_rank(rank, r)) == if rank(x) == r {
            seq![x] + s.filter(has_rank(rank, r))
        } else {
            s.filter(has_rank(rank, r))
        },
    decreases s.len(),
{
    let pred = has_rank(rank, r);
    if s.len() == 0 || rank(s[0]) <= rank(x) {
        s.lemma_filter_prepend(x, pred);
    } else {
        let rest = s.drop_first();
        assert(is_descending(rest, rank)) by {
            assert forall|i: int, j: int| 0 <= i < j < rest.len() implies rank(rest[i]) >= rank(
                rest[j],
            ) by {
                assert(rest[i] == s[i + 1] && rest[j] == s[j + 1]);
            }
        }
        lemma_placed_filter(rest, x, rank, r);
        let inner = placed(rest, x, rank);
        inner.lemma_filter_prepend(s[0], pred);
        rest.lemma_filter_prepend(s[0], pred);
        assert(seq![s[0]] + rest =~= s);
        assert(rank(s[0]) > rank(x));
    }
}

/// Sorting keeps the number of elements.
pub proof fn lemma_sorted_len<T>(s: Seq<T>, rank: spec_fn(T) -> int)
    ensures
        sorted_by(s, rank).len() == s.len(),
    decreases s.len(),
{
    if s.len() > 0 {
        lemma_sorted_len(s.drop_first(), rank);
        lemma_placed_len(sorted_by(s.drop_first(), rank), s[0], rank);
    }
}

/// A sorted list is descending by rank.
pub proof fn lemma_sorted_descending<T>(s: Seq<T>, rank: spec_fn(T) -> int)
    ensures
        is_descending(sorted_by(s, rank), rank),
    decreases s.len(),
{
    if s.len() > 0 {
        lemma_sorted_descending(s.drop_first(), rank);
        lemma_placed_descending(sorted_by(s.drop_first(), rank), s[0], rank);
    }
}

/// Sorting is stable: for every rank, the elements of that rank are the same, in the same
/// order, before and after.
pub proof fn lemma_sorted_stable<T>(s: Seq<T>, rank: spec_fn(T) -> int, r: int)
    ensures
        sorted_by(s, rank).filter(has_rank(rank, r)) == s.filter(has_rank(rank, r)),
    decreases s.len(),
{
    if s.len() > 0 {
        let rest = s.drop_first();
        lemma_sorted_stable(rest, rank, r);
        lemma_sorted_descending(rest, rank);
        lemma_placed_filter(sorted_by(rest, rank), s[0], rank, r);
        rest.lemma_filter_prepend(s[0], has_rank(rank, r));
        assert(seq![s[0]] + rest =~= s);
    }
}

/// Sorting rearranges: it neither drops nor invents nor repeats an element.
pub proof fn lemma_sorted_permutes<T>(s: Seq<T>, rank: spec_fn(T) -> int)
    ensures
        sorted_by(s, rank).to_multiset() == s.to_multiset(),
    decreases s.len(),
{
    broadcast use vstd::seq_lib::group_to_multiset_ensures;

    if s.len() > 0 {
        let rest = s.drop_first();
        let inner = sorted_by(rest, rank);
        lemma_sorted_permutes(rest, rank);
        lemma_sorted_descending(rest, rank);
        let p = choose_place(inner, s[0], rank);
        lemma_placed_is_insert(inner, s[0], rank, p);
        assert(inner.insert(p, s[0]).to_multiset() == inner.to_multiset().insert(s[0]));
        assert(s =~= rest.insert(0, s[0]));
        assert(rest.insert(0, s[0]).to_multiset() == rest.to_multiset().insert(s[0]));
    } else {
        assert(sorted_by(s, rank) =~= s);
    }
}

/// Every element of the sorted list is an element of the list, and the other way round.
pub proof fn lemma_sorted_same_elements<T>(s: Seq<T>, rank: spec_fn(T) -> int)
    ensures
        forall|x: T| sorted_by(s, rank).contains(x) <==> s.contains(x),
{
    broadcast use vstd::seq_lib::group_to_multiset_ensures;

    lemma_sorted_permutes(s, rank);
    assert forall|x: T| sorted_by(s, rank).contains(x) <==> s.contains(x) by {
        assert(sorted_by(s, rank).to_multiset().count(x) == s.to_multiset().count(x));
    }
}

/// The place of `x` in `s` exists.
pub proof fn choose_place<T>(s: Seq<T>, x: T, rank: spec_fn(T) -> int) -> (p: int)
    ensures
        is_place(s, x, rank, p),
    decreases s.len(),
{
    if s.len() == 0 || rank(s[0]) <= rank(x) {
        0
    } else {
        let rest = s.drop_first();
        let q = choose_place(rest, x, rank);
        assert forall|j: int| 0 <= j < q + 1 implies rank(#[trigger] s[j]) > rank(x) by {
            if j > 0 {
                assert(s[j] == rest[j - 1]);
            }
        }
        assert(q + 1 < s.len() ==> s[q + 1] == rest[q]);
        q + 1
    }
}

/// Sorting commutes with a mapping that keeps every rank.
pub proof fn lemma_sorted_map<T, U>(
    s: Seq<T>,
    f: spec_fn(T) -> U,
    rank: spec_fn(T) -> int,
    mapped_rank: spec_fn(U) -> int,
)
    requires
        forall|x: T| #[trigger] mapped_rank(f(x)) == rank(x),
    ensures
        sorted_by(s, rank).map_values(f) == sorted_by(s.map_values(f), mapped_rank),
    decreases s.len(),
{
    if s.len() == 0 {
        assert(sorted_by(s, rank).map_values(f) =~= sorted_by(s.map_values(f), mapped_rank));
    } else {
        let rest = s.drop_first();
        lemma_sorted_map(rest, f, rank, mapped_rank);
        assert(s.map_values(f).drop_first() =~= rest.map_values(f));
        lemma_placed_map(sorted_by(rest, rank), s[0], f, rank, mapped_rank);
    }
}

/// Placing commutes with a mapping that keeps every rank.
pub proof fn lemma_placed_map<T, U>(
    s: Seq<T>,
    x: T,
    f: spec_fn(T) -> U,
    rank: spec_fn(T) -> int,
    mapped_rank: spec_fn(U) -> int,
)
    requires
        forall|y: T| #[trigger] mapped_rank(f(y)) == rank(y),
    ensures
        placed(s, x, rank).map_values(f) == placed(s.map_values(f), f(x), mapped_rank),
    decreases s.len(),
{
    let ms = s.map_values(f);
    if s.len() == 0 || rank(s[0]) <= rank(x) {
        assert((seq![x] + s).map_values(f) =~= seq![f(x)] + ms);
        if s.len() > 0 {
            assert(ms[0] == f(s[0]));
        }
    } else {
        let rest = s.drop_first();
        lemma_placed_map(rest, x, f, rank, mapped_rank);
        assert(ms[0] == f(s[0]));
        assert(ms.drop_first() =~= rest.map_values(f));
        assert((seq![s[0]] + placed(rest, x, rank)).map_values(f) =~= seq![f(s[0])] + placed(
            rest,
            x,
            rank,
        ).map_values(f));
    }
}

/// The items in the opposite order.
pub fn reversed<T>(items: Vec<T>) -> (back: Vec<T>)
    ensures
        back@ == items@.reverse(),
{
    let ghost all = items@;
    let mut queue = items;
    let mut back: Vec<T> = Vec::new();
    while queue.len() > 0
        invariant
            queue@.len() <= all.len(),
            queue@ == all.take(queue@.len() as int),
            back@ == all.reverse().take(all.len() - queue@.len()),
        decreases queue@.len(),
    {
        let ghost n = queue@.len() as int;
        let x = queue.pop().unwrap();
        back.push(x);
        assert(back@ =~= all.reverse().take(all.len() - n + 1));
    }
    assert(all.reverse().take(all.len() as int) =~= all.reverse());
    back
}

/// Two lists merged into one: the next element is the first of `left`, unless the first of
/// `right` has a strictly higher rank.
pub open spec fn merged<T>(left: Seq<T>, right: Seq<T>, rank: spec_fn(T) -> int) -> Seq<T>
    decreases left.len() + right.len(),
{
    if left.len() == 0 {
        right
    } else if right.len() == 0 {
        left
    } else if rank(left[0]) >= rank(right[0]) {
        seq![left[0]] + merged(left.drop_first(), right, rank)
    } else {
        seq![right[0]] + merged(left, right.drop_first(), rank)
    }
}

/// Placing an element into a merged list is placing it into the left list and merging then.
pub proof fn lemma_placed_merged<T>(left: Seq<T>, right: Seq<T>, x: T, rank: spec_fn(T) -> int)
    ensures
        placed(merged(left, right, rank), x, rank) == merged(placed(left, x, rank), right, rank),
    decreases left.len() + right.len(),
{
    let both = merged(left, right, rank);
    let grown = placed(left, x, rank);
    if right.len() == 0 {
        assert(grown.len() > 0) by {
            lemma_placed_len(left, x, rank);
        }
    } else if left.len() == 0 || rank(left[0]) <= rank(x) {
        assert(grown =~= seq![x] + left);
        assert(grown.drop_first() =~= left);
        if rank(x) >= rank(right[0]) {
            assert(both.len() > 0 ==> rank(both[0]) <= rank(x));
        } else {
            lemma_placed_merged(left, right.drop_first(), x, rank);
            assert(both =~= seq![right[0]] + merged(left, right.drop_first(), rank));
            assert(both.drop_first() =~= merged(left, right.drop_first(), rank));
        }
    } else {
        let rest = left.drop_first();
        assert(grown =~= seq![left[0]] + placed(rest, x, rank));
        assert(grown.drop_first() =~= placed(rest, x, rank));
        if rank(left[0]) >= rank(right[0]) {
            lemma_placed_merged(rest, right, x, rank);
            assert(both.drop_first() =~= merged(rest, right, rank));
        } else {
            lemma_placed_merged(left, right.drop_first(), x, rank);
            assert(both.drop_first() =~= merged(left, right.drop_first(), rank));
        }
    }
}

/// Sorting two lists put together is merging the two sorted lists.
pub proof fn lemma_sorted_concat<T>(first: Seq<T>, second: Seq<T>, rank: spec_fn(T) -> int)
    ensures
        sorted_by(first + second, rank) == merged(
            sorted_by(first, rank),
            sorted_by(second, rank),
            rank,
        ),
    decreases first.len(),
{
    if first.len() == 0 {
        assert(first + second =~= second);
    } else {
        let rest = first.drop_first();
        assert((first + second).drop_first() =~= rest + second);
        lemma_sorted_concat(rest, second, rank);
        lemma_placed_merged(sorted_by(rest, rank), sorted_by(second, rank), first[0], rank);
    }
}

/// Merges two lists.
fn merge<T: Ranked>(left: Vec<T>, right: Vec<T>) -> (out: Vec<T>)
    ensures
        out@ == merged(left@, right@, rank_of::<T>()),
{
    let ghost a = left@;
    let ghost b = right@;
    let ghost rank = rank_of::<T>();
    let mut from_left = reversed(left);
    let mut from_right = reversed(right);
    let mut out: Vec<T> = Vec::new();
    proof {
        assert(a.skip(0) =~= a);
        assert(b.skip(0) =~= b);
        assert(out@ + merged(a, b, rank) =~= merged(a, b, rank));
    }
    while from_left.len() > 0 && from_right.len() > 0
        invariant
            rank == rank_of::<T>(),
            from_left@.len() <= a.len(),
            from_right@.len() <= b.len(),
            from_left@ == a.reverse().take(from_left@.len() as int),
            from_right@ == b.reverse().take(from_right@.len() as int),
            out@ + merged(
                a.skip(a.len() - from_left@.len()),
                b.skip(b.len() - from_right@.len()),
                rank,
            ) == merged(a, b, rank),
        decreases from_left@.len() + from_right@.len(),
    {
        let ghost i = a.len() - from_left@.len();
        let ghost j = b.len() - from_right@.len();
        let ghost before = out@;
        proof {
            assert(from_left@[from_left@.len() - 1] == a[i]);
            assert(from_right@[from_right@.len() - 1] == b[j]);
            assert(a.skip(i)[0] == a[i] && b.skip(j)[0] == b[j]);
            assert(a.skip(i).drop_first() =~= a.skip(i + 1));
            assert(b.skip(j).drop_first() =~= b.skip(j + 1));
        }
        let right_first = from_right[from_right.len() - 1].outranks(
            &from_left[from_left.len() - 1],
        );
        let x = if right_first {
            from_right.pop().unwrap()
        } else {
            from_left.pop().unwrap()
        };
        out.push(x);
        proof {
            let rest = if right_first {
                merged(a.skip(i), b.skip(j + 1), rank)
            } else {
                merged(a.skip(i + 1), b.skip(j), rank)
            };
            assert(merged(a.skip(i), b.skip(j), rank) =~= seq![x] + rest);
            assert(out@ + rest =~= before + (seq![x] + rest));
        }
    }
    let ghost i = a.len() - from_left@.len();
    let ghost j = b.len() - from_right@.len();
    if from_left.len() > 0 {
        assert(merged(a.skip(i), b.skip(j), rank) == a.skip(i));
        while from_left.len() > 0
            invariant
                from_left@.len() <= a.len(),
                from_left@ == a.reverse().take(from_left@.len() as int),
                out@ + a.skip(a.len() - from_left@.len()) == merged(a, b, rank),
            decreases from_left@.len(),
        {
            let ghost i = a.len() - from_left@.len();
            let ghost before = out@;
            let x = from_left.pop().unwrap();
            out.push(x);
            proof {
                assert(x == a[i]);
                assert(a.skip(i) =~= seq![x] + a.skip(i + 1));
                assert(out@ + a.skip(i + 1) =~= before + a.skip(i));
            }
        }
        assert(out@ + a.skip(a.len() as int) =~= out@);
    } else {
        assert(merged(a.skip(i), b.skip(j), rank) == b.skip(j));
        while from_right.len() > 0
            invariant
                from_right@.len() <= b.len(),
                from_right@ == b.reverse().take(from_right@.len() as int),
                out@ + b.skip(b.len() - from_right@.len()) == merged(a, b, rank),
            decreases from_right@.len(),
        {
            let ghost j = b.len() - from_right@.len();
            let ghost before = out@;
            let x = from_right.pop().unwrap();
            out.push(x);
            proof {
                assert(x == b[j]);
                assert(b.skip(j) =~= seq![x] + b.skip(j + 1));
                assert(out@ + b.skip(j + 1) =~= before + b.skip(j));
            }
        }
        assert(out@ + b.skip(b.len() as int) =~= out@);
    }
    out
}

/// Sorts `items` by descending rank, keeping the order of elements of equal rank.
pub fn sort_by_rank<T: Ranked>(items: Vec<T>) -> (out: Vec<T>)
    ensures
        out@ == sorted_by(items@, rank_of::<T>()),
    decreases items@.len(),
{
    let ghost all = items@;
    let ghost rank = rank_of::<T>();
    if items.len() <= 1 {
        proof {
            if all.len() == 1 {
                assert(sorted_by(all.drop_first(), rank) =~= Seq::<T>::empty());
                assert(sorted_by(all, rank) =~= all);
            }
        }
        return items;
    }
    let mut front = items;
    let middle: usize = front.len() / 2;
    let back = front.split_off(middle);
    proof {
        assert(front@ + back@ =~= all);
        lemma_sorted_concat(front@, back@, rank);
    }
    let front = sort_by_rank(front);
    let back = sort_by_rank(back);
    merge(front, back)
}

} // verus!
