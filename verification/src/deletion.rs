//! The bookkeeping around a batch of deletions.
//!
//! The library deletes nothing. It says which of the selected paths may be deleted, counts
//! what the caller reports of each removal, and says what is left in the lists afterwards.

use crate::duplicates::{group_views, GroupView};
use crate::models::{DuplicateFile, DuplicateGroup, Timestamp};
use crate::ordering::reversed;
use crate::sanitizer::{PathProbe, PathSanitizer, Rejection, ValidationError};
use crate::selection::{lemma_filter_take_is_prefix, remaining, unmarked};
use crate::sums::{
    lemma_total_filter_bounded, lemma_total_prefix_bounded, sum_weights, total_weight, Weighable,
    Weighted,
};
use vstd::prelude::*;

verus! {

/// What became of one attempt to remove a path.
#[derive(Debug, Clone, Copy, PartialEq, Eq, Structural)]
pub struct Removal {
    /// The size of the item.
    pub size: u64,
    /// Whether the path was removed.
    pub removed: bool,
}

impl Weighted for Removal {
    open spec fn weight(&self) -> nat {
        self.size as nat
    }
}

impl Weighable for Removal {
    fn weigh(&self) -> (w: u64) {
        self.size
    }
}

/// The predicate "was removed".
pub open spec fn succeeded() -> spec_fn(Removal) -> bool {
    |removal: Removal| removal.removed
}

/// The predicate "was not removed".
pub open spec fn failed() -> spec_fn(Removal) -> bool {
    |removal: Removal| !removal.removed
}

/// The result of a batch of deletions.
#[derive(Debug, Clone, Copy, PartialEq, Eq, Structural)]
pub struct DeletionReport {
    /// How many paths were removed.
    pub deleted: usize,
    /// How many paths could not be removed.
    pub failed: usize,
    /// The size of what was removed.
    pub bytes_freed: u64,
}

/// Counts a batch of deletions: a removal that failed is counted and does not end the batch.
pub fn tally(removals: &Vec<Removal>) -> (report: DeletionReport)
    requires
        total_weight(removals@.filter(succeeded())) <= u64::MAX,
    ensures
        report.deleted == removals@.filter(succeeded()).len(),
        report.failed == removals@.filter(failed()).len(),
        report.bytes_freed == total_weight(removals@.filter(succeeded())),
        report.deleted + report.failed == removals@.len(),
{
    let ghost all = removals@.filter(succeeded());
    let mut report = DeletionReport { deleted: 0, failed: 0, bytes_freed: 0 };
    let mut i: usize = 0;
    proof {
        reveal(Seq::filter);
        assert(removals@.take(0) =~= Seq::<Removal>::empty());
    }
    while i < removals.len()
        invariant
            i <= removals@.len(),
            all == removals@.filter(succeeded()),
            total_weight(all) <= u64::MAX,
            report.deleted + report.failed == i,
            report.deleted == removals@.take(i as int).filter(succeeded()).len(),
            report.failed == removals@.take(i as int).filter(failed()).len(),
            report.bytes_freed == total_weight(removals@.take(i as int).filter(succeeded())),
        decreases removals@.len() - i,
    {
        let removal = removals[i];
        proof {
            let front = removals@.take(i as int);
            assert(removals@.take(i as int + 1) =~= front.push(removal));
            front.lemma_filter_push(removal, succeeded());
            front.lemma_filter_push(removal, failed());
            lemma_filter_take_is_prefix(removals@, succeeded(), i as int + 1);
            let grown = removals@.take(i as int + 1).filter(succeeded());
            lemma_total_prefix_bounded(all, grown.len() as int);
            if removal.removed {
                assert(grown.drop_last() =~= front.filter(succeeded()));
            }
        }
        if removal.removed {
            report.deleted = report.deleted + 1;
            report.bytes_freed = report.bytes_freed + removal.size;
        } else {
            report.failed = report.failed + 1;
        }
        i += 1;
    }
    assert(removals@.take(i as int) =~= removals@);
    report
}

/// A path that is to be deleted, with what the caller found out about it.
#[derive(Debug)]
pub struct Candidate {
    pub probe: PathProbe,
    /// The size that the item has in the list from which it was selected.
    pub size: u64,
}

/// A path that may be deleted.
#[derive(Debug)]
pub struct Target {
    /// The path to remove, as validation returned it.
    pub path: String,
    pub size: u64,
}

/// A `Target` with its path as a sequence of characters.
pub struct TargetView {
    pub path: Seq<char>,
    pub size: u64,
}

impl View for Target {
    type V = TargetView;

    open spec fn view(&self) -> TargetView {
        TargetView { path: self.path@, size: self.size }
    }
}

/// The paths of a batch that may be deleted, and the reasons for which the others may not.
#[derive(Debug)]
pub struct Validated {
    pub accepted: Vec<Target>,
    /// One reason for every path that was rejected.
    pub rejected: Vec<ValidationError>,
}

/// The targets as mathematical values.
pub open spec fn targets(list: Seq<Target>) -> Seq<TargetView> {
    list.map_values(|target: Target| target@)
}

/// The reasons as mathematical values.
pub open spec fn reasons(list: Seq<ValidationError>) -> Seq<Rejection> {
    list.map_values(|reason: ValidationError| reason@)
}

/// The predicate "is accepted by the validator".
pub open spec fn passes(sanitizer: PathSanitizer, now: Timestamp) -> spec_fn(Candidate) -> bool {
    |candidate: Candidate| sanitizer.outcome(candidate.probe, now) is Ok
}

/// The predicate "is rejected by the validator".
pub open spec fn fails(sanitizer: PathSanitizer, now: Timestamp) -> spec_fn(Candidate) -> bool {
    |candidate: Candidate| sanitizer.outcome(candidate.probe, now) is Err
}

/// The target for a candidate that validation accepts.
pub open spec fn target_of(sanitizer: PathSanitizer, now: Timestamp) -> spec_fn(
    Candidate,
) -> TargetView {
    |candidate: Candidate|
        TargetView { path: sanitizer.outcome(candidate.probe, now)->Ok_0, size: candidate.size }
}

/// The reason that validation gives for a candidate that it rejects.
pub open spec fn rejection(sanitizer: PathSanitizer, now: Timestamp) -> spec_fn(
    Candidate,
) -> Rejection {
    |candidate: Candidate| sanitizer.outcome(candidate.probe, now)->Err_0
}

/// Validates every path of a batch before any of them is deleted: the paths that pass are
/// handed back for deletion, the others with the reason for which each was rejected.
pub fn validate_all(sanitizer: &PathSanitizer, candidates: &Vec<Candidate>, now: &Timestamp) -> (out:
    Validated)
    ensures
        targets(out.accepted@) == candidates@.filter(passes(*sanitizer, *now)).map_values(
            target_of(*sanitizer, *now),
        ),
        reasons(out.rejected@) == candidates@.filter(fails(*sanitizer, *now)).map_values(
            rejection(*sanitizer, *now),
        ),
        out.accepted@.len() + out.rejected@.len() == candidates@.len(),
{
    let ghost pass = passes(*sanitizer, *now);
    let ghost fail = fails(*sanitizer, *now);
    let ghost target = target_of(*sanitizer, *now);
    let ghost reason_of = rejection(*sanitizer, *now);
    let mut accepted: Vec<Target> = Vec::new();
    let mut rejected: Vec<ValidationError> = Vec::new();
    let mut i: usize = 0;
    proof {
        reveal(Seq::filter);
        assert(candidates@.take(0) =~= Seq::<Candidate>::empty());
        assert(targets(accepted@) =~= candidates@.take(0).filter(pass).map_values(target));
        assert(reasons(rejected@) =~= candidates@.take(0).filter(fail).map_values(reason_of));
    }
    while i < candidates.len()
        invariant
            i <= candidates@.len(),
            pass == passes(*sanitizer, *now),
            fail == fails(*sanitizer, *now),
            target == target_of(*sanitizer, *now),
            reason_of == rejection(*sanitizer, *now),
            accepted@.len() + rejected@.len() == i,
            targets(accepted@) == candidates@.take(i as int).filter(pass).map_values(target),
            reasons(rejected@) == candidates@.take(i as int).filter(fail).map_values(reason_of),
        decreases candidates@.len() - i,
    {
        let candidate = &candidates[i];
        let ghost front = candidates@.take(i as int);
        let ghost was_accepted = accepted@;
        let ghost was_rejected = rejected@;
        proof {
            assert(candidates@.take(i as int + 1) =~= front.push(*candidate));
            front.lemma_filter_push(*candidate, pass);
            front.lemma_filter_push(*candidate, fail);
        }
        match sanitizer.sanitize_path(&candidate.probe, now) {
            Ok(path) => {
                let found = Target { path, size: candidate.size };
                accepted.push(found);
                proof {
                    assert(targets(accepted@) =~= targets(was_accepted).push(found@));
                    assert(front.filter(pass).push(*candidate).map_values(target) =~= front.filter(
                        pass,
                    ).map_values(target).push(found@));
                }
            },
            Err(reason) => {
                rejected.push(reason);
                proof {
                    assert(reasons(rejected@) =~= reasons(was_rejected).push(reason@));
                    assert(front.filter(fail).push(*candidate).map_values(reason_of)
                        =~= front.filter(fail).map_values(reason_of).push(reason@));
                }
            },
        }
        i += 1;
    }
    assert(candidates@.take(i as int) =~= candidates@);
    Validated { accepted, rejected }
}

/// What is left of a group of duplicates after its marked files have been deleted: the files
/// that are not marked, with the totals that follow from them; nothing, if fewer than two
/// files are left.
pub open spec fn pruned(group: GroupView) -> Option<GroupView> {
    let left = group.files.filter(unmarked::<DuplicateFile>());
    if left.len() >= 2 {
        Some(
            GroupView {
                hash: group.hash,
                files: left,
                total_size: total_weight(left),
                wasted_size: (total_weight(left) - left[0].size) as nat,
            },
        )
    } else {
        None
    }
}

/// What is left of the first `k` groups.
pub open spec fn pruned_groups(groups: Seq<GroupView>, k: nat) -> Seq<GroupView>
    decreases k,
{
    if k == 0 || k > groups.len() {
        Seq::empty()
    } else {
        let before = pruned_groups(groups, (k - 1) as nat);
        match pruned(groups[k - 1]) {
            Some(group) => before.push(group),
            None => before,
        }
    }
}

/// Whether the files of every group add up within 64 bits.
pub open spec fn groups_fit(groups: Seq<DuplicateGroup>) -> bool {
    forall|g: int| 0 <= g < groups.len() ==> total_weight((#[trigger] groups[g]).files@) <= u64::MAX
}

/// What is left of the groups of duplicates after the marked files have been deleted. A
/// group that keeps fewer than two files is no group of duplicates any more and is dropped.
pub fn remaining_groups(groups: Vec<DuplicateGroup>) -> (rest: Vec<DuplicateGroup>)
    requires
        groups_fit(groups@),
    ensures
        group_views(rest@) == pruned_groups(group_views(groups@), groups@.len()),
{
    let ghost all = groups@;
    let ghost views = group_views(groups@);
    let mut stack = reversed(groups);
    let mut rest: Vec<DuplicateGroup> = Vec::new();
    assert(group_views(rest@) =~= pruned_groups(views, 0));
    while stack.len() > 0
        invariant
            stack@.len() <= all.len(),
            stack@ == all.reverse().take(stack@.len() as int),
            views == group_views(all),
            groups_fit(all),
            group_views(rest@) == pruned_groups(views, (all.len() - stack@.len()) as nat),
        decreases stack@.len(),
    {
        let ghost n = all.len() - stack@.len();
        let group = stack.pop().unwrap();
        assert(group == all[n]);
        assert(views[n] == group@);
        let ghost files = group.files@;
        let hash = group.hash;
        let left = remaining(group.files);
        if left.len() >= 2 {
            proof {
                lemma_total_filter_bounded(files, unmarked::<DuplicateFile>());
                assert(left@.take(1) =~= seq![left@[0]]);
                assert(seq![left@[0]].drop_last() =~= Seq::<DuplicateFile>::empty());
                lemma_total_prefix_bounded(left@, 1);
            }
            let total: u64 = sum_weights(&left);
            let first: u64 = left[0].size;
            let kept = DuplicateGroup {
                hash,
                files: left,
                total_size: total,
                wasted_size: total - first,
            };
            let ghost prior = rest@;
            rest.push(kept);
            assert(group_views(rest@) =~= group_views(prior).push(kept@));
        }
    }
    rest
}

} // verus!
