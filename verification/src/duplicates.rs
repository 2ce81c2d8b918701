//! The scan for files with identical content.
//!
//! The scan has two phases, with the reading of file contents between them. First the entries
//! of a walk are grouped by size, and only files that share their size with another file are
//! handed back for hashing. Then the hashed files are grouped by size and digest; every group
//! of two or more is a group of duplicates.

use crate::grouping::{
    contents, first_keys, group_by_key, grouped, has_key, lemma_filter_keeps_both,
    lemma_flatten_holds, lemma_groups_are_filled, lemma_same_key_same_group, Keyed,
};
use crate::models::{
    is_within_depth, within_depth, DuplicateFile, DuplicateGroup, FileEntry, ScanError,
    Timestamp, Walk,
};
use crate::ordering::{
    lemma_sorted_descending, lemma_sorted_len, lemma_sorted_map, lemma_sorted_same_elements,
    rank_of, sort_by_rank, sorted_by,
};
use crate::paths::{default_scan_path, home_directory};
use crate::sums::{
    lemma_total_filter_bounded, lemma_total_uniform, sum_weights, total_weight, Weighable,
    Weighted,
};
use vstd::prelude::*;

verus! {

/// A file whose content has been hashed.
#[derive(Debug)]
pub struct HashedFile {
    pub path: String,
    pub size: u64,
    pub modified: Timestamp,
    /// The digest of the content, as `ContentHasher` gives it.
    pub digest: String,
}

impl Clone for HashedFile {
    fn clone(&self) -> (copy: Self)
        ensures
            copy == *self,
    {
        HashedFile {
            path: self.path.clone(),
            size: self.size,
            modified: self.modified,
            digest: self.digest.clone(),
        }
    }
}

impl Weighted for HashedFile {
    open spec fn weight(&self) -> nat {
        self.size as nat
    }
}

impl Weighable for HashedFile {
    fn weigh(&self) -> (w: u64) {
        self.size
    }
}

impl Keyed for HashedFile {
    /// Hashed files are grouped by size and digest.
    type Key = (u64, Seq<char>);

    open spec fn key(&self) -> (u64, Seq<char>) {
        (self.size, self.digest@)
    }

    open spec fn code(&self) -> u64 {
        self.size
    }

    proof fn lemma_one_code_for_a_key(first: &Self, second: &Self) {
    }

    fn same_key(&self, other: &Self) -> (same: bool) {
        self.size == other.size && self.digest == other.digest
    }

    fn key_code(&self) -> (code: u64) {
        self.size
    }
}

impl Keyed for FileEntry {
    /// The entries of a walk are grouped by size.
    type Key = u64;

    open spec fn key(&self) -> u64 {
        self.size
    }

    open spec fn code(&self) -> u64 {
        self.size
    }

    proof fn lemma_one_code_for_a_key(first: &Self, second: &Self) {
    }

    fn same_key(&self, other: &Self) -> (same: bool) {
        self.size == other.size
    }

    fn key_code(&self) -> (code: u64) {
        self.size
    }
}

/// A `DuplicateGroup` with its texts and lists as sequences.
pub struct GroupView {
    pub hash: Seq<char>,
    pub files: Seq<DuplicateFile>,
    pub total_size: nat,
    pub wasted_size: nat,
}

impl View for DuplicateGroup {
    type V = GroupView;

    open spec fn view(&self) -> GroupView {
        GroupView {
            hash: self.hash@,
            files: self.files@,
            total_size: self.total_size as nat,
            wasted_size: self.wasted_size as nat,
        }
    }
}

/// The views of a list of groups.
pub open spec fn group_views(groups: Seq<DuplicateGroup>) -> Seq<GroupView> {
    groups.map_values(|group: DuplicateGroup| group@)
}

/// The wasted size of a group, as the number the groups are ordered by.
pub open spec fn waste_rank() -> spec_fn(GroupView) -> int {
    |group: GroupView| group.wasted_size as int
}

/// The result entry for a hashed file.
pub open spec fn copy_of(file: HashedFile) -> DuplicateFile {
    DuplicateFile { path: file.path, size: file.size, modified: file.modified, selected: false }
}

/// `copy_of` as a function.
pub open spec fn copier() -> spec_fn(HashedFile) -> DuplicateFile {
    |file: HashedFile| copy_of(file)
}

/// The group of duplicates that the files of one size and digest form: the files oldest
/// first, the total size that of one file times their number, the wasted size all of it but
/// one file.
pub open spec fn group_of(bucket: Seq<HashedFile>) -> GroupView {
    GroupView {
        hash: bucket[0].digest@,
        files: sorted_by(bucket.map_values(copier()), rank_of::<DuplicateFile>()),
        total_size: bucket[0].size as nat * bucket.len(),
        wasted_size: (bucket[0].size as nat * bucket.len() - bucket[0].size) as nat,
    }
}

/// `group_of` as a function.
pub open spec fn grouper() -> spec_fn(Seq<HashedFile>) -> GroupView {
    |bucket: Seq<HashedFile>| group_of(bucket)
}

/// The predicate "holds two or more".
pub open spec fn is_multiple<T>() -> spec_fn(Seq<T>) -> bool {
    |group: Seq<T>| group.len() >= 2
}

/// The thresholds of the scan.
#[derive(Debug, Clone, Copy)]
pub struct DuplicateScanner {
    min_size: u64,
    max_depth: Option<usize>,
}

impl DuplicateScanner {
    /// The least size of a file that is looked at, in bytes.
    pub closed spec fn size_floor(self) -> u64 {
        self.min_size
    }

    /// The depth at which the walk is cut off, if it is.
    pub closed spec fn depth_cap(self) -> Option<usize> {
        self.max_depth
    }

    /// Whether an entry of the walk is looked at: a file within the depth cap that is large
    /// enough.
    pub open spec fn considers(self, entry: FileEntry) -> bool {
        &&& entry.is_file
        &&& within_depth(entry.depth, self.depth_cap())
        &&& entry.size >= self.size_floor()
    }

    /// `considers` as a predicate.
    pub open spec fn considered(self) -> spec_fn(FileEntry) -> bool {
        |entry: FileEntry| self.considers(entry)
    }

    /// The entries that are looked at, grouped by size.
    pub open spec fn size_groups(self, entries: Seq<FileEntry>) -> Seq<Seq<FileEntry>> {
        grouped(entries.filter(self.considered()))
    }

    /// The entries whose content has to be hashed: those that share their size with another
    /// entry, size group after size group.
    pub open spec fn candidates(self, entries: Seq<FileEntry>) -> Seq<FileEntry> {
        self.size_groups(entries).filter(is_multiple::<FileEntry>()).flatten()
    }

    /// What the first phase returns for a walk: the entries to hash, or the error for a root
    /// that cannot be read.
    pub open spec fn to_hash(self, walk: Walk) -> Result<Seq<FileEntry>, Seq<char>> {
        if walk.readable {
            Ok(self.candidates(walk.entries@))
        } else {
            Err(walk.root@)
        }
    }

    /// The predicate "is large enough" on hashed files.
    pub open spec fn large_enough(self) -> spec_fn(HashedFile) -> bool {
        |file: HashedFile| file.size >= self.size_floor()
    }

    /// The hashed files that are large enough, grouped by size and digest.
    pub open spec fn buckets(self, hashed: Seq<HashedFile>) -> Seq<Seq<HashedFile>> {
        grouped(hashed.filter(self.large_enough()))
    }

    /// The groups of duplicates among the hashed files: one for every size and digest that
    /// two or more files share, the group with the most wasted bytes first.
    pub open spec fn duplicates(self, hashed: Seq<HashedFile>) -> Seq<GroupView> {
        sorted_by(
            self.buckets(hashed).filter(is_multiple::<HashedFile>()).map_values(grouper()),
            waste_rank(),
        )
    }

    /// A scanner for files of at least 100 KiB at any depth.
    pub fn new() -> (s: DuplicateScanner)
        ensures
            s.size_floor() == 102_400,
            s.depth_cap() is None,
    {
        DuplicateScanner { min_size: 1024 * 100, max_depth: None }
    }

    pub fn with_min_size(self, min_size: u64) -> (s: DuplicateScanner)
        ensures
            s.size_floor() == min_size,
            s.depth_cap() == self.depth_cap(),
    {
        DuplicateScanner { min_size, max_depth: self.max_depth }
    }

    pub fn with_max_depth(self, max_depth: usize) -> (s: DuplicateScanner)
        ensures
            s.size_floor() == self.size_floor(),
            s.depth_cap() == Some(max_depth),
    {
        DuplicateScanner { min_size: self.min_size, max_depth: Some(max_depth) }
    }

    pub fn min_size(&self) -> (bytes: u64)
        ensures
            bytes == self.size_floor(),
    {
        self.min_size
    }

    pub fn max_depth(&self) -> (cap: Option<usize>)
        ensures
            cap == self.depth_cap(),
    {
        self.max_depth
    }

    /// The scan root for a caller that names none: `default_scan_path` of the home directory
    /// that the environment gives at the time of the call.
    pub fn get_default_scan_path() -> (root: String) {
        default_scan_path(home_directory())
    }

    /// The first phase: groups the files of a walk that are large enough by their size.
    pub fn group_by_size(&self, entries: &Vec<FileEntry>) -> (groups: Vec<Vec<FileEntry>>)
        ensures
            contents(groups@) == self.size_groups(entries@),
    {
        let ghost keep = self.considered();
        let mut kept: Vec<FileEntry> = Vec::new();
        let mut i: usize = 0;
        proof {
            reveal(Seq::filter);
            assert(entries@.take(0) =~= Seq::<FileEntry>::empty());
        }
        while i < entries.len()
            invariant
                i <= entries@.len(),
                keep == self.considered(),
                kept@ == entries@.take(i as int).filter(keep),
            decreases entries@.len() - i,
        {
            let entry = &entries[i];
            proof {
                let front = entries@.take(i as int);
                assert(entries@.take(i as int + 1) =~= front.push(*entry));
                front.lemma_filter_push(*entry, keep);
            }
            if entry.is_file && is_within_depth(entry.depth, self.max_depth) && entry.size
                >= self.min_size {
                kept.push(entry.clone());
            }
            i += 1;
        }
        assert(entries@.take(i as int) =~= entries@);
        group_by_key(kept)
    }

    /// The first phase of the scan of a walk: the files whose content has to be hashed. A
    /// walk whose root cannot be read gives an error and no partial result.
    pub fn select_for_hashing(&self, walk: &Walk) -> (r: Result<Vec<FileEntry>, ScanError>)
        ensures
            match r {
                Ok(files) => self.to_hash(*walk) == Ok::<Seq<FileEntry>, Seq<char>>(files@),
                Err(ScanError::Unreadable(path)) => self.to_hash(*walk) == Err::<
                    Seq<FileEntry>,
                    Seq<char>,
                >(path@),
            },
    {
        if !walk.readable {
            return Err(ScanError::Unreadable(walk.root.clone()));
        }
        Ok(self.hash_candidates(&walk.entries))
    }

    /// The files whose content has to be hashed: those that share their size with another
    /// file. A file of a size that no other file has is a duplicate of nothing and is left
    /// out before anything is read.
    pub fn hash_candidates(&self, entries: &Vec<FileEntry>) -> (files: Vec<FileEntry>)
        ensures
            files@ == self.candidates(entries@),
    {
        let groups = self.group_by_size(entries);
        let ghost sets = contents(groups@);
        let ghost multiple = is_multiple::<FileEntry>();
        let mut files: Vec<FileEntry> = Vec::new();
        let mut g: usize = 0;
        proof {
            reveal(Seq::filter);
            assert(sets.take(0) =~= Seq::<Seq<FileEntry>>::empty());
            assert(sets.take(0).filter(multiple).flatten() =~= Seq::<FileEntry>::empty());
        }
        while g < groups.len()
            invariant
                g <= groups@.len(),
                sets == contents(groups@),
                multiple == is_multiple::<FileEntry>(),
                files@ == sets.take(g as int).filter(multiple).flatten(),
            decreases groups@.len() - g,
        {
            let group = &groups[g];
            proof {
                let front = sets.take(g as int);
                assert(sets[g as int] == group@);
                assert(sets.take(g as int + 1) =~= front.push(group@));
                front.lemma_filter_push(group@, multiple);
                front.filter(multiple).lemma_flatten_push(group@);
            }
            if group.len() >= 2 {
                let ghost before = files@;
                let mut j: usize = 0;
                while j < group.len()
                    invariant
                        j <= group@.len(),
                        files@ == before + group@.take(j as int),
                    decreases group@.len() - j,
                {
                    files.push(group[j].clone());
                    assert(files@ =~= before + group@.take(j as int + 1));
                    j += 1;
                }
                assert(group@.take(j as int) =~= group@);
            }
            g += 1;
        }
        assert(sets.take(g as int) =~= sets);
        files
    }

    /// Builds the group of duplicates from the files of one size and digest.
    fn make_group(bucket: &Vec<HashedFile>) -> (group: DuplicateGroup)
        requires
            bucket@.len() >= 2,
            bucket@[0].size * bucket@.len() <= u64::MAX,
        ensures
            group@ == group_of(bucket@),
    {
        let mut files: Vec<DuplicateFile> = Vec::new();
        let mut j: usize = 0;
        while j < bucket.len()
            invariant
                j <= bucket@.len(),
                files@ == bucket@.take(j as int).map_values(copier()),
            decreases bucket@.len() - j,
        {
            let file = &bucket[j];
            let copy = DuplicateFile {
                path: file.path.clone(),
                size: file.size,
                modified: file.modified,
                selected: false,
            };
            assert(copy == copy_of(*file));
            files.push(copy);
            assert(files@ =~= bucket@.take(j as int + 1).map_values(copier()));
            j += 1;
        }
        assert(bucket@.take(j as int) =~= bucket@);
        let files = sort_by_rank(files);
        let size: u64 = bucket[0].size;
        let count: u64 = bucket.len() as u64;
        assert(size * count >= size) by (nonlinear_arith)
            requires
                count >= 2,
                size >= 0,
        ;
        let total: u64 = size * count;
        DuplicateGroup {
            hash: bucket[0].digest.clone(),
            files,
            total_size: total,
            wasted_size: total - size,
        }
    }

    /// The second phase: finds the groups of duplicates among the hashed files.
    pub fn scan(&self, hashed: &Vec<HashedFile>) -> (groups: Vec<DuplicateGroup>)
        requires
            total_weight(hashed@) <= u64::MAX,
        ensures
            group_views(groups@) == self.duplicates(hashed@),
    {
        let ghost keep = self.large_enough();
        let mut kept: Vec<HashedFile> = Vec::new();
        let mut i: usize = 0;
        proof {
            reveal(Seq::filter);
            assert(hashed@.take(0) =~= Seq::<HashedFile>::empty());
        }
        while i < hashed.len()
            invariant
                i <= hashed@.len(),
                keep == self.large_enough(),
                kept@ == hashed@.take(i as int).filter(keep),
            decreases hashed@.len() - i,
        {
            let file = &hashed[i];
            proof {
                let front = hashed@.take(i as int);
                assert(hashed@.take(i as int + 1) =~= front.push(*file));
                front.lemma_filter_push(*file, keep);
            }
            if file.size >= self.min_size {
                kept.push(file.clone());
            }
            i += 1;
        }
        assert(hashed@.take(i as int) =~= hashed@);
        let ghost survivors = kept@;
        let buckets = group_by_key(kept);
        let ghost sets = contents(buckets@);
        let ghost multiple = is_multiple::<HashedFile>();
        let mut groups: Vec<DuplicateGroup> = Vec::new();
        let mut b: usize = 0;
        proof {
            assert(sets.take(0) =~= Seq::<Seq<HashedFile>>::empty());
            assert(group_views(groups@) =~= sets.take(0).filter(multiple).map_values(grouper()));
            lemma_total_filter_bounded(hashed@, keep);
        }
        while b < buckets.len()
            invariant
                b <= buckets@.len(),
                sets == contents(buckets@),
                sets == grouped(survivors),
                multiple == is_multiple::<HashedFile>(),
                total_weight(survivors) <= u64::MAX,
                group_views(groups@) == sets.take(b as int).filter(multiple).map_values(
                    grouper(),
                ),
            decreases buckets@.len() - b,
        {
            let bucket = &buckets[b];
            proof {
                let front = sets.take(b as int);
                assert(sets[b as int] == bucket@);
                assert(sets.take(b as int + 1) =~= front.push(bucket@));
                front.lemma_filter_push(bucket@, multiple);
            }
            if bucket.len() >= 2 {
                proof {
                    lemma_bucket_total(survivors, b as int);
                }
                let group = DuplicateScanner::make_group(bucket);
                let ghost prior = groups@;
                groups.push(group);
                proof {
                    let chosen = sets.take(b as int).filter(multiple);
                    assert(group_views(groups@) =~= group_views(prior).push(group@));
                    assert(chosen.push(bucket@).map_values(grouper()) =~= chosen.map_values(
                        grouper(),
                    ).push(group_of(bucket@)));
                }
            }
            b += 1;
        }
        assert(sets.take(b as int) =~= sets);
        let ghost unsorted = groups@;
        let sorted = sort_by_rank(groups);
        proof {
            lemma_group_views_sorted(unsorted);
        }
        sorted
    }

    /// The bytes that deleting all but one copy of every group frees.
    pub fn calculate_total_duplicates(groups: &Vec<DuplicateGroup>) -> (total: u64)
        requires
            total_weight(groups@) <= u64::MAX,
        ensures
            total == total_weight(groups@),
    {
        sum_weights(groups)
    }
}

/// The files of one group weigh the size of one of them times their number, and no more than
/// all files together.
pub proof fn lemma_bucket_total(files: Seq<HashedFile>, g: int)
    requires
        0 <= g < grouped(files).len(),
    ensures
        grouped(files)[g][0].size * grouped(files)[g].len() == total_weight(grouped(files)[g]),
        total_weight(grouped(files)[g]) <= total_weight(files),
{
    let bucket = grouped(files)[g];
    lemma_groups_are_filled(files, g);
    assert forall|j: int| 0 <= j < bucket.len() implies (#[trigger] bucket[j]).weight()
        == bucket[0].size as nat by {
        assert(bucket[j].key() == bucket[0].key());
    }
    lemma_total_uniform(bucket, bucket[0].size as nat);
    lemma_total_filter_bounded(files, has_key::<HashedFile>(first_keys(files)[g]));
}

/// Sorting groups by wasted size and then taking their views is sorting their views.
pub proof fn lemma_group_views_sorted(groups: Seq<DuplicateGroup>)
    ensures
        group_views(sorted_by(groups, rank_of::<DuplicateGroup>())) == sorted_by(
            group_views(groups),
            waste_rank(),
        ),
{
    let f = |group: DuplicateGroup| group@;
    assert forall|x: DuplicateGroup| #[trigger] waste_rank()(f(x)) == rank_of::<DuplicateGroup>()(
        x,
    ) by {}
    lemma_sorted_map(groups, f, rank_of::<DuplicateGroup>(), waste_rank());
}

/// Whether `file` is the result entry of one of the hashed files that is large enough and has
/// the digest `hash`.
pub open spec fn stems_from(
    file: DuplicateFile,
    hashed: Seq<HashedFile>,
    hash: Seq<char>,
    size_floor: u64,
) -> bool {
    exists|i: int|
        0 <= i < hashed.len() && copy_of(#[trigger] hashed[i]) == file && hashed[i].digest@ == hash
            && hashed[i].size >= size_floor
}

/// Every group that the scan reports is a group of duplicates: it has two or more members;
/// they all have one size, and each is a hashed file with the digest of the group; the total
/// size is that size times their number, and the wasted size is the total less one member.
pub proof fn lemma_groups_hold_duplicates(scanner: DuplicateScanner, hashed: Seq<HashedFile>, g: int)
    requires
        0 <= g < scanner.duplicates(hashed).len(),
    ensures
        ({
            let group = scanner.duplicates(hashed)[g];
            &&& group.files.len() >= 2
            &&& group.total_size == group.files[0].size * group.files.len()
            &&& group.wasted_size == group.total_size - group.files[0].size
            &&& forall|j: int|
                0 <= j < group.files.len() ==> (#[trigger] group.files[j]).size
                    == group.files[0].size
            &&& forall|j: int|
                0 <= j < group.files.len() ==> stems_from(
                    #[trigger] group.files[j],
                    hashed,
                    group.hash,
                    scanner.size_floor(),
                )
        }),
{
    let kept = hashed.filter(scanner.large_enough());
    let buckets = grouped(kept);
    let chosen = buckets.filter(is_multiple::<HashedFile>());
    let made = chosen.map_values(grouper());
    let group = scanner.duplicates(hashed)[g];
    lemma_sorted_same_elements(made, waste_rank());
    assert(scanner.duplicates(hashed).contains(group));
    assert(made.contains(group));
    let m = choose|m: int| 0 <= m < made.len() && made[m] == group;
    let bucket = chosen[m];
    assert(group == group_of(bucket));
    buckets.lemma_filter_pred(is_multiple::<HashedFile>(), m);
    assert(chosen.contains(bucket));
    buckets.lemma_filter_contains_rev(is_multiple::<HashedFile>(), bucket);
    let b = choose|b: int| 0 <= b < buckets.len() && buckets[b] == bucket;
    lemma_groups_are_filled(kept, b);
    let copies = bucket.map_values(copier());
    lemma_sorted_len(copies, rank_of::<DuplicateFile>());
    lemma_sorted_same_elements(copies, rank_of::<DuplicateFile>());
    assert forall|j: int| 0 <= j < group.files.len() implies (#[trigger] group.files[j]).size
        == bucket[0].size && stems_from(
        group.files[j],
        hashed,
        group.hash,
        scanner.size_floor(),
    ) by {
        let file = group.files[j];
        assert(group.files.contains(file));
        assert(copies.contains(file));
        let n = choose|n: int| 0 <= n < copies.len() && copies[n] == file;
        let source = bucket[n];
        assert(file == copy_of(source));
        assert(source.key() == bucket[0].key());
        assert(bucket.contains(source));
        kept.lemma_filter_contains_rev(has_key::<HashedFile>(first_keys(kept)[b]), source);
        hashed.lemma_filter_contains_rev(scanner.large_enough(), source);
        let i = choose|i: int| 0 <= i < hashed.len() && hashed[i] == source;
        assert(kept.contains(source));
        let q = choose|q: int| 0 <= q < kept.len() && kept[q] == source;
        hashed.lemma_filter_pred(scanner.large_enough(), q);
        assert(copy_of(hashed[i]) == group.files[j]);
    }
    assert(group.files[0].size == bucket[0].size);
    assert(group.files.len() == bucket.len());
    assert(bucket[0].size * bucket.len() >= bucket[0].size) by (nonlinear_arith)
        requires
            bucket.len() >= 2,
            bucket[0].size >= 0,
    ;
}

/// The groups come with the most wasted bytes first, and the files of every group oldest
/// first.
pub proof fn lemma_duplicates_are_ordered(scanner: DuplicateScanner, hashed: Seq<HashedFile>)
    ensures
        forall|g: int, h: int|
            0 <= g < h < scanner.duplicates(hashed).len() ==> scanner.duplicates(
                hashed,
            )[g].wasted_size >= scanner.duplicates(hashed)[h].wasted_size,
        forall|g: int, i: int, j: int|
            0 <= g < scanner.duplicates(hashed).len() && 0 <= i < j < scanner.duplicates(
                hashed,
            )[g].files.len() ==> scanner.duplicates(hashed)[g].files[i].modified.value()
                <= scanner.duplicates(hashed)[g].files[j].modified.value(),
{
    let chosen = scanner.buckets(hashed).filter(is_multiple::<HashedFile>());
    let made = chosen.map_values(grouper());
    let out = scanner.duplicates(hashed);
    lemma_sorted_descending(made, waste_rank());
    lemma_sorted_same_elements(made, waste_rank());
    assert forall|g: int, i: int, j: int|
        0 <= g < out.len() && 0 <= i < j < out[g].files.len() implies out[g].files[i].modified.value()
        <= out[g].files[j].modified.value() by {
        let group = out[g];
        assert(out.contains(group));
        assert(made.contains(group));
        let m = choose|m: int| 0 <= m < made.len() && made[m] == group;
        lemma_sorted_descending(chosen[m].map_values(copier()), rank_of::<DuplicateFile>());
    }
}

/// No file with a twin in size escapes the hashing: two files of the walk that the scan
/// considers and that have one size are both among the candidates.
pub proof fn lemma_twins_are_hashed(
    scanner: DuplicateScanner,
    entries: Seq<FileEntry>,
    i: int,
    j: int,
)
    requires
        0 <= i < j < entries.len(),
        scanner.considers(entries[i]),
        scanner.considers(entries[j]),
        entries[i].size == entries[j].size,
    ensures
        scanner.candidates(entries).contains(entries[i]),
        scanner.candidates(entries).contains(entries[j]),
{
    let kept = entries.filter(scanner.considered());
    let at = lemma_filter_keeps_both(entries, scanner.considered(), i, j);
    let g = lemma_same_key_same_group(kept, at.0, at.1);
    let groups = scanner.size_groups(entries);
    let group = groups[g];
    groups.lemma_filter_contains(is_multiple::<FileEntry>(), g);
    let chosen = groups.filter(is_multiple::<FileEntry>());
    let m = choose|m: int| 0 <= m < chosen.len() && chosen[m] == group;
    lemma_flatten_holds(chosen, m, entries[i]);
    lemma_flatten_holds(chosen, m, entries[j]);
}

/// No duplicate is missed: two hashed files that are large enough and have one size and one
/// digest lie together in a group that the scan reports, under that digest.
pub proof fn lemma_duplicates_are_found(
    scanner: DuplicateScanner,
    hashed: Seq<HashedFile>,
    i: int,
    j: int,
) -> (g: int)
    requires
        0 <= i < j < hashed.len(),
        hashed[i].size >= scanner.size_floor(),
        hashed[i].size == hashed[j].size,
        hashed[i].digest@ == hashed[j].digest@,
    ensures
        0 <= g < scanner.duplicates(hashed).len(),
        scanner.duplicates(hashed)[g].hash == hashed[i].digest@,
        scanner.duplicates(hashed)[g].files.contains(copy_of(hashed[i])),
        scanner.duplicates(hashed)[g].files.contains(copy_of(hashed[j])),
{
    let kept = hashed.filter(scanner.large_enough());
    let at = lemma_filter_keeps_both(hashed, scanner.large_enough(), i, j);
    let b = lemma_same_key_same_group(kept, at.0, at.1);
    let buckets = scanner.buckets(hashed);
    let bucket = buckets[b];
    lemma_groups_are_filled(kept, b);
    assert(bucket[0].key() == hashed[i].key());
    buckets.lemma_filter_contains(is_multiple::<HashedFile>(), b);
    let chosen = buckets.filter(is_multiple::<HashedFile>());
    let m = choose|m: int| 0 <= m < chosen.len() && chosen[m] == bucket;
    let made = chosen.map_values(grouper());
    assert(made[m] == group_of(bucket));
    assert(made.contains(group_of(bucket)));
    lemma_sorted_same_elements(made, waste_rank());
    let out = scanner.duplicates(hashed);
    assert(out.contains(group_of(bucket)));
    let g = choose|g: int| 0 <= g < out.len() && out[g] == group_of(bucket);
    let copies = bucket.map_values(copier());
    lemma_sorted_same_elements(copies, rank_of::<DuplicateFile>());
    let p = choose|p: int| 0 <= p < bucket.len() && bucket[p] == hashed[i];
    let q = choose|q: int| 0 <= q < bucket.len() && bucket[q] == hashed[j];
    assert(copies[p] == copy_of(hashed[i]));
    assert(copies[q] == copy_of(hashed[j]));
    assert(copies.contains(copy_of(hashed[i])));
    assert(copies.contains(copy_of(hashed[j])));
    g
}

} // verus!
