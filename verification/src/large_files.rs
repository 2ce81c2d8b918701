//! The scan for large and old files.
//!
//! The caller walks the directory tree and hands over what it found; the scanner keeps the
//! files that meet the size and age thresholds and orders them, largest first.

use crate::models::{
    is_within_depth, lemma_days_before_has_age, within_depth, FileEntry, LargeFileItem, ScanError,
    Timestamp, Walk,
};
use crate::ordering::{
    lemma_sorted_descending, lemma_sorted_len, lemma_sorted_same_elements, rank_of,
    sort_by_rank, sorted_by,
};
use crate::paths::{default_scan_path, home_directory};
use crate::sums::{sum_weights, total_weight};
use vstd::prelude::*;

verus! {

/// One mebibyte.
pub const MIB: u64 = 1_048_576;

/// One gibibyte.
pub const GIB: u64 = 1_073_741_824;

/// The thresholds of the scan.
#[derive(Debug, Clone, Copy)]
pub struct LargeFileScanner {
    min_size: u64,
    min_age_days: u64,
    max_depth: Option<usize>,
}

/// The result entry for a file found by the walk, as of the time `now`.
pub open spec fn large_item(entry: FileEntry, now: Timestamp) -> LargeFileItem {
    LargeFileItem {
        path: entry.path,
        size: entry.size,
        modified: entry.modified,
        accessed: entry.accessed,
        age_days: entry.modified.days_until(now) as u64,
        selected: false,
    }
}

/// `large_item` as a function of the entry.
pub open spec fn large_item_at(now: Timestamp) -> spec_fn(FileEntry) -> LargeFileItem {
    |entry: FileEntry| large_item(entry, now)
}

impl LargeFileScanner {
    /// The least size of a reported file, in bytes.
    pub closed spec fn size_floor(self) -> u64 {
        self.min_size
    }

    /// The least age of a reported file, in days; 0 switches the age threshold off.
    pub closed spec fn age_floor(self) -> u64 {
        self.min_age_days
    }

    /// The depth at which the walk is cut off, if it is.
    pub closed spec fn depth_cap(self) -> Option<usize> {
        self.max_depth
    }

    /// Whether the scan reports the entry: a file within the depth cap that is large enough
    /// and, where an age threshold is set, was modified at or before the instant that lies
    /// that many days before `now`.
    pub open spec fn keeps(self, entry: FileEntry, now: Timestamp) -> bool {
        &&& entry.is_file
        &&& within_depth(entry.depth, self.depth_cap())
        &&& entry.size >= self.size_floor()
        &&& (self.age_floor() > 0 ==> entry.modified.lies_days_before(self.age_floor(), now))
    }

    /// `keeps` as a predicate on entries.
    pub open spec fn keeper(self, now: Timestamp) -> spec_fn(FileEntry) -> bool {
        |entry: FileEntry| self.keeps(entry, now)
    }

    /// What the scan reports for the entries of a walk at the time `now`: the entries it
    /// keeps, as result entries, by descending size; files of one size stay in walk order.
    pub open spec fn found(self, entries: Seq<FileEntry>, now: Timestamp) -> Seq<LargeFileItem> {
        sorted_by(
            entries.filter(self.keeper(now)).map_values(large_item_at(now)),
            rank_of::<LargeFileItem>(),
        )
    }

    /// What a scan returns for a walk at the time `now`: what it reports for the entries, or
    /// the error for a root that cannot be read.
    pub open spec fn scanned(self, walk: Walk, now: Timestamp) -> Result<
        Seq<LargeFileItem>,
        Seq<char>,
    > {
        if walk.readable {
            Ok(self.found(walk.entries@, now))
        } else {
            Err(walk.root@)
        }
    }

    /// A scanner for files of at least 100 MiB of any age, at any depth.
    pub fn new() -> (s: LargeFileScanner)
        ensures
            s.size_floor() == 100 * MIB,
            s.age_floor() == 0,
            s.depth_cap() is None,
    {
        LargeFileScanner { min_size: 100 * MIB, min_age_days: 0, max_depth: None }
    }

    pub fn with_min_size(self, min_size: u64) -> (s: LargeFileScanner)
        ensures
            s.size_floor() == min_size,
            s.age_floor() == self.age_floor(),
            s.depth_cap() == self.depth_cap(),
    {
        LargeFileScanner {
            min_size,
            min_age_days: self.min_age_days,
            max_depth: self.max_depth,
        }
    }

    pub fn with_min_age_days(self, days: u64) -> (s: LargeFileScanner)
        ensures
            s.size_floor() == self.size_floor(),
            s.age_floor() == days,
            s.depth_cap() == self.depth_cap(),
    {
        LargeFileScanner { min_size: self.min_size, min_age_days: days, max_depth: self.max_depth }
    }

    pub fn with_max_depth(self, max_depth: usize) -> (s: LargeFileScanner)
        ensures
            s.size_floor() == self.size_floor(),
            s.age_floor() == self.age_floor(),
            s.depth_cap() == Some(max_depth),
    {
        LargeFileScanner {
            min_size: self.min_size,
            min_age_days: self.min_age_days,
            max_depth: Some(max_depth),
        }
    }

    pub fn min_size(&self) -> (bytes: u64)
        ensures
            bytes == self.size_floor(),
    {
        self.min_size
    }

    pub fn min_age_days(&self) -> (days: u64)
        ensures
            days == self.age_floor(),
    {
        self.min_age_days
    }

    pub fn max_depth(&self) -> (cap: Option<usize>)
        ensures
            cap == self.depth_cap(),
    {
        self.max_depth
    }

    /// The scan root for a caller that names none: `default_scan_path` of the home directory
    /// that the environment gives at the time of the call.
    pub fn get_default_scan_path() -> (root: String) {
        default_scan_path(home_directory())
    }

    /// Whether the scan reports the entry.
    pub fn accepts(&self, entry: &FileEntry, now: &Timestamp) -> (kept: bool)
        ensures
            kept == self.keeps(*entry, *now),
    {
        if !entry.is_file {
            return false;
        }
        if !is_within_depth(entry.depth, self.max_depth) || entry.size < self.min_size {
            return false;
        }
        if self.min_age_days > 0 {
            entry.modified.at_least_days_before(self.min_age_days, now)
        } else {
            true
        }
    }

    /// Reports the large and old files that a walk found, as of the time `now`. A walk whose
    /// root cannot be read gives an error and no partial result.
    pub fn scan(&self, walk: &Walk, now: &Timestamp) -> (r: Result<Vec<LargeFileItem>, ScanError>)
        ensures
            match r {
                Ok(items) => self.scanned(*walk, *now) == Ok::<Seq<LargeFileItem>, Seq<char>>(
                    items@,
                ),
                Err(ScanError::Unreadable(path)) => self.scanned(*walk, *now) == Err::<
                    Seq<LargeFileItem>,
                    Seq<char>,
                >(path@),
            },
    {
        if !walk.readable {
            return Err(ScanError::Unreadable(walk.root.clone()));
        }
        Ok(self.scan_entries(&walk.entries, now))
    }

    /// Reports the large and old files among the entries of a walk, as of the time `now`.
    pub fn scan_entries(&self, entries: &Vec<FileEntry>, now: &Timestamp) -> (items: Vec<
        LargeFileItem,
    >)
        ensures
            items@ == self.found(entries@, *now),
    {
        let ghost keep = self.keeper(*now);
        let ghost make = large_item_at(*now);
        let mut items: Vec<LargeFileItem> = Vec::new();
        let mut i: usize = 0;
        assert(entries@.take(0).filter(keep) =~= Seq::<FileEntry>::empty()) by {
            reveal(Seq::filter);
        }
        while i < entries.len()
            invariant
                i <= entries@.len(),
                keep == self.keeper(*now),
                make == large_item_at(*now),
                items@ == entries@.take(i as int).filter(keep).map_values(make),
            decreases entries@.len() - i,
        {
            let entry = &entries[i];
            proof {
                let front = entries@.take(i as int);
                assert(entries@.take(i as int + 1) =~= front.push(*entry));
                front.lemma_filter_push(*entry, keep);
            }
            if self.accepts(entry, now) {
                let item = LargeFileItem {
                    path: entry.path.clone(),
                    size: entry.size,
                    modified: entry.modified,
                    accessed: entry.accessed,
                    age_days: entry.modified.age_days(now),
                    selected: false,
                };
                assert(item == large_item(*entry, *now));
                let ghost prior = items@;
                items.push(item);
                assert(items@ =~= entries@.take(i as int + 1).filter(keep).map_values(make)) by {
                    let kept = entries@.take(i as int).filter(keep);
                    assert(kept.push(*entry).map_values(make) =~= kept.map_values(make).push(
                        item,
                    ));
                }
            }
            i += 1;
        }
        assert(entries@.take(i as int) =~= entries@);
        sort_by_rank(items)
    }

    /// The total size of the items.
    pub fn calculate_total_size(items: &Vec<LargeFileItem>) -> (total: u64)
        requires
            total_weight(items@) <= u64::MAX,
        ensures
            total == total_weight(items@),
    {
        sum_weights(items)
    }
}

/// The size bands in which the results are shown.
#[derive(Debug, Clone, Copy, PartialEq, Eq, Structural)]
pub enum SizeBand {
    /// 1 GiB and more.
    Huge,
    /// 500 MiB up to 1 GiB.
    VeryLarge,
    /// 100 MiB up to 500 MiB.
    Large,
    /// Less than 100 MiB.
    Medium,
}

/// The band of a size.
pub open spec fn band_of(size: u64) -> SizeBand {
    if size >= GIB {
        SizeBand::Huge
    } else if size >= 500 * MIB {
        SizeBand::VeryLarge
    } else if size >= 100 * MIB {
        SizeBand::Large
    } else {
        SizeBand::Medium
    }
}

/// The predicate "lies in the band".
pub open spec fn in_band(band: SizeBand) -> spec_fn(LargeFileItem) -> bool {
    |item: LargeFileItem| band_of(item.size) == band
}

/// The band of a size.
pub fn size_band(size: u64) -> (band: SizeBand)
    ensures
        band == band_of(size),
{
    if size >= GIB {
        SizeBand::Huge
    } else if size >= 500 * MIB {
        SizeBand::VeryLarge
    } else if size >= 100 * MIB {
        SizeBand::Large
    } else {
        SizeBand::Medium
    }
}

/// The results of a scan, one list for each size band.
#[derive(Debug, Clone)]
pub struct SizeCategories {
    pub huge: Vec<LargeFileItem>,
    pub very_large: Vec<LargeFileItem>,
    pub large: Vec<LargeFileItem>,
    pub medium: Vec<LargeFileItem>,
}

impl SizeCategories {
    /// The number of items in all four bands.
    pub open spec fn count(self) -> nat {
        self.huge@.len() + self.very_large@.len() + self.large@.len() + self.medium@.len()
    }

    /// The size of the items in all four bands.
    pub open spec fn size(self) -> nat {
        total_weight(self.huge@) + total_weight(self.very_large@) + total_weight(self.large@)
            + total_weight(self.medium@)
    }

    /// Whether the four lists are the items of `items` in each band, in the order of `items`.
    pub open spec fn is_partition_of(self, items: Seq<LargeFileItem>) -> bool {
        &&& self.huge@ == items.filter(in_band(SizeBand::Huge))
        &&& self.very_large@ == items.filter(in_band(SizeBand::VeryLarge))
        &&& self.large@ == items.filter(in_band(SizeBand::Large))
        &&& self.medium@ == items.filter(in_band(SizeBand::Medium))
    }

    pub fn total_count(&self) -> (n: usize)
        requires
            self.count() <= usize::MAX,
        ensures
            n == self.count(),
    {
        self.huge.len() + self.very_large.len() + self.large.len() + self.medium.len()
    }

    pub fn total_size(&self) -> (total: u64)
        requires
            self.size() <= u64::MAX,
        ensures
            total == self.size(),
    {
        LargeFileScanner::calculate_total_size(&self.huge)
            + LargeFileScanner::calculate_total_size(&self.very_large)
            + LargeFileScanner::calculate_total_size(&self.large)
            + LargeFileScanner::calculate_total_size(&self.medium)
    }
}

impl LargeFileScanner {
    /// Sorts the items into the four size bands, keeping their order within each band.
    pub fn group_by_size_category(items: &Vec<LargeFileItem>) -> (bands: SizeCategories)
        ensures
            bands.is_partition_of(items@),
    {
        let mut bands = SizeCategories {
            huge: Vec::new(),
            very_large: Vec::new(),
            large: Vec::new(),
            medium: Vec::new(),
        };
        let mut i: usize = 0;
        proof {
            reveal(Seq::filter);
            assert(items@.take(0) =~= Seq::<LargeFileItem>::empty());
        }
        while i < items.len()
            invariant
                i <= items@.len(),
                bands.is_partition_of(items@.take(i as int)),
            decreases items@.len() - i,
        {
            let item = items[i].clone();
            proof {
                let front = items@.take(i as int);
                assert(items@.take(i as int + 1) =~= front.push(item));
                front.lemma_filter_push(item, in_band(SizeBand::Huge));
                front.lemma_filter_push(item, in_band(SizeBand::VeryLarge));
                front.lemma_filter_push(item, in_band(SizeBand::Large));
                front.lemma_filter_push(item, in_band(SizeBand::Medium));
            }
            match size_band(item.size) {
                SizeBand::Huge => bands.huge.push(item),
                SizeBand::VeryLarge => bands.very_large.push(item),
                SizeBand::Large => bands.large.push(item),
                SizeBand::Medium => bands.medium.push(item),
            }
            i += 1;
        }
        assert(items@.take(i as int) =~= items@);
        bands
    }
}

/// The bands part the items: every item lies in exactly one band, so the four lists hold as
/// many items as there are, with the same total size.
pub proof fn lemma_bands_part_the_items(bands: SizeCategories, items: Seq<LargeFileItem>)
    requires
        bands.is_partition_of(items),
    ensures
        bands.count() == items.len(),
        bands.size() == total_weight(items),
{
    lemma_band_totals(items);
}

/// The sizes and the counts of the four bands of a list add up to those of the list.
pub proof fn lemma_band_totals(items: Seq<LargeFileItem>)
    ensures
        items.filter(in_band(SizeBand::Huge)).len() + items.filter(
            in_band(SizeBand::VeryLarge),
        ).len() + items.filter(in_band(SizeBand::Large)).len() + items.filter(
            in_band(SizeBand::Medium),
        ).len() == items.len(),
        total_weight(items.filter(in_band(SizeBand::Huge))) + total_weight(
            items.filter(in_band(SizeBand::VeryLarge)),
        ) + total_weight(items.filter(in_band(SizeBand::Large))) + total_weight(
            items.filter(in_band(SizeBand::Medium)),
        ) == total_weight(items),
    decreases items.len(),
{
    reveal(Seq::filter);
    if items.len() > 0 {
        let front = items.drop_last();
        let last = items.last();
        lemma_band_totals(front);
        assert(front.push(last) =~= items);
        front.lemma_filter_push(last, in_band(SizeBand::Huge));
        front.lemma_filter_push(last, in_band(SizeBand::VeryLarge));
        front.lemma_filter_push(last, in_band(SizeBand::Large));
        front.lemma_filter_push(last, in_band(SizeBand::Medium));
        let band = band_of(last.size);
        let grown = front.filter(in_band(band)).push(last);
        assert(grown.drop_last() =~= front.filter(in_band(band)));
    }
}

/// Every reported file meets the thresholds: it has at least the minimum size and, where an
/// age threshold is set, at least that age in days.
pub proof fn lemma_found_meets_thresholds(
    scanner: LargeFileScanner,
    entries: Seq<FileEntry>,
    now: Timestamp,
)
    ensures
        forall|k: int|
            0 <= k < scanner.found(entries, now).len() ==> {
                let item = #[trigger] scanner.found(entries, now)[k];
                &&& item.size >= scanner.size_floor()
                &&& (scanner.age_floor() > 0 ==> item.age_days >= scanner.age_floor())
            },
{
    let kept = entries.filter(scanner.keeper(now));
    let made = kept.map_values(large_item_at(now));
    let out = scanner.found(entries, now);
    lemma_sorted_same_elements(made, rank_of::<LargeFileItem>());
    assert forall|k: int| 0 <= k < out.len() implies {
        let item = #[trigger] out[k];
        &&& item.size >= scanner.size_floor()
        &&& (scanner.age_floor() > 0 ==> item.age_days >= scanner.age_floor())
    } by {
        let item = out[k];
        assert(out.contains(item));
        assert(made.contains(item));
        let j = choose|j: int| 0 <= j < made.len() && made[j] == item;
        let entry = kept[j];
        entries.lemma_filter_pred(scanner.keeper(now), j);
        assert(scanner.keeps(entry, now));
        assert(item == large_item(entry, now));
        if scanner.age_floor() > 0 {
            lemma_days_before_has_age(entry.modified, scanner.age_floor(), now);
            lemma_age_fits(entry.modified, now);
        }
    }
}

/// Whether `item` is the result entry of an entry of the walk that the scan keeps.
pub open spec fn is_kept_entry(
    scanner: LargeFileScanner,
    entries: Seq<FileEntry>,
    now: Timestamp,
    item: LargeFileItem,
) -> bool {
    exists|i: int|
        0 <= i < entries.len() && scanner.keeps(#[trigger] entries[i], now) && large_item(
            entries[i],
            now,
        ) == item
}

/// The scan reports exactly the entries that it keeps, each once: the files within the depth
/// cap that have at least the least size and were modified at or before the cutoff, the
/// instant of the cutoff included.
pub proof fn lemma_found_is_what_is_kept(
    scanner: LargeFileScanner,
    entries: Seq<FileEntry>,
    now: Timestamp,
)
    ensures
        scanner.found(entries, now).len() == entries.filter(scanner.keeper(now)).len(),
        forall|item: LargeFileItem|
            scanner.found(entries, now).contains(item) <==> is_kept_entry(
                scanner,
                entries,
                now,
                item,
            ),
        forall|entry: FileEntry|
            entry.modified.value() + scanner.age_floor() * 86_400 * 1_000_000_000 == now.value()
                ==> entry.modified.lies_days_before(scanner.age_floor(), now),
{
    let kept = entries.filter(scanner.keeper(now));
    let made = kept.map_values(large_item_at(now));
    lemma_sorted_same_elements(made, rank_of::<LargeFileItem>());
    lemma_sorted_len(made, rank_of::<LargeFileItem>());
    assert forall|item: LargeFileItem| scanner.found(entries, now).contains(item) implies is_kept_entry(
        scanner,
        entries,
        now,
        item,
    ) by {
        assert(made.contains(item));
        let j = choose|j: int| 0 <= j < made.len() && made[j] == item;
        let entry = kept[j];
        entries.lemma_filter_pred(scanner.keeper(now), j);
        assert(kept.contains(entry));
        entries.lemma_filter_contains_rev(scanner.keeper(now), entry);
        let i = choose|i: int| 0 <= i < entries.len() && entries[i] == entry;
        assert(scanner.keeps(entries[i], now) && large_item(entries[i], now) == item);
    }
    assert forall|item: LargeFileItem| is_kept_entry(scanner, entries, now, item) implies scanner.found(
        entries,
        now,
    ).contains(item) by {
        let i = choose|i: int|
            0 <= i < entries.len() && scanner.keeps(#[trigger] entries[i], now) && large_item(
                entries[i],
                now,
            ) == item;
        entries.lemma_filter_contains(scanner.keeper(now), i);
        let j = choose|j: int| 0 <= j < kept.len() && kept[j] == entries[i];
        assert(made[j] == item);
        assert(made.contains(item));
    }
}

/// The reported files come largest first.
pub proof fn lemma_found_largest_first(
    scanner: LargeFileScanner,
    entries: Seq<FileEntry>,
    now: Timestamp,
)
    ensures
        forall|i: int, j: int|
            0 <= i < j < scanner.found(entries, now).len() ==> scanner.found(entries, now)[i].size
                >= scanner.found(entries, now)[j].size,
{
    lemma_sorted_descending(
        entries.filter(scanner.keeper(now)).map_values(large_item_at(now)),
        rank_of::<LargeFileItem>(),
    );
}

/// An age in days fits into 64 bits.
pub proof fn lemma_age_fits(then: Timestamp, now: Timestamp)
    ensures
        0 <= then.days_until(now) <= u64::MAX,
{
}

/// Lowering a threshold loses nothing: a scanner whose thresholds are no higher reports
/// every file that the stricter scanner reports.
pub proof fn lemma_relaxing_keeps_more(
    strict: LargeFileScanner,
    loose: LargeFileScanner,
    entries: Seq<FileEntry>,
    now: Timestamp,
)
    requires
        loose.size_floor() <= strict.size_floor(),
        loose.age_floor() <= strict.age_floor(),
        loose.depth_cap() == strict.depth_cap(),
    ensures
        forall|entry: FileEntry| strict.keeps(entry, now) ==> loose.keeps(entry, now),
        forall|item: LargeFileItem|
            strict.found(entries, now).contains(item) ==> loose.found(entries, now).contains(item),
{
    assert forall|entry: FileEntry| strict.keeps(entry, now) implies loose.keeps(entry, now) by {
        if loose.age_floor() > 0 {
            assert(loose.age_floor() * 86_400 * 1_000_000_000 <= strict.age_floor() * 86_400
                * 1_000_000_000);
        }
    }
    let strict_kept = entries.filter(strict.keeper(now));
    let loose_kept = entries.filter(loose.keeper(now));
    let strict_made = strict_kept.map_values(large_item_at(now));
    let loose_made = loose_kept.map_values(large_item_at(now));
    lemma_sorted_same_elements(strict_made, rank_of::<LargeFileItem>());
    lemma_sorted_same_elements(loose_made, rank_of::<LargeFileItem>());
    assert forall|item: LargeFileItem| strict.found(entries, now).contains(item) implies loose.found(
        entries,
        now,
    ).contains(item) by {
        assert(strict_made.contains(item));
        let j = choose|j: int| 0 <= j < strict_made.len() && strict_made[j] == item;
        let entry = strict_kept[j];
        entries.lemma_filter_pred(strict.keeper(now), j);
        assert(strict_kept.contains(entry));
        entries.lemma_filter_contains_rev(strict.keeper(now), entry);
        let n = choose|n: int| 0 <= n < entries.len() && entries[n] == entry;
        assert(loose.keeper(now)(entry));
        entries.lemma_filter_contains(loose.keeper(now), n);
        assert(loose_kept.contains(entry));
        let m = choose|m: int| 0 <= m < loose_kept.len() && loose_kept[m] == entry;
        assert(loose_made[m] == item);
        assert(loose_made.contains(item));
        assert(sorted_by(loose_made, rank_of::<LargeFileItem>()).contains(item));
    }
}

} // verus!
