//! The scan for reclaimable data by category.
//!
//! Each category has a set of directories (see `platform`). The caller walks the directories
//! that the scanner names and hands the walks over; the scanner adds the sizes of the files up
//! by the directory they lie in, reports the directories that hold more than a threshold, and
//! joins what the categories hold in their order. Where no category holds anything, the
//! common user directories and the home directory are reported instead.

use crate::models::{CleanableItem, CleanupCategory, FileEntry, Timestamp, Walk};
use crate::paths::{parent_in, parent_of};
use crate::platform::{
    category_paths, category_roots, fallback_dirs, fallback_paths, text_of, texts, Platform,
};
use crate::sums::{lemma_total_filter_bounded, lemma_total_prefix_bounded, total_weight};
use vstd::prelude::*;

verus! {

/// How many levels below a root its walk goes.
pub const MAX_WALK_DEPTH: usize = 5;

/// A directory is reported if the files in it hold more than this many bytes.
pub const MIN_DIRECTORY_SIZE: u64 = 102_400;

/// A `CleanableItem` with its path as a sequence of characters.
pub struct ItemView {
    pub path: Seq<char>,
    pub size: u64,
    pub category: CleanupCategory,
    pub modified: Timestamp,
    pub selected: bool,
}

impl View for CleanableItem {
    type V = ItemView;

    open spec fn view(&self) -> ItemView {
        ItemView {
            path: self.path@,
            size: self.size,
            category: self.category,
            modified: self.modified,
            selected: self.selected,
        }
    }
}

/// The views of a list of items.
pub open spec fn item_views(items: Seq<CleanableItem>) -> Seq<ItemView> {
    items.map_values(|item: CleanableItem| item@)
}

/// The directory that an entry counts for: the parent of a file within the depth of the walk.
pub open spec fn counted_in(entry: FileEntry) -> Option<Seq<char>> {
    if entry.is_file && entry.depth <= MAX_WALK_DEPTH {
        parent_in(entry.path@)
    } else {
        None
    }
}

/// The predicate "counts for the directory `dir`".
pub open spec fn lies_in(dir: Seq<char>) -> spec_fn(FileEntry) -> bool {
    |entry: FileEntry| counted_in(entry) == Some(dir)
}

/// The directories that the entries count for, each once, in the order of their first
/// appearance.
pub open spec fn directories(entries: Seq<FileEntry>) -> Seq<Seq<char>>
    decreases entries.len(),
{
    if entries.len() == 0 {
        Seq::empty()
    } else {
        let before = directories(entries.drop_last());
        match counted_in(entries.last()) {
            Some(dir) => if before.contains(dir) {
                before
            } else {
                before.push(dir)
            },
            None => before,
        }
    }
}

/// The size of the files that lie directly in `dir`.
pub open spec fn directory_size(entries: Seq<FileEntry>, dir: Seq<char>) -> nat {
    total_weight(entries.filter(lies_in(dir)))
}

/// The first entry of the walk that has the path `path`.
pub open spec fn reported(entries: Seq<FileEntry>, path: Seq<char>) -> Option<FileEntry>
    decreases entries.len(),
{
    if entries.len() == 0 {
        None
    } else if entries[0].path@ == path {
        Some(entries[0])
    } else {
        reported(entries.drop_first(), path)
    }
}

/// The item for the directory `dir`, if it is reported: it holds more than the threshold, and
/// the walk has an entry for the directory itself, from which its modification time is taken.
pub open spec fn item_for(entries: Seq<FileEntry>, dir: Seq<char>, category: CleanupCategory) -> Option<
    ItemView,
> {
    if directory_size(entries, dir) > MIN_DIRECTORY_SIZE {
        match reported(entries, dir) {
            Some(entry) => Some(
                ItemView {
                    path: dir,
                    size: directory_size(entries, dir) as u64,
                    category,
                    modified: entry.modified,
                    selected: false,
                },
            ),
            None => None,
        }
    } else {
        None
    }
}

/// The items for the first `k` of the directories `dirs`.
pub open spec fn items_for(
    entries: Seq<FileEntry>,
    dirs: Seq<Seq<char>>,
    category: CleanupCategory,
    k: nat,
) -> Seq<ItemView>
    decreases k,
{
    if k == 0 || k > dirs.len() {
        Seq::empty()
    } else {
        let before = items_for(entries, dirs, category, (k - 1) as nat);
        match item_for(entries, dirs[k - 1], category) {
            Some(item) => before.push(item),
            None => before,
        }
    }
}

/// What the scan of one walk reports: an item for every directory that holds more than the
/// threshold, in the order in which the walk first meets a file of the directory.
pub open spec fn found_in(entries: Seq<FileEntry>, category: CleanupCategory) -> Seq<ItemView> {
    items_for(entries, directories(entries), category, directories(entries).len())
}

/// What the scan of one walk reports; nothing, where the root of the walk does not exist or
/// cannot be read.
pub open spec fn found_by(walk: Walk, category: CleanupCategory) -> Seq<ItemView> {
    if walk.readable {
        found_in(walk.entries@, category)
    } else {
        Seq::empty()
    }
}

/// The first of the walks that started at the directory `root`.
pub open spec fn walk_of(walks: Seq<Walk>, root: Seq<char>) -> Option<Walk>
    decreases walks.len(),
{
    if walks.len() == 0 {
        None
    } else if walks[0].root@ == root {
        Some(walks[0])
    } else {
        walk_of(walks.drop_first(), root)
    }
}

/// What the scan of the directory `root` reports: what its walk holds; nothing, where no walk
/// of it was made or its root cannot be read.
pub open spec fn found_at(walks: Seq<Walk>, root: Seq<char>, category: CleanupCategory) -> Seq<
    ItemView,
> {
    match walk_of(walks, root) {
        Some(walk) => found_by(walk, category),
        None => Seq::empty(),
    }
}

/// What the scans of the first `k` of the directories `roots` report, one after the other.
pub open spec fn found_under(
    walks: Seq<Walk>,
    roots: Seq<Seq<char>>,
    category: CleanupCategory,
    k: nat,
) -> Seq<ItemView>
    decreases k,
{
    if k == 0 || k > roots.len() {
        Seq::empty()
    } else {
        found_under(walks, roots, category, (k - 1) as nat) + found_at(
            walks,
            roots[k - 1],
            category,
        )
    }
}

/// What the scan of a category reports: what the scans of its directories report, in the
/// order of the platform's table.
pub open spec fn found_in_category(
    walks: Seq<Walk>,
    platform: Platform,
    home: Option<Seq<char>>,
    category: CleanupCategory,
) -> Seq<ItemView> {
    let roots = category_roots(platform, category, home);
    found_under(walks, roots, category, roots.len())
}

/// What the scans of the first `k` categories report, joined in the order of
/// `CleanupCategory::every`.
pub open spec fn found_in_categories(
    walks: Seq<Walk>,
    platform: Platform,
    home: Option<Seq<char>>,
    k: nat,
) -> Seq<ItemView>
    decreases k,
{
    if k == 0 || k > CleanupCategory::every().len() {
        Seq::empty()
    } else {
        found_in_categories(walks, platform, home, (k - 1) as nat) + found_in_category(
            walks,
            platform,
            home,
            CleanupCategory::every()[k - 1],
        )
    }
}

/// What the scan of the common user directories reports, filed as user caches.
pub open spec fn found_in_fallback(walks: Seq<Walk>, home: Option<Seq<char>>) -> Seq<ItemView> {
    let roots = fallback_dirs(home);
    found_under(walks, roots, CleanupCategory::UserCaches, roots.len())
}

/// What the whole scan reports: what the categories report, joined in their order; where
/// they report nothing, what the common user directories hold.
pub open spec fn found_everywhere(
    walks: Seq<Walk>,
    platform: Platform,
    home: Option<Seq<char>>,
) -> Seq<ItemView> {
    let primary = found_in_categories(walks, platform, home, CleanupCategory::every().len());
    if primary.len() > 0 {
        primary
    } else {
        found_in_fallback(walks, home)
    }
}

/// Whether the file sizes of every walk add up within 64 bits.
pub open spec fn walks_fit(walks: Seq<Walk>) -> bool {
    forall|i: int|
        0 <= i < walks.len() ==> total_weight((#[trigger] walks[i]).entries@) <= u64::MAX
}

/// A directory with the size of the files that were found in it so far.
struct DirectoryTotal {
    path: String,
    size: u64,
}

/// The paths of a list of totals.
spec fn total_paths(totals: Seq<DirectoryTotal>) -> Seq<Seq<char>> {
    totals.map_values(|total: DirectoryTotal| total.path@)
}

/// One more entry adds its size to the directory it counts for and to no other.
proof fn lemma_directory_size_push(entries: Seq<FileEntry>, entry: FileEntry, dir: Seq<char>)
    ensures
        directory_size(entries.push(entry), dir) == directory_size(entries, dir) + if counted_in(
            entry,
        ) == Some(dir) {
            entry.size as nat
        } else {
            0
        },
        directory_size(entries.push(entry), dir) <= total_weight(entries.push(entry)),
{
    entries.lemma_filter_push(entry, lies_in(dir));
    let inside = entries.filter(lies_in(dir));
    if counted_in(entry) == Some(dir) {
        assert(inside.push(entry).drop_last() =~= inside);
    }
    lemma_total_filter_bounded(entries.push(entry), lies_in(dir));
}

/// A directory that no entry counts for holds nothing.
proof fn lemma_unmet_directory_is_empty(entries: Seq<FileEntry>, dir: Seq<char>)
    requires
        !directories(entries).contains(dir),
    ensures
        directory_size(entries, dir) == 0,
    decreases entries.len(),
{
    reveal(Seq::filter);
    if entries.len() > 0 {
        let front = entries.drop_last();
        let before = directories(front);
        if before.contains(dir) {
            let j = choose|j: int| 0 <= j < before.len() && before[j] == dir;
            assert(directories(entries)[j] == dir);
        }
        lemma_unmet_directory_is_empty(front, dir);
        assert(front.push(entries.last()) =~= entries);
        lemma_directory_size_push(front, entries.last(), dir);
        if counted_in(entries.last()) == Some(dir) {
            if !before.contains(dir) {
                assert(directories(entries)[before.len() as int] == dir);
            }
        }
    }
}

/// The directories of a walk are distinct.
proof fn lemma_directories_distinct(entries: Seq<FileEntry>)
    ensures
        directories(entries).no_duplicates(),
    decreases entries.len(),
{
    if entries.len() > 0 {
        lemma_directories_distinct(entries.drop_last());
    }
}

/// The scanner for reclaimable data.
#[derive(Debug, Clone, Copy)]
pub struct CleanupScanner;

impl CleanupScanner {
    pub fn new() -> (s: CleanupScanner) {
        CleanupScanner
    }

    /// The directories in which a category looks on a platform.
    pub fn get_category_paths(
        platform: Platform,
        category: &CleanupCategory,
        home: &Option<String>,
    ) -> (roots: Vec<String>)
        ensures
            texts(roots@) == category_roots(platform, *category, text_of(*home)),
    {
        category_paths(platform, *category, home)
    }

    /// The index of the total for the directory `dir`, if there is one. The walk lists the
    /// files of a directory one after the other, so the total that was found last is tried
    /// first.
    fn find_total(totals: &Vec<DirectoryTotal>, dir: &String, last: usize) -> (found: Option<usize>)
        ensures
            match found {
                Some(j) => j < totals@.len() && totals@[j as int].path@ == dir@,
                None => !total_paths(totals@).contains(dir@),
            },
    {
        if last < totals.len() && totals[last].path == *dir {
            return Some(last);
        }
        let mut j: usize = 0;
        while j < totals.len()
            invariant
                j <= totals@.len(),
                forall|h: int| 0 <= h < j ==> (#[trigger] totals@[h]).path@ != dir@,
            decreases totals@.len() - j,
        {
            if totals[j].path == *dir {
                return Some(j);
            }
            j += 1;
        }
        assert(!total_paths(totals@).contains(dir@)) by {
            if total_paths(totals@).contains(dir@) {
                let h = choose|h: int|
                    0 <= h < total_paths(totals@).len() && total_paths(totals@)[h] == dir@;
                assert(totals@[h].path@ == dir@);
            }
        }
        None
    }

    /// Adds the sizes of the files up by the directory they lie in.
    fn directory_totals(entries: &Vec<FileEntry>) -> (totals: Vec<DirectoryTotal>)
        requires
            total_weight(entries@) <= u64::MAX,
        ensures
            total_paths(totals@) == directories(entries@),
            forall|j: int|
                0 <= j < totals@.len() ==> (#[trigger] totals@[j]).size == directory_size(
                    entries@,
                    totals@[j].path@,
                ),
    {
        let mut totals: Vec<DirectoryTotal> = Vec::new();
        let mut last: usize = 0;
        let mut i: usize = 0;
        proof {
            reveal(Seq::filter);
            assert(entries@.take(0) =~= Seq::<FileEntry>::empty());
            assert(total_paths(totals@) =~= directories(entries@.take(0)));
        }
        while i < entries.len()
            invariant
                i <= entries@.len(),
                total_weight(entries@) <= u64::MAX,
                total_paths(totals@) == directories(entries@.take(i as int)),
                forall|j: int|
                    0 <= j < totals@.len() ==> (#[trigger] totals@[j]).size == directory_size(
                        entries@.take(i as int),
                        totals@[j].path@,
                    ),
            decreases entries@.len() - i,
        {
            let entry = &entries[i];
            let ghost front = entries@.take(i as int);
            let ghost next = entries@.take(i as int + 1);
            let ghost prior = totals@;
            proof {
                assert(next =~= front.push(*entry));
                assert(next.drop_last() =~= front);
                lemma_total_prefix_bounded(entries@, i as int + 1);
                assert forall|j: int| 0 <= j < prior.len() implies directory_size(
                    next,
                    (#[trigger] prior[j]).path@,
                ) == directory_size(front, prior[j].path@) + if counted_in(*entry) == Some(
                    prior[j].path@,
                ) {
                    entry.size as nat
                } else {
                    0
                } && directory_size(next, prior[j].path@) <= u64::MAX by {
                    lemma_directory_size_push(front, *entry, prior[j].path@);
                }
            }
            let parent = if entry.is_file && entry.depth <= MAX_WALK_DEPTH {
                parent_of(entry.path.as_str())
            } else {
                None
            };
            match parent {
                Some(dir) => {
                    assert(counted_in(*entry) == Some(dir@));
                    match CleanupScanner::find_total(&totals, &dir, last) {
                        Some(j) => {
                            last = j;
                            proof {
                                lemma_directories_distinct(front);
                                assert(total_paths(prior)[j as int] == dir@);
                            }
                            let grown: u64 = totals[j].size + entry.size;
                            totals[j].size = grown;
                            proof {
                                assert(total_paths(totals@) =~= total_paths(prior));
                                assert(directories(front).contains(dir@));
                                assert forall|h: int| 0 <= h < totals@.len() implies (
                                #[trigger] totals@[h]).size == directory_size(
                                    next,
                                    totals@[h].path@,
                                ) by {
                                    if h != j {
                                        assert(totals@[h] == prior[h]);
                                        assert(total_paths(prior)[h] != total_paths(prior)[j as int]);
                                    }
                                }
                            }
                        },
                        None => {
                            proof {
                                lemma_unmet_directory_is_empty(front, dir@);
                                lemma_directory_size_push(front, *entry, dir@);
                            }
                            last = totals.len();
                            totals.push(DirectoryTotal { path: dir, size: entry.size });
                            proof {
                                assert(total_paths(totals@) =~= total_paths(prior).push(dir@));
                                assert forall|h: int| 0 <= h < totals@.len() implies (
                                #[trigger] totals@[h]).size == directory_size(
                                    next,
                                    totals@[h].path@,
                                ) by {
                                    if h < prior.len() {
                                        assert(totals@[h] == prior[h]);
                                        assert(total_paths(prior)[h] == prior[h].path@);
                                        assert(total_paths(prior).contains(prior[h].path@));
                                    }
                                }
                            }
                        },
                    }
                },
                None => {
                    assert(counted_in(*entry) is None);
                },
            }
            i += 1;
        }
        assert(entries@.take(i as int) =~= entries@);
        totals
    }

    /// The first entry of the walk that has the path `path`.
    fn find_entry<'a>(entries: &'a Vec<FileEntry>, path: &String) -> (found: Option<&'a FileEntry>)
        ensures
            match found {
                Some(entry) => reported(entries@, path@) == Some(*entry),
                None => reported(entries@, path@) is None,
            },
    {
        let mut i: usize = 0;
        assert(entries@.skip(0) =~= entries@);
        while i < entries.len()
            invariant
                i <= entries@.len(),
                reported(entries@, path@) == reported(entries@.skip(i as int), path@),
            decreases entries@.len() - i,
        {
            let entry = &entries[i];
            assert(entries@.skip(i as int)[0] == *entry);
            if entry.path == *path {
                return Some(entry);
            }
            assert(entries@.skip(i as int).drop_first() =~= entries@.skip(i as int + 1));
            i += 1;
        }
        None
    }

    /// Reports the directories of one walk that hold more than the threshold.
    pub fn scan_path(&self, entries: &Vec<FileEntry>, category: &CleanupCategory) -> (items: Vec<
        CleanableItem,
    >)
        requires
            total_weight(entries@) <= u64::MAX,
        ensures
            item_views(items@) == found_in(entries@, *category),
    {
        let totals = CleanupScanner::directory_totals(entries);
        let ghost dirs = directories(entries@);
        let mut items: Vec<CleanableItem> = Vec::new();
        let mut k: usize = 0;
        assert(item_views(items@) =~= items_for(entries@, dirs, *category, 0));
        while k < totals.len()
            invariant
                k <= totals@.len(),
                dirs == directories(entries@),
                total_paths(totals@) == dirs,
                forall|j: int|
                    0 <= j < totals@.len() ==> (#[trigger] totals@[j]).size == directory_size(
                        entries@,
                        totals@[j].path@,
                    ),
                item_views(items@) == items_for(entries@, dirs, *category, k as nat),
            decreases totals@.len() - k,
        {
            let total = &totals[k];
            assert(dirs[k as int] == total.path@);
            if total.size > MIN_DIRECTORY_SIZE {
                match CleanupScanner::find_entry(entries, &total.path) {
                    Some(entry) => {
                        let item = CleanableItem {
                            path: total.path.clone(),
                            size: total.size,
                            category: *category,
                            modified: entry.modified,
                            selected: false,
                        };
                        let ghost prior = items@;
                        items.push(item);
                        assert(item_views(items@) =~= item_views(prior).push(item@));
                    },
                    None => {},
                }
            }
            k += 1;
        }
        items
    }

    /// The first of the walks that started at `root`.
    fn find_walk<'a>(walks: &'a Vec<Walk>, root: &String) -> (found: Option<&'a Walk>)
        ensures
            match found {
                Some(walk) => walk_of(walks@, root@) == Some(*walk),
                None => walk_of(walks@, root@) is None,
            },
    {
        let mut i: usize = 0;
        assert(walks@.skip(0) =~= walks@);
        while i < walks.len()
            invariant
                i <= walks@.len(),
                walk_of(walks@, root@) == walk_of(walks@.skip(i as int), root@),
            decreases walks@.len() - i,
        {
            let walk = &walks[i];
            assert(walks@.skip(i as int)[0] == *walk);
            if walk.root == *root {
                return Some(walk);
            }
            assert(walks@.skip(i as int).drop_first() =~= walks@.skip(i as int + 1));
            i += 1;
        }
        None
    }

    /// A walk of the list weighs within 64 bits where all of them do.
    proof fn lemma_found_walk_fits(walks: Seq<Walk>, root: Seq<char>)
        requires
            walks_fit(walks),
        ensures
            match walk_of(walks, root) {
                Some(walk) => total_weight(walk.entries@) <= u64::MAX,
                None => true,
            },
        decreases walks.len(),
    {
        if walks.len() > 0 && walks[0].root@ != root {
            let rest = walks.drop_first();
            assert forall|i: int| 0 <= i < rest.len() implies total_weight(
                (#[trigger] rest[i]).entries@,
            ) <= u64::MAX by {
                assert(rest[i] == walks[i + 1]);
            }
            CleanupScanner::lemma_found_walk_fits(rest, root);
        }
    }

    /// Reports what the directories `roots` hold, one after the other, from the walks that
    /// the caller made of them. A directory of which there is no walk, or whose walk could
    /// not read its root, adds nothing.
    pub fn scan_roots(&self, walks: &Vec<Walk>, roots: &Vec<String>, category: CleanupCategory) -> (items:
        Vec<CleanableItem>)
        requires
            walks_fit(walks@),
        ensures
            item_views(items@) == found_under(walks@, texts(roots@), category, roots@.len()),
    {
        let ghost places = texts(roots@);
        let mut items: Vec<CleanableItem> = Vec::new();
        let mut r: usize = 0;
        assert(item_views(items@) =~= found_under(walks@, places, category, 0));
        while r < roots.len()
            invariant
                r <= roots@.len(),
                places == texts(roots@),
                walks_fit(walks@),
                item_views(items@) == found_under(walks@, places, category, r as nat),
            decreases roots@.len() - r,
        {
            let ghost prior = items@;
            assert(places[r as int] == roots@[r as int]@);
            proof {
                CleanupScanner::lemma_found_walk_fits(walks@, roots@[r as int]@);
            }
            match CleanupScanner::find_walk(walks, &roots[r]) {
                Some(walk) => {
                    if walk.readable {
                        let mut more = self.scan_path(&walk.entries, &category);
                        let ghost added = more@;
                        items.append(&mut more);
                        assert(item_views(items@) =~= item_views(prior) + item_views(added));
                    } else {
                        assert(item_views(items@) =~= item_views(prior) + Seq::<ItemView>::empty());
                    }
                },
                None => {
                    assert(item_views(items@) =~= item_views(prior) + Seq::<ItemView>::empty());
                },
            }
            r += 1;
        }
        items
    }

    /// Reports what the directories of one category hold, in the order of the platform's
    /// table.
    pub fn scan_category(
        &self,
        platform: Platform,
        category: CleanupCategory,
        home: &Option<String>,
        walks: &Vec<Walk>,
    ) -> (items: Vec<CleanableItem>)
        requires
            walks_fit(walks@),
        ensures
            item_views(items@) == found_in_category(walks@, platform, text_of(*home), category),
    {
        let roots = category_paths(platform, category, home);
        self.scan_roots(walks, &roots, category)
    }

    /// Reports what the directories of all categories hold, category after category in the
    /// order of `CleanupCategory::all`.
    pub fn scan_categories(&self, platform: Platform, home: &Option<String>, walks: &Vec<Walk>) -> (items:
        Vec<CleanableItem>)
        requires
            walks_fit(walks@),
        ensures
            item_views(items@) == found_in_categories(
                walks@,
                platform,
                text_of(*home),
                CleanupCategory::every().len(),
            ),
    {
        let categories = CleanupCategory::all();
        let mut items: Vec<CleanableItem> = Vec::new();
        let mut c: usize = 0;
        assert(item_views(items@) =~= found_in_categories(walks@, platform, text_of(*home), 0));
        while c < categories.len()
            invariant
                c <= categories@.len(),
                categories@ == CleanupCategory::every(),
                walks_fit(walks@),
                item_views(items@) == found_in_categories(
                    walks@,
                    platform,
                    text_of(*home),
                    c as nat,
                ),
            decreases categories@.len() - c,
        {
            let ghost prior = items@;
            let mut more = self.scan_category(platform, categories[c], home, walks);
            let ghost added = more@;
            items.append(&mut more);
            assert(item_views(items@) =~= item_views(prior) + item_views(added));
            c += 1;
        }
        items
    }

    /// Whether the scan of all categories found nothing, so that the common user directories
    /// are scanned instead.
    pub fn needs_fallback(items: &Vec<CleanableItem>) -> (needed: bool)
        ensures
            needed == (items@.len() == 0),
    {
        items.len() == 0
    }

    /// The whole scan, from the walks that the caller made: what the categories hold, joined
    /// in their order; where they hold nothing, what the common user directories and the home
    /// directory hold, filed as user caches.
    pub fn scan_all(&self, platform: Platform, home: &Option<String>, walks: &Vec<Walk>) -> (items:
        Vec<CleanableItem>)
        requires
            walks_fit(walks@),
        ensures
            item_views(items@) == found_everywhere(walks@, platform, text_of(*home)),
    {
        let found = self.scan_categories(platform, home, walks);
        if CleanupScanner::needs_fallback(&found) {
            let roots = fallback_paths(home);
            self.scan_roots(walks, &roots, CleanupCategory::UserCaches)
        } else {
            found
        }
    }
}

/// Every item that the scan of a walk reports stands for a directory of the walk, holds
/// more than the threshold, has the size of the files that lie directly in its directory, and
/// is filed under the category of the scan.
pub proof fn lemma_reported_directories_are_large(
    entries: Seq<FileEntry>,
    category: CleanupCategory,
    k: nat,
)
    requires
        total_weight(entries) <= u64::MAX,
    ensures
        forall|i: int|
            0 <= i < items_for(entries, directories(entries), category, k).len() ==> {
                let item = #[trigger] items_for(entries, directories(entries), category, k)[i];
                &&& item.size > MIN_DIRECTORY_SIZE
                &&& item.size == directory_size(entries, item.path)
                &&& directories(entries).contains(item.path)
                &&& item.category == category
                &&& !item.selected
            },
    decreases k,
{
    let dirs = directories(entries);
    if 0 < k <= dirs.len() {
        lemma_reported_directories_are_large(entries, category, (k - 1) as nat);
        let before = items_for(entries, dirs, category, (k - 1) as nat);
        let all = items_for(entries, dirs, category, k);
        lemma_total_filter_bounded(entries, lies_in(dirs[k - 1]));
        assert forall|i: int| 0 <= i < all.len() implies {
            let item = #[trigger] all[i];
            &&& item.size > MIN_DIRECTORY_SIZE
            &&& item.size == directory_size(entries, item.path)
            &&& dirs.contains(item.path)
            &&& item.category == category
            &&& !item.selected
        } by {
            if i < before.len() {
                assert(all[i] == before[i]);
            } else {
                assert(dirs[k - 1] == all[i].path);
                assert(dirs.contains(dirs[k - 1]));
            }
        }
    }
}

} // verus!
