//! The size tree of a directory.
//!
//! The caller reads the directory tree and hands it over as an `FsNode`; the scanner turns it
//! into a tree of `TreeMapItem`s: hidden entries left out, directories below the depth cap
//! replaced by a leaf with an approximate size, children ordered largest first.

use crate::models::{display_name, ScanError, TreeMapItem};
use crate::ordering::{
    lemma_sorted_descending, lemma_sorted_map, lemma_sorted_same_elements, rank_of,
    sort_by_rank, sorted_by,
};
use crate::paths::{
    default_scan_path, file_name_in, file_name_of, home_directory, is_hidden_name,
};
use crate::sums::{lemma_total_sorted, sum_weights, total_weight, Weighable, Weighted};
use vstd::prelude::*;

verus! {

/// The number of directory levels below the root that the scan descends into.
pub const MAX_DEPTH: usize = 3;

/// What kind of entry the file system reports.
#[derive(Debug, Clone, Copy, PartialEq, Eq, Structural)]
pub enum EntryKind {
    File,
    Directory,
    /// Neither a regular file nor a directory: a link, a device, a socket.
    Other,
}

/// An entry of the file system as the caller read it, with the entries below it.
#[derive(Debug)]
pub struct FsNode {
    pub path: String,
    pub kind: EntryKind,
    /// The size that the file system reports for the entry itself.
    pub len: u64,
    /// Whether the entry could be read: its metadata and, for a directory, its listing.
    pub readable: bool,
    /// For a directory that could be listed: its entries whose metadata could be read, in the
    /// order of the listing.
    pub entries: Vec<FsNode>,
}

impl Weighted for FsNode {
    open spec fn weight(&self) -> nat {
        self.len as nat
    }
}

impl Weighable for FsNode {
    fn weigh(&self) -> (w: u64) {
        self.len
    }
}

/// A `TreeMapItem` as a mathematical tree.
pub struct TreeView {
    pub path: Seq<char>,
    pub name: Seq<char>,
    pub size: nat,
    pub children: Seq<TreeView>,
    pub is_file: bool,
}

/// The mathematical tree of an item.
pub open spec fn tree_view(item: TreeMapItem) -> TreeView
    decreases item,
{
    TreeView {
        path: item.path@,
        name: item.name@,
        size: item.size as nat,
        children: Seq::new(
            item.children@.len(),
            |i: int|
                if 0 <= i < item.children@.len() {
                    tree_view(item.children@[i])
                } else {
                    arbitrary()
                },
        ),
        is_file: item.is_file,
    }
}

impl View for TreeMapItem {
    type V = TreeView;

    open spec fn view(&self) -> TreeView {
        tree_view(*self)
    }
}

impl Clone for TreeMapItem {
    /// A copy of the whole tree.
    fn clone(&self) -> (copy: Self)
        ensures
            copy@ == self@,
        decreases self,
    {
        let mut children: Vec<TreeMapItem> = Vec::new();
        let mut i: usize = 0;
        while i < self.children.len()
            invariant
                i <= self.children@.len(),
                children@.len() == i,
                forall|j: int| 0 <= j < i ==> (#[trigger] children@[j])@ == self.children@[j]@,
            decreases self.children@.len() - i,
        {
            children.push(self.children[i].clone());
            i += 1;
        }
        let copy = TreeMapItem {
            path: self.path.clone(),
            name: self.name.clone(),
            size: self.size,
            children,
            is_file: self.is_file,
        };
        assert(copy@.children =~= self@.children);
        copy
    }
}

/// The mathematical trees of a list of items.
pub open spec fn tree_views(items: Seq<TreeMapItem>) -> Seq<TreeView> {
    items.map_values(|item: TreeMapItem| tree_view(item))
}

/// The size of a tree, as the number its siblings are ordered by.
pub open spec fn view_rank() -> spec_fn(TreeView) -> int {
    |tree: TreeView| tree.size as int
}

impl Weighted for TreeView {
    open spec fn weight(&self) -> nat {
        self.size
    }
}

/// A node without children.
pub open spec fn leaf_view(path: Seq<char>, size: nat, is_file: bool) -> TreeView {
    TreeView { path, name: display_name(path), size, children: Seq::empty(), is_file }
}

/// Whether the last component of the path marks a hidden entry.
pub open spec fn is_hidden(path: Seq<char>) -> bool {
    match file_name_in(path) {
        Some(name) => is_hidden_name(name),
        None => false,
    }
}

/// The node that stands for the entry `child` of a directory at `depth`, if the entry is
/// shown at all: a hidden entry is not, nor is a directory that cannot be read; a directory
/// is scanned in turn while the depth cap is not reached; at the cap it becomes a leaf whose
/// size is the sum of the sizes of its immediate entries; anything else is a file of its own
/// size.
pub open spec fn child_view(child: FsNode, depth: nat) -> Option<TreeView>
    decreases child, child.entries@.len() + 2,
{
    if is_hidden(child.path@) {
        None
    } else if child.kind == EntryKind::Directory {
        if !child.readable {
            None
        } else if depth < MAX_DEPTH {
            Some(tree_of(child, depth + 1))
        } else {
            Some(leaf_view(child.path@, total_weight(child.entries@), false))
        }
    } else {
        Some(leaf_view(child.path@, child.len as nat, true))
    }
}

/// The nodes for the first `k` entries of `node`, in the order of the entries.
pub open spec fn kids_of(node: FsNode, depth: nat, k: nat) -> Seq<TreeView>
    decreases node, k,
{
    if k == 0 || k > node.entries@.len() {
        Seq::empty()
    } else {
        let rest = kids_of(node, depth, (k - 1) as nat);
        match child_view(node.entries@[k - 1], depth) {
            Some(tree) => rest.push(tree),
            None => rest,
        }
    }
}

/// The tree for `node`, which lies `depth` levels below the root of the scan: a file is a
/// leaf of its own size; anything else is a directory whose children are the nodes of its
/// entries, largest first, and whose size is the sum of theirs.
pub open spec fn tree_of(node: FsNode, depth: nat) -> TreeView
    decreases node, node.entries@.len() + 1,
{
    if node.kind == EntryKind::File {
        leaf_view(node.path@, node.len as nat, true)
    } else {
        let kids = kids_of(node, depth, node.entries@.len());
        TreeView {
            path: node.path@,
            name: display_name(node.path@),
            size: total_weight(kids),
            children: sorted_by(kids, view_rank()),
            is_file: false,
        }
    }
}

/// The nodes of fewer entries weigh no more than those of more entries.
pub proof fn lemma_kids_bounded(node: FsNode, depth: nat, k: nat, n: nat)
    requires
        k <= n <= node.entries@.len(),
    ensures
        total_weight(kids_of(node, depth, k)) <= total_weight(kids_of(node, depth, n)),
    decreases n,
{
    if k < n {
        lemma_kids_bounded(node, depth, k, (n - 1) as nat);
        lemma_next_kid(node, depth, (n - 1) as nat);
    }
}

/// One more entry adds a size that is not negative.
proof fn lemma_next_kid(node: FsNode, depth: nat, k: nat)
    requires
        k < node.entries@.len(),
    ensures
        total_weight(kids_of(node, depth, k)) <= total_weight(kids_of(node, depth, k + 1)),
        match child_view(node.entries@[k as int], depth) {
            Some(tree) => total_weight(kids_of(node, depth, k + 1)) == total_weight(
                kids_of(node, depth, k),
            ) + tree.size,
            None => kids_of(node, depth, k + 1) == kids_of(node, depth, k),
        },
{
    let child = node.entries@[k as int];
    match child_view(child, depth) {
        Some(tree) => {
            assert(kids_of(node, depth, k + 1).drop_last() =~= kids_of(node, depth, k));
        },
        None => {},
    }
}

/// The sizes of the first `k` entries of `node` with all that lies below them.
pub open spec fn entries_size(node: FsNode, k: nat) -> nat
    decreases node, k,
{
    if k == 0 || k > node.entries@.len() {
        0
    } else {
        entries_size(node, (k - 1) as nat) + snapshot_size(node.entries@[k - 1])
    }
}

/// The size that the file system reports for `node` itself and for everything the caller
/// read below it. No size in the tree of `node` exceeds it.
pub open spec fn snapshot_size(node: FsNode) -> nat
    decreases node, node.entries@.len() + 1,
{
    node.len as nat + entries_size(node, node.entries@.len())
}

/// The first `k` entries of a node weigh themselves no more than with all that lies below
/// them.
proof fn lemma_entries_bounded(node: FsNode, k: nat)
    requires
        k <= node.entries@.len(),
    ensures
        total_weight(node.entries@.take(k as int)) <= entries_size(node, k),
    decreases k,
{
    if k > 0 {
        lemma_entries_bounded(node, (k - 1) as nat);
        let front = node.entries@.take(k as int);
        let child = node.entries@[k - 1];
        assert(front.drop_last() =~= node.entries@.take(k - 1));
        assert(front.last() == child);
        assert(snapshot_size(child) >= child.len);
    } else {
        assert(node.entries@.take(0) =~= Seq::<FsNode>::empty());
    }
}

/// More entries do not weigh less.
proof fn lemma_sizes_grow(node: FsNode, k: nat, n: nat)
    requires
        k <= n <= node.entries@.len(),
    ensures
        entries_size(node, k) <= entries_size(node, n),
    decreases n,
{
    if k < n {
        lemma_sizes_grow(node, k, (n - 1) as nat);
    }
}

/// The nodes for the first `k` entries weigh no more than those entries with all that lies
/// below them.
proof fn lemma_kids_size_bounded(node: FsNode, depth: nat, k: nat)
    requires
        k <= node.entries@.len(),
    ensures
        total_weight(kids_of(node, depth, k)) <= entries_size(node, k),
    decreases node, k,
{
    if k > 0 {
        lemma_kids_size_bounded(node, depth, (k - 1) as nat);
        lemma_next_kid(node, depth, (k - 1) as nat);
        let child = node.entries@[k - 1];
        assert(snapshot_size(child) == child.len as nat + entries_size(
            child,
            child.entries@.len(),
        ));
        if child.kind == EntryKind::Directory && child.readable {
            if depth < MAX_DEPTH {
                lemma_tree_size_bounded(child, depth + 1);
            } else {
                lemma_entries_bounded(child, child.entries@.len());
                assert(child.entries@.take(child.entries@.len() as int) =~= child.entries@);
            }
        }
    }
}

/// No size in the tree of a node exceeds what the file system reports for the node and
/// everything below it.
pub proof fn lemma_tree_size_bounded(node: FsNode, depth: nat)
    ensures
        tree_of(node, depth).size <= snapshot_size(node),
    decreases node, node.entries@.len() + 1,
{
    if node.kind != EntryKind::File {
        lemma_kids_size_bounded(node, depth, node.entries@.len());
    }
}

/// The scanner that builds the size tree.
#[derive(Debug, Clone, Copy)]
pub struct TreeMapScanner;

/// Whether the scan looks at the entries of an entry that lies `depth` levels below the root
/// of the scan: at those of the root unless it is a file; below the root at those of a
/// directory that is not hidden, down to the directories one level below the depth cap, whose
/// entries count for their approximate size.
pub open spec fn reads_entries(path: Seq<char>, kind: EntryKind, depth: nat) -> bool {
    if depth == 0 {
        kind != EntryKind::File
    } else {
        kind == EntryKind::Directory && !is_hidden(path) && depth <= MAX_DEPTH + 1
    }
}

/// Whether the scan looks at the entries of an entry that lies `depth` levels below the root
/// of the scan. A caller that reads the file system needs to list no other directory.
pub fn looks_into(path: &str, kind: EntryKind, depth: usize) -> (looks: bool)
    ensures
        looks == reads_entries(path@, kind, depth as nat),
{
    if depth == 0 {
        match kind {
            EntryKind::File => false,
            _ => true,
        }
    } else {
        match kind {
            EntryKind::Directory => depth <= MAX_DEPTH + 1 && !is_hidden_path(path),
            _ => false,
        }
    }
}

/// Whether the last component of the path marks a hidden entry.
pub fn is_hidden_path(path: &str) -> (hidden: bool)
    ensures
        hidden == is_hidden(path@),
{
    match file_name_of(path) {
        Some(name) => {
            let text = name.as_str();
            text.unicode_len() > 0 && text.get_char(0) == '.'
        },
        None => false,
    }
}

impl TreeMapScanner {
    pub fn new() -> (s: TreeMapScanner) {
        TreeMapScanner
    }

    /// What a scan of `root` returns: its tree, or the error for a root that cannot be read.
    pub open spec fn scanned(root: FsNode) -> Result<TreeView, Seq<char>> {
        if root.readable {
            Ok(tree_of(root, 0))
        } else {
            Err(root.path@)
        }
    }

    /// Builds the size tree of `root`.
    pub fn scan(&self, root: &FsNode) -> (r: Result<TreeMapItem, ScanError>)
        requires
            root.readable ==> tree_of(*root, 0).size <= u64::MAX,
        ensures
            match r {
                Ok(item) => TreeMapScanner::scanned(*root) == Ok::<TreeView, Seq<char>>(item@),
                Err(ScanError::Unreadable(path)) => TreeMapScanner::scanned(*root) == Err::<
                    TreeView,
                    Seq<char>,
                >(path@),
            },
    {
        if !root.readable {
            return Err(ScanError::Unreadable(root.path.clone()));
        }
        Ok(self.scan_directory(root, 0))
    }

    /// The size that the file system reports for `node` and everything below it, or `None`
    /// where that does not fit into 64 bits.
    pub fn checked_snapshot_size(node: &FsNode) -> (size: Option<u64>)
        ensures
            match size {
                Some(total) => total == snapshot_size(*node),
                None => snapshot_size(*node) > u64::MAX,
            },
        decreases node,
    {
        let mut total: u64 = node.len;
        let mut k: usize = 0;
        while k < node.entries.len()
            invariant
                k <= node.entries@.len(),
                total == node.len + entries_size(*node, k as nat),
            decreases node.entries@.len() - k,
        {
            proof {
                lemma_sizes_grow(*node, (k + 1) as nat, node.entries@.len());
            }
            match TreeMapScanner::checked_snapshot_size(&node.entries[k]) {
                Some(below) => {
                    if below > u64::MAX - total {
                        return None;
                    }
                    total = total + below;
                },
                None => {
                    return None;
                },
            }
            k += 1;
        }
        Some(total)
    }

    /// Builds the size tree of `root` unless the sizes in it cannot be added up in 64 bits:
    /// then the result is `None`.
    pub fn scan_if_fits(&self, root: &FsNode) -> (r: Option<Result<TreeMapItem, ScanError>>)
        ensures
            match r {
                Some(Ok(item)) => TreeMapScanner::scanned(*root) == Ok::<TreeView, Seq<char>>(
                    item@,
                ),
                Some(Err(ScanError::Unreadable(path))) => TreeMapScanner::scanned(*root) == Err::<
                    TreeView,
                    Seq<char>,
                >(path@),
                None => snapshot_size(*root) > u64::MAX,
            },
    {
        match TreeMapScanner::checked_snapshot_size(root) {
            Some(_) => {
                proof {
                    lemma_tree_size_bounded(*root, 0);
                }
                Some(self.scan(root))
            },
            None => None,
        }
    }

    /// Builds the tree of `node`, which lies `depth` levels below the root.
    fn scan_directory(&self, node: &FsNode, depth: usize) -> (item: TreeMapItem)
        requires
            depth <= MAX_DEPTH + 1,
            tree_of(*node, depth as nat).size <= u64::MAX,
        ensures
            item@ == tree_of(*node, depth as nat),
        decreases node,
    {
        match node.kind {
            EntryKind::File => {
                let leaf = TreeMapItem::new(node.path.clone(), node.len, true);
                assert(leaf@ =~= tree_of(*node, depth as nat)) by {
                    assert(leaf@.children =~= Seq::<TreeView>::empty());
                }
                return leaf;
            },
            _ => {},
        }
        let ghost level = depth as nat;
        let count: usize = node.entries.len();
        let mut kids: Vec<TreeMapItem> = Vec::new();
        let mut total: u64 = 0;
        let mut k: usize = 0;
        assert(tree_views(kids@) =~= kids_of(*node, level, 0));
        while k < count
            invariant
                k <= count,
                count == node.entries@.len(),
                level == depth as nat,
                depth <= MAX_DEPTH + 1,
                node.kind != EntryKind::File,
                tree_views(kids@) == kids_of(*node, level, k as nat),
                total == total_weight(kids_of(*node, level, k as nat)),
                total_weight(kids_of(*node, level, count as nat)) <= u64::MAX,
            decreases count - k,
        {
            let child = &node.entries[k];
            proof {
                lemma_next_kid(*node, level, k as nat);
                lemma_kids_bounded(*node, level, (k + 1) as nat, count as nat);
            }
            let ghost prior = kids@;
            if is_hidden_path(child.path.as_str()) {
            } else {
                let shown = match child.kind {
                    EntryKind::Directory => {
                        if !child.readable {
                            None
                        } else if depth < MAX_DEPTH {
                            Some(self.scan_directory(child, depth + 1))
                        } else {
                            let size: u64 = self.quick_dir_size(child);
                            Some(TreeMapItem::new(child.path.clone(), size, false))
                        }
                    },
                    _ => Some(TreeMapItem::new(child.path.clone(), child.len, true)),
                };
                match shown {
                    Some(sub) => {
                        proof {
                            assert(sub@.children =~= child_view(*child, level)->Some_0.children);
                            assert(sub@ == child_view(*child, level)->Some_0);
                        }
                        total = total + sub.size;
                        kids.push(sub);
                        assert(tree_views(kids@) =~= tree_views(prior).push(sub@));
                    },
                    None => {},
                }
            }
            k += 1;
        }
        let ghost unsorted = kids@;
        let sorted = sort_by_rank(kids);
        let mut item = TreeMapItem::new(node.path.clone(), total, false);
        item.children = sorted;
        proof {
            lemma_views_sorted(unsorted);
            assert(item@.children =~= tree_views(sorted@));
        }
        item
    }

    /// The sum of the sizes that the immediate entries of `node` have themselves.
    fn quick_dir_size(&self, node: &FsNode) -> (size: u64)
        requires
            total_weight(node.entries@) <= u64::MAX,
        ensures
            size == total_weight(node.entries@),
    {
        sum_weights(&node.entries)
    }

    /// The scan root for a caller that names none: `default_scan_path` of the home directory
    /// that the environment gives at the time of the call.
    pub fn get_default_scan_path() -> (root: String) {
        default_scan_path(home_directory())
    }
}

/// Sorting items by size and then taking their trees is sorting their trees by size.
pub proof fn lemma_views_sorted(items: Seq<TreeMapItem>)
    ensures
        tree_views(sorted_by(items, rank_of::<TreeMapItem>())) == sorted_by(
            tree_views(items),
            view_rank(),
        ),
{
    let f = |item: TreeMapItem| tree_view(item);
    assert forall|x: TreeMapItem| #[trigger] view_rank()(f(x)) == rank_of::<TreeMapItem>()(x) by {}
    lemma_sorted_map(items, f, rank_of::<TreeMapItem>(), view_rank());
}

/// The first of the items that has the path `path`.
pub open spec fn child_at(children: Seq<TreeMapItem>, path: Seq<char>) -> Option<TreeMapItem>
    decreases children.len(),
{
    if children.len() == 0 {
        None
    } else if children[0].path@ == path {
        Some(children[0])
    } else {
        child_at(children.drop_first(), path)
    }
}

/// The node that is reached from `item` by going down, for each path of `stack` in turn, to
/// the child with that path; `None` where a path names no child.
pub open spec fn reached(item: TreeMapItem, stack: Seq<String>) -> Option<TreeMapItem>
    decreases stack.len(),
{
    if stack.len() == 0 {
        Some(item)
    } else {
        match child_at(item.children@, stack[0]@) {
            Some(child) => reached(child, stack.drop_first()),
            None => None,
        }
    }
}

impl TreeMapItem {
    /// The child with the path `path`, if there is one.
    pub fn child<'a>(&'a self, path: &String) -> (found: Option<&'a TreeMapItem>)
        ensures
            match found {
                Some(child) => child_at(self.children@, path@) == Some(*child),
                None => child_at(self.children@, path@) is None,
            },
    {
        let mut i: usize = 0;
        assert(self.children@.skip(0) =~= self.children@);
        while i < self.children.len()
            invariant
                i <= self.children@.len(),
                child_at(self.children@, path@) == child_at(self.children@.skip(i as int), path@),
            decreases self.children@.len() - i,
        {
            let child = &self.children[i];
            assert(self.children@.skip(i as int)[0] == *child);
            if child.path == *path {
                return Some(child);
            }
            assert(self.children@.skip(i as int).drop_first() =~= self.children@.skip(i as int + 1));
            i += 1;
        }
        None
    }

    /// The directory that the user has gone down to: the node that the paths of `stack`
    /// lead to from this node.
    pub fn descend<'a>(&'a self, stack: &Vec<String>) -> (found: Option<&'a TreeMapItem>)
        ensures
            match found {
                Some(node) => reached(*self, stack@) == Some(*node),
                None => reached(*self, stack@) is None,
            },
    {
        let mut current: &TreeMapItem = self;
        let mut i: usize = 0;
        assert(stack@.skip(0) =~= stack@);
        while i < stack.len()
            invariant
                i <= stack@.len(),
                reached(*self, stack@) == reached(*current, stack@.skip(i as int)),
            decreases stack@.len() - i,
        {
            assert(stack@.skip(i as int)[0] == stack@[i as int]);
            assert(stack@.skip(i as int).drop_first() =~= stack@.skip(i as int + 1));
            match current.child(&stack[i]) {
                Some(child) => {
                    current = child;
                },
                None => {
                    return None;
                },
            }
            i += 1;
        }
        Some(current)
    }
}

/// Whether, in the whole tree, the size of every node that has children is the sum of the
/// sizes of its children.
pub open spec fn adds_up(tree: TreeView) -> bool
    decreases tree,
{
    &&& (tree.children.len() > 0 ==> tree.size == total_weight(tree.children))
    &&& forall|i: int| 0 <= i < tree.children.len() ==> adds_up(#[trigger] tree.children[i])
}

/// Every node among the first `k` children stands for one of the first `k` entries.
pub proof fn lemma_kid_origin(node: FsNode, depth: nat, k: nat, j: int) -> (m: int)
    requires
        k <= node.entries@.len(),
        0 <= j < kids_of(node, depth, k).len(),
    ensures
        0 <= m < k,
        child_view(node.entries@[m], depth) == Some(kids_of(node, depth, k)[j]),
    decreases k,
{
    let before = kids_of(node, depth, (k - 1) as nat);
    if j < before.len() {
        lemma_kid_origin(node, depth, (k - 1) as nat, j)
    } else {
        k - 1
    }
}

/// In the tree of a scan, the size of a directory is the exact sum of the sizes of its
/// children, at every level.
pub proof fn lemma_tree_adds_up(node: FsNode, depth: nat)
    ensures
        adds_up(tree_of(node, depth)),
        node.kind != EntryKind::File ==> tree_of(node, depth).size == total_weight(
            tree_of(node, depth).children,
        ),
    decreases node,
{
    let tree = tree_of(node, depth);
    if node.kind != EntryKind::File {
        let count = node.entries@.len();
        let kids = kids_of(node, depth, count);
        lemma_total_sorted(kids, view_rank());
        lemma_sorted_same_elements(kids, view_rank());
        assert forall|i: int| 0 <= i < tree.children.len() implies adds_up(
            #[trigger] tree.children[i],
        ) by {
            let sub = tree.children[i];
            assert(tree.children.contains(sub));
            assert(kids.contains(sub));
            let j = choose|j: int| 0 <= j < kids.len() && kids[j] == sub;
            let m = lemma_kid_origin(node, depth, count, j);
            let child = node.entries@[m];
            if child.kind == EntryKind::Directory && depth < MAX_DEPTH {
                lemma_tree_adds_up(child, depth + 1);
            }
        }
    }
}

/// The children of a directory come largest first.
pub proof fn lemma_children_largest_first(node: FsNode, depth: nat)
    ensures
        forall|i: int, j: int|
            0 <= i < j < tree_of(node, depth).children.len() ==> tree_of(
                node,
                depth,
            ).children[i].size >= tree_of(node, depth).children[j].size,
{
    if node.kind != EntryKind::File {
        lemma_sorted_descending(kids_of(node, depth, node.entries@.len()), view_rank());
    }
}

/// At the depth cap a directory is not scanned: it is a leaf whose size is the sum of the
/// sizes that its immediate entries have themselves.
pub proof fn lemma_capped_directory_is_approximated(child: FsNode, depth: nat)
    requires
        depth >= MAX_DEPTH,
        child.kind == EntryKind::Directory,
        child.readable,
        !is_hidden(child.path@),
    ensures
        child_view(child, depth) == Some(
            leaf_view(child.path@, total_weight(child.entries@), false),
        ),
{
}

/// Whether two entries are told alike as far as the scan looks at them: they have one path,
/// kind, size and readability, and where the scan looks at the entries of an entry that lies
/// `depth` levels below the root, they have as many entries, which are told alike in turn.
pub open spec fn told_alike(first: FsNode, second: FsNode, depth: nat) -> bool
    decreases first,
{
    &&& first.path@ == second.path@
    &&& first.kind == second.kind
    &&& first.len == second.len
    &&& first.readable == second.readable
    &&& (reads_entries(first.path@, first.kind, depth) ==> {
        &&& first.entries@.len() == second.entries@.len()
        &&& forall|i: int|
            0 <= i < first.entries@.len() ==> told_alike(
                #[trigger] first.entries@[i],
                second.entries@[i],
                depth + 1,
            )
    })
}

/// Entries that are told alike weigh the same themselves.
proof fn lemma_alike_entries_weigh_alike(first: FsNode, second: FsNode, depth: nat, k: nat)
    requires
        first.entries@.len() == second.entries@.len(),
        k <= first.entries@.len(),
        forall|i: int|
            0 <= i < first.entries@.len() ==> told_alike(
                #[trigger] first.entries@[i],
                second.entries@[i],
                depth,
            ),
    ensures
        total_weight(first.entries@.take(k as int)) == total_weight(second.entries@.take(k as int)),
    decreases k,
{
    if k > 0 {
        lemma_alike_entries_weigh_alike(first, second, depth, (k - 1) as nat);
        let a = first.entries@.take(k as int);
        let b = second.entries@.take(k as int);
        assert(a.drop_last() =~= first.entries@.take(k - 1));
        assert(b.drop_last() =~= second.entries@.take(k - 1));
        assert(a.last() == first.entries@[k - 1]);
        assert(b.last() == second.entries@[k - 1]);
        assert(told_alike(first.entries@[k - 1], second.entries@[k - 1], depth));
    } else {
        assert(first.entries@.take(0) =~= Seq::<FsNode>::empty());
        assert(second.entries@.take(0) =~= Seq::<FsNode>::empty());
    }
}

/// Entries of a directory that are told alike stand for the same node.
proof fn lemma_alike_children(first: FsNode, second: FsNode, depth: nat)
    requires
        depth <= MAX_DEPTH,
        told_alike(first, second, depth + 1),
    ensures
        child_view(first, depth) == child_view(second, depth),
    decreases first, first.entries@.len() + 2,
{
    if !is_hidden(first.path@) && first.kind == EntryKind::Directory && first.readable {
        if depth < MAX_DEPTH {
            lemma_alike_trees(first, second, depth + 1);
        } else {
            let count = first.entries@.len();
            lemma_alike_entries_weigh_alike(first, second, depth + 2, count);
            assert(first.entries@.take(count as int) =~= first.entries@);
            assert(second.entries@.take(count as int) =~= second.entries@);
        }
    }
}

/// The first entries of two directories that are told alike stand for the same nodes.
proof fn lemma_alike_kids(first: FsNode, second: FsNode, depth: nat, k: nat)
    requires
        depth <= MAX_DEPTH,
        told_alike(first, second, depth),
        reads_entries(first.path@, first.kind, depth),
        k <= first.entries@.len(),
    ensures
        kids_of(first, depth, k) == kids_of(second, depth, k),
    decreases first, k,
{
    if k > 0 {
        lemma_alike_kids(first, second, depth, (k - 1) as nat);
        assert(told_alike(first.entries@[k - 1], second.entries@[k - 1], depth + 1));
        lemma_alike_children(first.entries@[k - 1], second.entries@[k - 1], depth);
    }
}

/// Two entries that are told alike have the same tree.
proof fn lemma_alike_trees(first: FsNode, second: FsNode, depth: nat)
    requires
        depth <= MAX_DEPTH,
        told_alike(first, second, depth),
        first.kind != EntryKind::File ==> reads_entries(first.path@, first.kind, depth),
    ensures
        tree_of(first, depth) == tree_of(second, depth),
    decreases first, first.entries@.len() + 1,
{
    if first.kind != EntryKind::File {
        lemma_alike_kids(first, second, depth, first.entries@.len());
    }
}

/// The scan depends on nothing but what it says it looks at: two roots that are told alike
/// as far as `reads_entries` goes give the same result.
pub proof fn lemma_scan_depends_on_what_is_read(first: FsNode, second: FsNode)
    requires
        told_alike(first, second, 0),
    ensures
        TreeMapScanner::scanned(first) == TreeMapScanner::scanned(second),
{
    lemma_alike_trees(first, second, 0);
}

} // verus!
