//! The values that the scanners take and hand out.

use crate::ordering::Ranked;
use crate::paths::{file_name_in, file_name_of};
use vstd::prelude::*;
use vstd::string::StringExecFns;

verus! {

/// An instant: seconds and nanoseconds since the Unix epoch, as the file system reports them.
/// The nanoseconds are normally fewer than a second; a larger count is taken as it stands.
#[derive(Debug, Clone, Copy, PartialEq, Eq, Structural)]
pub struct Timestamp {
    pub secs: i64,
    pub nanos: u32,
}

impl Timestamp {
    /// The instant in nanoseconds since the epoch.
    pub open spec fn value(self) -> int {
        self.secs * 1_000_000_000 + self.nanos
    }

    /// Whole seconds from `self` to `later`; zero if `later` is not later.
    pub open spec fn seconds_until(self, later: Timestamp) -> int {
        if later.value() >= self.value() {
            (later.value() - self.value()) / 1_000_000_000
        } else {
            0
        }
    }

    /// Whole days from `self` to `later`; zero if `later` is not later.
    pub open spec fn days_until(self, later: Timestamp) -> int {
        self.seconds_until(later) / 86_400
    }

    /// Whether `self` lies at or before the instant that is `days` days before `later`.
    pub open spec fn lies_days_before(self, days: u64, later: Timestamp) -> bool {
        later.value() - self.value() >= days * 86_400 * 1_000_000_000
    }

    /// The instant that lies `secs` seconds and `nanos` nanoseconds after the epoch. Seconds
    /// beyond the largest that an instant holds count as the largest.
    pub open spec fn after(secs: u64, nanos: u32) -> Timestamp {
        Timestamp {
            secs: if secs <= i64::MAX {
                secs as i64
            } else {
                i64::MAX
            },
            nanos,
        }
    }

    /// The instant that lies `secs` seconds and `nanos` nanoseconds before the epoch: its
    /// seconds are rounded down and its nanoseconds count upwards from them. Where that is
    /// earlier than the earliest instant, it is the earliest.
    pub open spec fn before(secs: u64, nanos: u32) -> Timestamp {
        let whole = secs + nanos / 1_000_000_000;
        let part = nanos % 1_000_000_000;
        if part == 0 {
            if whole <= i64::MAX {
                Timestamp { secs: (-whole) as i64, nanos: 0 }
            } else {
                Timestamp::earliest()
            }
        } else {
            if whole < i64::MAX {
                Timestamp { secs: (-whole - 1) as i64, nanos: (1_000_000_000 - part) as u32 }
            } else {
                Timestamp::earliest()
            }
        }
    }

    /// The earliest instant.
    pub open spec fn earliest() -> Timestamp {
        Timestamp { secs: i64::MIN, nanos: 0 }
    }

    pub fn new(secs: i64, nanos: u32) -> (t: Timestamp)
        ensures
            t.secs == secs,
            t.nanos == nanos,
    {
        Timestamp { secs, nanos }
    }

    /// The instant in nanoseconds since the epoch.
    pub fn total_nanos(&self) -> (n: i128)
        ensures
            n == self.value(),
    {
        (self.secs as i128) * 1_000_000_000 + (self.nanos as i128)
    }

    /// Whether `self` is strictly earlier than `other`.
    pub fn is_before(&self, other: &Timestamp) -> (b: bool)
        ensures
            b == (self.value() < other.value()),
    {
        self.total_nanos() < other.total_nanos()
    }

    /// Whole days from `self` to `now`; zero if `self` lies in the future of `now`.
    pub fn age_days(&self, now: &Timestamp) -> (days: u64)
        ensures
            days == self.days_until(*now),
    {
        let then: i128 = self.total_nanos();
        let current: i128 = now.total_nanos();
        if current < then {
            return 0;
        }
        let seconds: i128 = (current - then) / 1_000_000_000;
        let days: i128 = seconds / 86_400;
        days as u64
    }

    /// Whether `self` lies at or before the instant that is `days` days before `now`.
    pub fn at_least_days_before(&self, days: u64, now: &Timestamp) -> (b: bool)
        ensures
            b == self.lies_days_before(days, *now),
    {
        let span: i128 = (days as i128) * 86_400 * 1_000_000_000;
        now.total_nanos() - self.total_nanos() >= span
    }

    /// The instant that lies `secs` seconds and `nanos` nanoseconds after the epoch.
    pub fn after_epoch(secs: u64, nanos: u32) -> (t: Timestamp)
        ensures
            t == Timestamp::after(secs, nanos),
            secs <= i64::MAX ==> t.value() == secs * 1_000_000_000 + nanos,
    {
        if secs <= 9_223_372_036_854_775_807 {
            Timestamp { secs: secs as i64, nanos }
        } else {
            Timestamp { secs: i64::MAX, nanos }
        }
    }

    /// The instant that lies `secs` seconds and `nanos` nanoseconds before the epoch.
    pub fn before_epoch(secs: u64, nanos: u32) -> (t: Timestamp)
        ensures
            t == Timestamp::before(secs, nanos),
            secs + 5 <= i64::MAX ==> t.value() == -(secs * 1_000_000_000 + nanos),
    {
        let whole: i128 = (secs as i128) + ((nanos / 1_000_000_000) as i128);
        let part: u32 = nanos % 1_000_000_000;
        if part == 0 {
            if whole <= 9_223_372_036_854_775_807 {
                Timestamp { secs: (-whole) as i64, nanos: 0 }
            } else {
                Timestamp { secs: i64::MIN, nanos: 0 }
            }
        } else {
            if whole < 9_223_372_036_854_775_807 {
                Timestamp { secs: (-whole - 1) as i64, nanos: 1_000_000_000 - part }
            } else {
                Timestamp { secs: i64::MIN, nanos: 0 }
            }
        }
    }
}

/// What lies at or before the instant `days` days before `now` has an age of at least `days`
/// whole days.
pub proof fn lemma_days_before_has_age(then: Timestamp, days: u64, now: Timestamp)
    requires
        then.lies_days_before(days, now),
    ensures
        then.days_until(now) >= days,
{
    let diff = now.value() - then.value();
    let seconds = diff / 1_000_000_000;
    assert(seconds >= days * 86_400) by (nonlinear_arith)
        requires
            diff >= days * 86_400 * 1_000_000_000,
            seconds == diff / 1_000_000_000,
    ;
    assert(seconds / 86_400 >= days) by (nonlinear_arith)
        requires
            seconds >= days * 86_400,
    ;
}

/// A named class of reclaimable data.
#[derive(Debug, Clone, Copy, PartialEq, Eq, Structural)]
pub enum CleanupCategory {
    SystemCaches,
    UserCaches,
    Logs,
    Trash,
    Downloads,
    DeveloperCaches,
    BrowserData,
    ApplicationSupport,
}

impl CleanupCategory {
    /// Every category, in the order in which they are scanned and shown.
    pub open spec fn every() -> Seq<CleanupCategory> {
        seq![
            CleanupCategory::SystemCaches,
            CleanupCategory::UserCaches,
            CleanupCategory::Logs,
            CleanupCategory::Trash,
            CleanupCategory::Downloads,
            CleanupCategory::DeveloperCaches,
            CleanupCategory::BrowserData,
            CleanupCategory::ApplicationSupport,
        ]
    }

    /// The category's title.
    pub open spec fn title(self) -> Seq<char> {
        match self {
            CleanupCategory::SystemCaches => "System Caches"@,
            CleanupCategory::UserCaches => "User Caches"@,
            CleanupCategory::Logs => "Log Files"@,
            CleanupCategory::Trash => "Trash"@,
            CleanupCategory::Downloads => "Downloads"@,
            CleanupCategory::DeveloperCaches => "Developer Caches"@,
            CleanupCategory::BrowserData => "Browser Data"@,
            CleanupCategory::ApplicationSupport => "Application Support"@,
        }
    }

    /// One line on what the category holds.
    pub open spec fn summary(self) -> Seq<char> {
        match self {
            CleanupCategory::SystemCaches => "System-wide cache files"@,
            CleanupCategory::UserCaches => "User application caches"@,
            CleanupCategory::Logs => "Application and system logs"@,
            CleanupCategory::Trash => "Deleted files in trash"@,
            CleanupCategory::Downloads => "Downloaded files"@,
            CleanupCategory::DeveloperCaches => "npm, cargo, gradle, pip caches"@,
            CleanupCategory::BrowserData => "Browser caches and data"@,
            CleanupCategory::ApplicationSupport => "Application support files"@,
        }
    }

    pub fn all() -> (list: Vec<CleanupCategory>)
        ensures
            list@ == CleanupCategory::every(),
    {
        let mut list: Vec<CleanupCategory> = Vec::new();
        list.push(CleanupCategory::SystemCaches);
        list.push(CleanupCategory::UserCaches);
        list.push(CleanupCategory::Logs);
        list.push(CleanupCategory::Trash);
        list.push(CleanupCategory::Downloads);
        list.push(CleanupCategory::DeveloperCaches);
        list.push(CleanupCategory::BrowserData);
        list.push(CleanupCategory::ApplicationSupport);
        assert(list@ =~= CleanupCategory::every());
        list
    }

    pub fn name(&self) -> (text: &'static str)
        ensures
            text@ == self.title(),
    {
        match self {
            CleanupCategory::SystemCaches => "System Caches",
            CleanupCategory::UserCaches => "User Caches",
            CleanupCategory::Logs => "Log Files",
            CleanupCategory::Trash => "Trash",
            CleanupCategory::Downloads => "Downloads",
            CleanupCategory::DeveloperCaches => "Developer Caches",
            CleanupCategory::BrowserData => "Browser Data",
            CleanupCategory::ApplicationSupport => "Application Support",
        }
    }

    pub fn description(&self) -> (text: &'static str)
        ensures
            text@ == self.summary(),
    {
        match self {
            CleanupCategory::SystemCaches => "System-wide cache files",
            CleanupCategory::UserCaches => "User application caches",
            CleanupCategory::Logs => "Application and system logs",
            CleanupCategory::Trash => "Deleted files in trash",
            CleanupCategory::Downloads => "Downloaded files",
            CleanupCategory::DeveloperCaches => "npm, cargo, gradle, pip caches",
            CleanupCategory::BrowserData => "Browser caches and data",
            CleanupCategory::ApplicationSupport => "Application support files",
        }
    }
}

/// A directory found by the cleanup scan, with the total size of the files directly in it.
#[derive(Debug)]
pub struct CleanableItem {
    pub path: String,
    pub size: u64,
    pub category: CleanupCategory,
    pub modified: Timestamp,
    pub selected: bool,
}

impl Clone for CleanableItem {
    fn clone(&self) -> (copy: Self)
        ensures
            copy == *self,
    {
        CleanableItem {
            path: self.path.clone(),
            size: self.size,
            category: self.category,
            modified: self.modified,
            selected: self.selected,
        }
    }
}

/// One entry of a directory walk, as the caller read it from the file system.
#[derive(Debug)]
pub struct FileEntry {
    pub path: String,
    /// How many directories lie between the root of the walk and the entry; the root has 0.
    pub depth: usize,
    pub is_file: bool,
    pub size: u64,
    pub modified: Timestamp,
    pub accessed: Timestamp,
}

impl Clone for FileEntry {
    fn clone(&self) -> (copy: Self)
        ensures
            copy == *self,
    {
        FileEntry {
            path: self.path.clone(),
            depth: self.depth,
            is_file: self.is_file,
            size: self.size,
            modified: self.modified,
            accessed: self.accessed,
        }
    }
}

/// What the caller's walk of a directory tree gave.
#[derive(Debug)]
pub struct Walk {
    /// The directory at which the walk started.
    pub root: String,
    /// Whether the root exists and could be read.
    pub readable: bool,
    /// The entries of the walk whose metadata could be read, in the order of the walk,
    /// the root first.
    pub entries: Vec<FileEntry>,
}

/// Why a scan gave no result.
#[derive(Debug, Clone)]
pub enum ScanError {
    /// The root of the scan does not exist or cannot be read; the field is its path.
    Unreadable(String),
}

/// Whether an entry at `depth` lies within a walk that is cut off at `max_depth`.
pub open spec fn within_depth(depth: usize, max_depth: Option<usize>) -> bool {
    match max_depth {
        Some(cap) => depth <= cap,
        None => true,
    }
}

/// Whether an entry at `depth` lies within a walk that is cut off at `max_depth`.
pub fn is_within_depth(depth: usize, max_depth: Option<usize>) -> (inside: bool)
    ensures
        inside == within_depth(depth, max_depth),
{
    match max_depth {
        Some(cap) => depth <= cap,
        None => true,
    }
}

/// A node of the size tree.
#[derive(Debug)]
pub struct TreeMapItem {
    pub path: String,
    pub name: String,
    pub size: u64,
    pub children: Vec<TreeMapItem>,
    pub is_file: bool,
}

/// The name shown for a path without a last component.
pub open spec fn unknown_name() -> Seq<char> {
    "Unknown"@
}

/// The name shown for a path: its last component, or `Unknown`.
pub open spec fn display_name(path: Seq<char>) -> Seq<char> {
    match file_name_in(path) {
        Some(name) => name,
        None => unknown_name(),
    }
}

impl TreeMapItem {
    /// A node without children.
    pub fn new(path: String, size: u64, is_file: bool) -> (item: TreeMapItem)
        ensures
            item.path@ == path@,
            item.name@ == display_name(path@),
            item.size == size,
            item.children@.len() == 0,
            item.is_file == is_file,
    {
        let name = match file_name_of(path.as_str()) {
            Some(name) => name,
            None => String::from_str("Unknown"),
        };
        TreeMapItem { path, name, size, children: Vec::new(), is_file }
    }
}

impl Ranked for TreeMapItem {
    open spec fn rank(&self) -> int {
        self.size as int
    }

    fn outranks(&self, other: &Self) -> (b: bool) {
        self.size > other.size
    }
}

/// One copy of a duplicated file.
#[derive(Debug)]
pub struct DuplicateFile {
    pub path: String,
    pub size: u64,
    pub modified: Timestamp,
    pub selected: bool,
}

impl Clone for DuplicateFile {
    fn clone(&self) -> (copy: Self)
        ensures
            copy == *self,
    {
        DuplicateFile {
            path: self.path.clone(),
            size: self.size,
            modified: self.modified,
            selected: self.selected,
        }
    }
}

impl Ranked for DuplicateFile {
    /// Older files come first.
    open spec fn rank(&self) -> int {
        -self.modified.value()
    }

    fn outranks(&self, other: &Self) -> (b: bool) {
        self.modified.is_before(&other.modified)
    }
}

/// Files of one size and one content hash.
#[derive(Debug, Clone)]
pub struct DuplicateGroup {
    pub hash: String,
    pub files: Vec<DuplicateFile>,
    pub total_size: u64,
    pub wasted_size: u64,
}

impl Ranked for DuplicateGroup {
    open spec fn rank(&self) -> int {
        self.wasted_size as int
    }

    fn outranks(&self, other: &Self) -> (b: bool) {
        self.wasted_size > other.wasted_size
    }
}

/// A file that passed the size and age thresholds.
#[derive(Debug)]
pub struct LargeFileItem {
    pub path: String,
    pub size: u64,
    pub modified: Timestamp,
    pub accessed: Timestamp,
    pub age_days: u64,
    pub selected: bool,
}

impl Clone for LargeFileItem {
    fn clone(&self) -> (copy: Self)
        ensures
            copy == *self,
    {
        LargeFileItem {
            path: self.path.clone(),
            size: self.size,
            modified: self.modified,
            accessed: self.accessed,
            age_days: self.age_days,
            selected: self.selected,
        }
    }
}

impl Ranked for LargeFileItem {
    open spec fn rank(&self) -> int {
        self.size as int
    }

    fn outranks(&self, other: &Self) -> (b: bool) {
        self.size > other.size
    }
}

#[derive(Debug, Clone, Copy, PartialEq, Eq, Structural)]
pub enum ThreatType {
    SuspiciousFile,
    LaunchAgent,
    LaunchDaemon,
    LoginItem,
    KernelExtension,
    BrowserExtension,
}

#[derive(Debug, Clone, Copy, PartialEq, Eq, Structural)]
pub enum ThreatSeverity {
    Low,
    Medium,
    High,
    Critical,
}

#[derive(Debug, Clone)]
pub struct SecurityThreat {
    pub path: String,
    pub threat_type: ThreatType,
    pub severity: ThreatSeverity,
    pub description: String,
    pub detected_at: Timestamp,
}

#[derive(Debug, Clone)]
pub struct QuarantineItem {
    pub original_path: String,
    pub quarantine_path: String,
    pub quarantined_at: Timestamp,
    pub size: u64,
}

} // verus!
