//! Validation of a path before it is deleted.
//!
//! A path is deleted only after `PathSanitizer::sanitize_path` has accepted it. The validator
//! does not look at the file system itself: the caller resolves the path and reports what it
//! found in a `PathProbe`, and the validator decides on that report. The decision is the spec
//! function `PathSanitizer::outcome`; `sanitize_path` computes it.

use crate::models::Timestamp;
use crate::paths::{
    chars_of, has_parent_segment, holds_parent_segment, is_home_marker, is_home_relative,
    is_under, join_path, joined, lies_under, parent_segment_at,
};
use crate::platform::{blacklist, blacklisted_paths, literal_texts, text_of, Platform};
use crate::text::{decimal, decimal_digits};
use vstd::prelude::*;
use vstd::string::StringExecFns;

verus! {

/// Why a path must not be deleted.
#[derive(Debug, Clone)]
pub enum ValidationError {
    /// The resolved path still holds a parent-directory segment.
    PathTraversal(String),
    /// The resolved path is a protected directory or lies below one.
    Blacklisted(String),
    /// Neither the path nor its parent exists.
    DoesNotExist(String),
    /// The path was modified fewer days ago than the minimum age; the second field is its age
    /// in days.
    TooRecent(String, u64),
    /// The path could not be judged: the home directory it depends on is unknown, or its
    /// modification time cannot be read.
    NotSafeToDelete(String),
}

/// A `ValidationError` with its texts as sequences of characters.
pub enum Rejection {
    PathTraversal(Seq<char>),
    Blacklisted(Seq<char>),
    DoesNotExist(Seq<char>),
    TooRecent(Seq<char>, u64),
    NotSafeToDelete(Seq<char>),
}

impl View for ValidationError {
    type V = Rejection;

    open spec fn view(&self) -> Rejection {
        match self {
            ValidationError::PathTraversal(p) => Rejection::PathTraversal(p@),
            ValidationError::Blacklisted(p) => Rejection::Blacklisted(p@),
            ValidationError::DoesNotExist(p) => Rejection::DoesNotExist(p@),
            ValidationError::TooRecent(p, days) => Rejection::TooRecent(p@, *days),
            ValidationError::NotSafeToDelete(p) => Rejection::NotSafeToDelete(p@),
        }
    }
}

/// The message for a rejection.
pub open spec fn message_text(reason: Rejection) -> Seq<char> {
    match reason {
        Rejection::PathTraversal(path) => "Path traversal detected: "@ + path,
        Rejection::Blacklisted(path) => "Path is blacklisted: "@ + path,
        Rejection::DoesNotExist(path) => "Path does not exist: "@ + path,
        Rejection::TooRecent(path, days) => "File too recent ("@ + decimal_digits(days as nat)
            + " days old): "@ + path,
        Rejection::NotSafeToDelete(path) => "Not safe to delete: "@ + path,
    }
}

impl ValidationError {
    /// The message that tells the user why the path is not deleted.
    pub fn message(&self) -> (text: String)
        ensures
            text@ == message_text(self@),
    {
        match self {
            ValidationError::PathTraversal(path) => {
                let mut text = String::from_str("Path traversal detected: ");
                text.append(path.as_str());
                text
            },
            ValidationError::Blacklisted(path) => {
                let mut text = String::from_str("Path is blacklisted: ");
                text.append(path.as_str());
                text
            },
            ValidationError::DoesNotExist(path) => {
                let mut text = String::from_str("Path does not exist: ");
                text.append(path.as_str());
                text
            },
            ValidationError::TooRecent(path, days) => {
                let mut text = String::from_str("File too recent (");
                let number = decimal(*days);
                text.append(number.as_str());
                text.append(" days old): ");
                text.append(path.as_str());
                text
            },
            ValidationError::NotSafeToDelete(path) => {
                let mut text = String::from_str("Not safe to delete: ");
                text.append(path.as_str());
                text
            },
        }
    }
}

/// What the caller found out about one path before asking for its validation.
#[derive(Debug, Clone)]
pub struct PathProbe {
    /// The path as it was given.
    pub path: String,
    /// The home directory, if it is known.
    pub home: Option<String>,
    /// The home-expanded path with links and relative segments resolved, if it resolves.
    pub canonical: Option<String>,
    /// Whether the home-expanded path has a parent directory that exists.
    pub parent_exists: bool,
    /// Whether the candidate (the resolved path or, failing that, the home-expanded path)
    /// exists.
    pub exists: bool,
    /// When the candidate was last modified; `None` where that cannot be read.
    pub modified: Option<Timestamp>,
}

/// `path` with a leading home marker replaced by the home directory; `None` where the marker
/// is there and the home directory is unknown.
pub open spec fn expanded(path: Seq<char>, home: Option<Seq<char>>) -> Option<Seq<char>> {
    if is_home_relative(path) {
        match home {
            Some(dir) => Some(joined(dir, path.skip(2))),
            None => None,
        }
    } else if is_home_marker(path) {
        home
    } else {
        Some(path)
    }
}

/// The path that is judged: the resolved path; where the path does not resolve but its parent
/// exists, the home-expanded path.
pub open spec fn candidate(probe: PathProbe) -> Result<Seq<char>, Rejection> {
    match expanded(probe.path@, text_of(probe.home)) {
        None => Err(Rejection::NotSafeToDelete(probe.path@)),
        Some(full) => match probe.canonical {
            Some(resolved) => Ok(resolved@),
            None => if probe.parent_exists {
                Ok(full)
            } else {
                Err(Rejection::DoesNotExist(probe.path@))
            },
        },
    }
}

/// Whether the table entry, home-expanded, is `path` or a directory above it.
pub open spec fn entry_covers(entry: Seq<char>, home: Option<Seq<char>>, path: Seq<char>) -> bool {
    match expanded(entry, home) {
        Some(dir) => is_under(path, dir),
        None => false,
    }
}

/// Whether some entry of the table covers `path`.
pub open spec fn is_blacklisted(path: Seq<char>, table: Seq<Seq<char>>, home: Option<Seq<char>>) -> bool {
    exists|i: int| 0 <= i < table.len() && entry_covers(#[trigger] table[i], home, path)
}

/// Whether some entry of the table cannot be expanded because the home directory is unknown.
pub open spec fn lacks_home(table: Seq<Seq<char>>, home: Option<Seq<char>>) -> bool {
    exists|i: int| 0 <= i < table.len() && expanded(#[trigger] table[i], home) is None
}

/// The blacklist's judgement of `path`.
pub open spec fn blacklist_verdict(
    path: Seq<char>,
    table: Seq<Seq<char>>,
    home: Option<Seq<char>>,
) -> Result<(), Rejection> {
    if is_blacklisted(path, table, home) {
        Err(Rejection::Blacklisted(path))
    } else if lacks_home(table, home) {
        Err(Rejection::NotSafeToDelete(path))
    } else {
        Ok(())
    }
}

/// The age protection's judgement of `path`: a path that does not exist passes; one that
/// exists must have been modified at least `min_age_days` whole days before `now`.
pub open spec fn age_verdict(
    path: Seq<char>,
    min_age_days: u64,
    exists: bool,
    modified: Option<Timestamp>,
    now: Timestamp,
) -> Result<(), Rejection> {
    if !exists {
        Ok(())
    } else {
        match modified {
            None => Err(Rejection::NotSafeToDelete(path)),
            Some(then) => if then.days_until(now) < min_age_days {
                Err(Rejection::TooRecent(path, then.days_until(now) as u64))
            } else {
                Ok(())
            },
        }
    }
}

/// Whether the executable result `r` is the judgement `v`.
pub open spec fn is_verdict(r: Result<(), ValidationError>, v: Result<(), Rejection>) -> bool {
    match r {
        Ok(_) => v is Ok,
        Err(e) => v == Err::<(), Rejection>(e@),
    }
}

/// Whether the executable result `r` is the outcome `v`.
pub open spec fn is_outcome(r: Result<String, ValidationError>, v: Result<Seq<char>, Rejection>) -> bool {
    match r {
        Ok(p) => v == Ok::<Seq<char>, Rejection>(p@),
        Err(e) => v == Err::<Seq<char>, Rejection>(e@),
    }
}

/// Replaces a leading home marker by the home directory.
pub fn expand_home(path: &str, home: &Option<String>) -> (out: Option<String>)
    ensures
        text_of(out) == expanded(path@, text_of(*home)),
{
    let n: usize = path.unicode_len();
    if n >= 2 && path.get_char(0) == '~' && path.get_char(1) == '/' {
        match home {
            Some(dir) => {
                let rest = path.substring_char(2, n);
                assert(rest@ =~= path@.skip(2));
                Some(join_path(dir.as_str(), rest))
            },
            None => None,
        }
    } else if n == 1 && path.get_char(0) == '~' {
        assert(path@ =~= seq!['~']);
        match home {
            Some(dir) => Some(dir.clone()),
            None => None,
        }
    } else {
        assert(!is_home_marker(path@)) by {
            if is_home_marker(path@) {
                assert(path@.len() == 1 && path@[0] == '~');
            }
        }
        Some(String::from_str(path))
    }
}

/// The validator's settings.
#[derive(Debug, Clone, Copy)]
pub struct PathSanitizer {
    min_age_days: u64,
    enforce_age_protection: bool,
    platform: Platform,
}

impl Default for PathSanitizer {
    /// Age protection with a minimum of seven days.
    fn default() -> (s: PathSanitizer)
        ensures
            s.min_age() == 7,
            s.enforces_age(),
            s.tables() == Platform::MacOs,
    {
        PathSanitizer { min_age_days: 7, enforce_age_protection: true, platform: Platform::MacOs }
    }
}

impl PathSanitizer {
    /// The minimum age in days.
    pub closed spec fn min_age(self) -> u64 {
        self.min_age_days
    }

    /// Whether the age protection is on.
    pub closed spec fn enforces_age(self) -> bool {
        self.enforce_age_protection
    }

    /// The platform whose blacklist is used.
    pub closed spec fn tables(self) -> Platform {
        self.platform
    }

    /// The judgement of the candidate path `path`, which the probe was made for.
    pub open spec fn judged(self, path: Seq<char>, probe: PathProbe, now: Timestamp) -> Result<
        Seq<char>,
        Rejection,
    > {
        if has_parent_segment(path) {
            Err(Rejection::PathTraversal(path))
        } else {
            match blacklist_verdict(path, blacklist(self.tables()), text_of(probe.home)) {
                Err(e) => Err(e),
                Ok(_) => if self.enforces_age() {
                    match age_verdict(path, self.min_age(), probe.exists, probe.modified, now) {
                        Err(e) => Err(e),
                        Ok(_) => Ok(path),
                    }
                } else {
                    Ok(path)
                },
            }
        }
    }

    /// What validation returns for a probe at the time `now`: the path to delete, or the first
    /// reason not to, in the order home expansion, resolution, traversal, blacklist, age.
    pub open spec fn outcome(self, probe: PathProbe, now: Timestamp) -> Result<
        Seq<char>,
        Rejection,
    > {
        match candidate(probe) {
            Err(e) => Err(e),
            Ok(path) => self.judged(path, probe, now),
        }
    }

    /// A validator with the macOS blacklist; `with_platform` chooses another.
    pub fn new(min_age_days: u64, enforce_age_protection: bool) -> (s: PathSanitizer)
        ensures
            s.min_age() == min_age_days,
            s.enforces_age() == enforce_age_protection,
            s.tables() == Platform::MacOs,
    {
        PathSanitizer { min_age_days, enforce_age_protection, platform: Platform::MacOs }
    }

    /// The same validator with the blacklist of `platform`.
    pub fn with_platform(self, platform: Platform) -> (s: PathSanitizer)
        ensures
            s.min_age() == self.min_age(),
            s.enforces_age() == self.enforces_age(),
            s.tables() == platform,
    {
        PathSanitizer {
            min_age_days: self.min_age_days,
            enforce_age_protection: self.enforce_age_protection,
            platform,
        }
    }

    /// The same validator without age protection.
    pub fn without_age_protection(self) -> (s: PathSanitizer)
        ensures
            s.min_age() == self.min_age(),
            !s.enforces_age(),
            s.tables() == self.tables(),
    {
        PathSanitizer {
            min_age_days: self.min_age_days,
            enforce_age_protection: false,
            platform: self.platform,
        }
    }

    /// The same validator with another minimum age.
    pub fn with_min_age(self, days: u64) -> (s: PathSanitizer)
        ensures
            s.min_age() == days,
            s.enforces_age() == self.enforces_age(),
            s.tables() == self.tables(),
    {
        PathSanitizer {
            min_age_days: days,
            enforce_age_protection: self.enforce_age_protection,
            platform: self.platform,
        }
    }

    pub fn min_age_days(&self) -> (days: u64)
        ensures
            days == self.min_age(),
    {
        self.min_age_days
    }

    pub fn enforce_age_protection(&self) -> (on: bool)
        ensures
            on == self.enforces_age(),
    {
        self.enforce_age_protection
    }

    pub fn platform(&self) -> (platform: Platform)
        ensures
            platform == self.tables(),
    {
        self.platform
    }

    /// Rejects a path that holds a parent-directory segment.
    pub fn check_path_traversal(&self, path: &str) -> (r: Result<(), ValidationError>)
        ensures
            is_verdict(
                r,
                if has_parent_segment(path@) {
                    Err(Rejection::PathTraversal(path@))
                } else {
                    Ok(())
                },
            ),
    {
        let chars = chars_of(path);
        if holds_parent_segment(&chars) {
            Err(ValidationError::PathTraversal(String::from_str(path)))
        } else {
            Ok(())
        }
    }

    /// Rejects a path that is a protected directory or lies below one.
    pub fn check_blacklist(&self, path: &str, home: &Option<String>) -> (r: Result<
        (),
        ValidationError,
    >)
        ensures
            is_verdict(r, blacklist_verdict(path@, blacklist(self.tables()), text_of(*home))),
    {
        let chars = chars_of(path);
        let table = blacklisted_paths(self.platform);
        let ghost entries = blacklist(self.platform);
        let ghost dir_text = text_of(*home);
        let mut lacking = false;
        let mut i: usize = 0;
        while i < table.len()
            invariant
                i <= table@.len(),
                chars@ == path@,
                dir_text == text_of(*home),
                entries == literal_texts(table@),
                entries == blacklist(self.tables()),
                forall|j: int| 0 <= j < i ==> !entry_covers(#[trigger] entries[j], dir_text, path@),
                lacking == exists|j: int|
                    0 <= j < i && expanded(#[trigger] entries[j], dir_text) is None,
            decreases table@.len() - i,
        {
            assert(entries[i as int] == table@[i as int]@);
            match expand_home(table[i], home) {
                None => {
                    lacking = true;
                },
                Some(dir) => {
                    let dir_chars = chars_of(dir.as_str());
                    if lies_under(&chars, &dir_chars) {
                        assert(entry_covers(entries[i as int], dir_text, path@));
                        assert(entries.len() == table@.len());
                        assert(is_blacklisted(path@, entries, dir_text));
                        return Err(ValidationError::Blacklisted(String::from_str(path)));
                    }
                },
            }
            i += 1;
        }
        if lacking {
            Err(ValidationError::NotSafeToDelete(String::from_str(path)))
        } else {
            Ok(())
        }
    }

    /// Rejects an existing path that was modified fewer than the minimum number of days
    /// before `now`.
    pub fn check_age_protection(
        &self,
        path: &str,
        exists: bool,
        modified: &Option<Timestamp>,
        now: &Timestamp,
    ) -> (r: Result<(), ValidationError>)
        ensures
            is_verdict(r, age_verdict(path@, self.min_age(), exists, *modified, *now)),
    {
        if !exists {
            return Ok(());
        }
        match modified {
            None => Err(ValidationError::NotSafeToDelete(String::from_str(path))),
            Some(then) => {
                let age: u64 = then.age_days(now);
                if age < self.min_age_days {
                    Err(ValidationError::TooRecent(String::from_str(path), age))
                } else {
                    Ok(())
                }
            },
        }
    }

    /// Validates one path: returns the path to delete, or the reason not to delete it.
    pub fn sanitize_path(&self, probe: &PathProbe, now: &Timestamp) -> (r: Result<
        String,
        ValidationError,
    >)
        ensures
            is_outcome(r, self.outcome(*probe, *now)),
    {
        let full = match expand_home(probe.path.as_str(), &probe.home) {
            Some(full) => full,
            None => {
                return Err(ValidationError::NotSafeToDelete(probe.path.clone()));
            },
        };
        let path = match &probe.canonical {
            Some(resolved) => resolved.clone(),
            None => {
                if probe.parent_exists {
                    full
                } else {
                    return Err(ValidationError::DoesNotExist(probe.path.clone()));
                }
            },
        };
        assert(candidate(*probe) == Ok::<Seq<char>, Rejection>(path@));
        match self.check_path_traversal(path.as_str()) {
            Err(e) => {
                return Err(e);
            },
            Ok(_) => {},
        }
        match self.check_blacklist(path.as_str(), &probe.home) {
            Err(e) => {
                return Err(e);
            },
            Ok(_) => {},
        }
        if self.enforce_age_protection {
            match self.check_age_protection(path.as_str(), probe.exists, &probe.modified, now) {
                Err(e) => {
                    return Err(e);
                },
                Ok(_) => {},
            }
        }
        Ok(path)
    }

    /// Validates each path in turn and stops at the first that is rejected.
    pub fn sanitize_paths(&self, probes: &Vec<PathProbe>, now: &Timestamp) -> (r: Result<
        Vec<String>,
        ValidationError,
    >)
        ensures
            match r {
                Ok(paths) => {
                    &&& paths@.len() == probes@.len()
                    &&& forall|i: int|
                        0 <= i < probes@.len() ==> self.outcome(#[trigger] probes@[i], *now) == Ok::<
                            Seq<char>,
                            Rejection,
                        >(paths@[i]@)
                },
                Err(e) => exists|k: int|
                    {
                        &&& 0 <= k < probes@.len()
                        &&& self.outcome(#[trigger] probes@[k], *now) == Err::<Seq<char>, Rejection>(e@)
                        &&& forall|i: int| 0 <= i < k ==> self.outcome(#[trigger] probes@[i], *now) is Ok
                    },
            },
    {
        let mut paths: Vec<String> = Vec::new();
        let mut i: usize = 0;
        while i < probes.len()
            invariant
                i <= probes@.len(),
                paths@.len() == i,
                forall|j: int|
                    0 <= j < i ==> self.outcome(#[trigger] probes@[j], *now) == Ok::<
                        Seq<char>,
                        Rejection,
                    >(paths@[j]@),
            decreases probes@.len() - i,
        {
            match self.sanitize_path(&probes[i], now) {
                Ok(path) => {
                    paths.push(path);
                },
                Err(e) => {
                    assert(self.outcome(probes@[i as int], *now) == Err::<Seq<char>, Rejection>(e@));
                    return Err(e);
                },
            }
            i += 1;
        }
        Ok(paths)
    }

    /// Whether validation accepts the path.
    pub fn is_safe_to_delete(&self, probe: &PathProbe, now: &Timestamp) -> (safe: bool)
        ensures
            safe == self.outcome(*probe, *now) is Ok,
    {
        self.sanitize_path(probe, now).is_ok()
    }
}

/// Every blacklist names a directory below the home directory, so that no path is accepted
/// while the home directory is unknown.
pub proof fn lemma_blacklist_needs_home(platform: Platform)
    ensures
        lacks_home(blacklist(platform), None),
{
    reveal_strlit("~/Documents");
    let entry = "~/Documents"@;
    assert(is_home_relative(entry));
    assert(expanded(entry, None) is None);
    match platform {
        Platform::MacOs => {
            assert(blacklist(platform)[28] == entry);
        },
        Platform::Linux => {
            assert(blacklist(platform)[19] == entry);
        },
    }
}

/// A path that is accepted is the path that was judged: the resolved path or, where the path
/// does not resolve, the home-expanded path.
pub proof fn lemma_accepted_path_is_the_candidate(
    sanitizer: PathSanitizer,
    probe: PathProbe,
    now: Timestamp,
)
    requires
        sanitizer.outcome(probe, now) is Ok,
    ensures
        candidate(probe) == sanitizer.outcome(probe, now),
        text_of(probe.home) is Some,
        !has_parent_segment(sanitizer.outcome(probe, now)->Ok_0),
        !is_blacklisted(
            sanitizer.outcome(probe, now)->Ok_0,
            blacklist(sanitizer.tables()),
            text_of(probe.home),
        ),
{
    lemma_blacklist_needs_home(sanitizer.tables());
}

/// Validation is idempotent: validating an accepted path again, as a path that resolves to
/// itself and is otherwise probed as before, accepts it again and returns the same path.
pub proof fn lemma_validation_is_idempotent(
    sanitizer: PathSanitizer,
    probe: PathProbe,
    again: PathProbe,
    now: Timestamp,
)
    requires
        sanitizer.outcome(probe, now) is Ok,
        again.path@ == sanitizer.outcome(probe, now)->Ok_0,
        again.canonical is Some,
        again.canonical->Some_0@ == again.path@,
        text_of(again.home) == text_of(probe.home),
        again.exists == probe.exists,
        again.modified == probe.modified,
    ensures
        sanitizer.outcome(again, now) == sanitizer.outcome(probe, now),
{
    lemma_accepted_path_is_the_candidate(sanitizer, probe, now);
    let path = again.path@;
    assert(expanded(path, text_of(again.home)) is Some);
    assert(candidate(again) == Ok::<Seq<char>, Rejection>(path));
}

/// A path that is a protected directory or lies below one is rejected, whether it is the
/// resolved path or the home-expanded path that stands in for it, and whatever the age
/// settings are.
pub proof fn lemma_blacklisted_is_rejected(
    sanitizer: PathSanitizer,
    probe: PathProbe,
    now: Timestamp,
    i: int,
)
    requires
        candidate(probe) is Ok,
        0 <= i < blacklist(sanitizer.tables()).len(),
        entry_covers(
            blacklist(sanitizer.tables())[i],
            text_of(probe.home),
            candidate(probe)->Ok_0,
        ),
    ensures
        sanitizer.outcome(probe, now) is Err,
        !has_parent_segment(candidate(probe)->Ok_0) ==> sanitizer.outcome(probe, now) == Err::<
            Seq<char>,
            Rejection,
        >(Rejection::Blacklisted(candidate(probe)->Ok_0)),
{
}

/// Whether a path is rejected as blacklisted does not depend on the age settings.
pub proof fn lemma_blacklist_ignores_age_settings(
    first: PathSanitizer,
    second: PathSanitizer,
    probe: PathProbe,
    now: Timestamp,
    path: Seq<char>,
)
    requires
        first.tables() == second.tables(),
        first.outcome(probe, now) == Err::<Seq<char>, Rejection>(Rejection::Blacklisted(path)),
    ensures
        second.outcome(probe, now) == Err::<Seq<char>, Rejection>(Rejection::Blacklisted(path)),
{
}

/// Without age protection a path is accepted whenever it is accepted with it, and then
/// neither its modification time nor the time of day matters.
pub proof fn lemma_age_protection_only_rejects(
    strict: PathSanitizer,
    lenient: PathSanitizer,
    probe: PathProbe,
    now: Timestamp,
)
    requires
        strict.tables() == lenient.tables(),
        !lenient.enforces_age(),
        strict.outcome(probe, now) is Ok,
    ensures
        lenient.outcome(probe, now) == strict.outcome(probe, now),
        forall|other: PathProbe, later: Timestamp|
            other.path == probe.path && other.home == probe.home && other.canonical
                == probe.canonical && other.parent_exists == probe.parent_exists
                ==> #[trigger] lenient.outcome(other, later) == strict.outcome(probe, now),
{
}

/// With the tables of macOS, a path that resolves to `/System` is rejected as blacklisted
/// whatever the age settings, the age of the path and the home directory are.
pub proof fn lemma_system_directory_is_blacklisted(
    sanitizer: PathSanitizer,
    probe: PathProbe,
    now: Timestamp,
)
    requires
        sanitizer.tables() == Platform::MacOs,
        candidate(probe) == Ok::<Seq<char>, Rejection>("/System"@),
    ensures
        sanitizer.outcome(probe, now) == Err::<Seq<char>, Rejection>(
            Rejection::Blacklisted("/System"@),
        ),
{
    reveal_strlit("/System");
    let path = "/System"@;
    assert(!has_parent_segment(path)) by {
        assert forall|i: int| !parent_segment_at(path, i) by {
            if 0 <= i && i + 3 <= path.len() {
                assert(path[i + 1] != '.');
            }
        }
    }
    let table = blacklist(Platform::MacOs);
    assert(table[0] == path);
    assert(!is_home_relative(path));
    assert(!is_home_marker(path));
    assert(entry_covers(table[0], text_of(probe.home), path));
}

} // verus!
