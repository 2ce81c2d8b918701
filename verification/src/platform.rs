//! The tables that differ between operating systems: the directories that are never offered for
//! deletion, and the directories in which each cleanup category looks.

use crate::models::CleanupCategory;
use crate::paths::{join_path, joined};
use vstd::prelude::*;
use vstd::string::StringExecFns;

verus! {

/// The operating system whose tables are used.
#[derive(Debug, Clone, Copy, PartialEq, Eq, Structural)]
pub enum Platform {
    MacOs,
    Linux,
}

/// The texts of a list of strings.
pub open spec fn texts(list: Seq<String>) -> Seq<Seq<char>> {
    list.map_values(|s: String| s@)
}

/// The texts of a list of string literals.
pub open spec fn literal_texts(list: Seq<&'static str>) -> Seq<Seq<char>> {
    list.map_values(|s: &'static str| s@)
}

/// The protected directories of a platform. An entry that starts with `~/` is relative to the
/// home directory.
pub open spec fn blacklist(platform: Platform) -> Seq<Seq<char>> {
    match platform {
        Platform::MacOs => seq![
            "/System"@,
            "/bin"@,
            "/sbin"@,
            "/usr/bin"@,
            "/usr/sbin"@,
            "/usr/lib"@,
            "/usr/libexec"@,
            "/usr/share"@,
            "/etc"@,
            "/dev"@,
            "/var"@,
            "/private/etc"@,
            "/private/var"@,
            "/Library/Apple"@,
            "/Library/Frameworks"@,
            "/Library/Extensions"@,
            "/System/Library"@,
            "/Applications/Utilities"@,
            "/Users"@,
            "/Volumes"@,
            "/Network"@,
            "/cores"@,
            "/boot"@,
            "/.vol"@,
            "/Preboot"@,
            "~/Library/Application Support"@,
            "~/Library/Preferences"@,
            "~/Library/Keychains"@,
            "~/Documents"@,
            "~/Desktop"@,
            "~/Pictures"@,
            "~/Music"@,
            "~/Movies"@,
        ],
        Platform::Linux => seq![
            "/bin"@,
            "/sbin"@,
            "/usr/bin"@,
            "/usr/sbin"@,
            "/usr/lib"@,
            "/usr/lib64"@,
            "/usr/libexec"@,
            "/usr/share"@,
            "/lib"@,
            "/lib64"@,
            "/etc"@,
            "/dev"@,
            "/proc"@,
            "/sys"@,
            "/boot"@,
            "/root"@,
            "/var/lib"@,
            "/var/log/journal"@,
            "/home"@,
            "~/Documents"@,
            "~/Desktop"@,
            "~/Pictures"@,
            "~/Music"@,
            "~/Videos"@,
            "~/Downloads"@,
        ],
    }
}

/// The protected directories of a platform.
pub fn blacklisted_paths(platform: Platform) -> (table: Vec<&'static str>)
    ensures
        literal_texts(table@) == blacklist(platform),
{
    let table: Vec<&'static str> = match platform {
        Platform::MacOs => vec![
            "/System",
            "/bin",
            "/sbin",
            "/usr/bin",
            "/usr/sbin",
            "/usr/lib",
            "/usr/libexec",
            "/usr/share",
            "/etc",
            "/dev",
            "/var",
            "/private/etc",
            "/private/var",
            "/Library/Apple",
            "/Library/Frameworks",
            "/Library/Extensions",
            "/System/Library",
            "/Applications/Utilities",
            "/Users",
            "/Volumes",
            "/Network",
            "/cores",
            "/boot",
            "/.vol",
            "/Preboot",
            "~/Library/Application Support",
            "~/Library/Preferences",
            "~/Library/Keychains",
            "~/Documents",
            "~/Desktop",
            "~/Pictures",
            "~/Music",
            "~/Movies",
        ],
        Platform::Linux => vec![
            "/bin",
            "/sbin",
            "/usr/bin",
            "/usr/sbin",
            "/usr/lib",
            "/usr/lib64",
            "/usr/libexec",
            "/usr/share",
            "/lib",
            "/lib64",
            "/etc",
            "/dev",
            "/proc",
            "/sys",
            "/boot",
            "/root",
            "/var/lib",
            "/var/log/journal",
            "/home",
            "~/Documents",
            "~/Desktop",
            "~/Pictures",
            "~/Music",
            "~/Videos",
            "~/Downloads",
        ],
    };
    assert(literal_texts(table@) =~= blacklist(platform));
    table
}

/// The directories of a platform that hold what can be cleaned. An entry that starts with `~/`
/// is relative to the home directory.
pub open spec fn whitelist(platform: Platform) -> Seq<Seq<char>> {
    match platform {
        Platform::MacOs => seq![
            "/Library/Caches"@,
            "/System/Library/Caches"@,
            "~/Library/Caches"@,
            "~/Library/Logs"@,
            "/Library/Logs"@,
            "~/Downloads"@,
            "~/.Trash"@,
            "/private/var/folders"@,
            "/private/var/log"@,
        ],
        Platform::Linux => seq![
            "/var/cache"@,
            "/var/tmp"@,
            "/tmp"@,
            "~/.cache"@,
            "~/.local/share/Trash"@,
            "~/Downloads"@,
            "/var/log"@,
        ],
    }
}

/// The directories of a platform that hold what can be cleaned.
pub fn whitelisted_paths(platform: Platform) -> (table: Vec<&'static str>)
    ensures
        literal_texts(table@) == whitelist(platform),
{
    let table: Vec<&'static str> = match platform {
        Platform::MacOs => vec![
            "/Library/Caches",
            "/System/Library/Caches",
            "~/Library/Caches",
            "~/Library/Logs",
            "/Library/Logs",
            "~/Downloads",
            "~/.Trash",
            "/private/var/folders",
            "/private/var/log",
        ],
        Platform::Linux => vec![
            "/var/cache",
            "/var/tmp",
            "/tmp",
            "~/.cache",
            "~/.local/share/Trash",
            "~/Downloads",
            "/var/log",
        ],
    };
    assert(literal_texts(table@) =~= whitelist(platform));
    table
}

/// The cache directories of developer tools, on every platform, relative to the home
/// directory.
pub open spec fn developer_caches() -> Seq<Seq<char>> {
    seq![
        "~/.npm"@,
        "~/.yarn"@,
        "~/.cargo/registry"@,
        "~/.cargo/git"@,
        "~/.gradle/caches"@,
        "~/.m2/repository"@,
        "~/.pub-cache"@,
        "~/Library/Developer/Xcode/DerivedData"@,
        "~/Library/Developer/CoreSimulator/Caches"@,
        "~/.rustup/toolchains"@,
        "~/.cache/pip"@,
        "~/.cache/yarn"@,
        "~/.cache/go-build"@,
    ]
}

/// The cache directories of developer tools.
pub fn developer_cache_paths() -> (table: Vec<&'static str>)
    ensures
        literal_texts(table@) == developer_caches(),
{
    let table: Vec<&'static str> = vec![
        "~/.npm",
        "~/.yarn",
        "~/.cargo/registry",
        "~/.cargo/git",
        "~/.gradle/caches",
        "~/.m2/repository",
        "~/.pub-cache",
        "~/Library/Developer/Xcode/DerivedData",
        "~/Library/Developer/CoreSimulator/Caches",
        "~/.rustup/toolchains",
        "~/.cache/pip",
        "~/.cache/yarn",
        "~/.cache/go-build",
    ];
    assert(literal_texts(table@) =~= developer_caches());
    table
}

/// The directories of a category that do not depend on the user.
pub open spec fn fixed_roots(platform: Platform, category: CleanupCategory) -> Seq<Seq<char>> {
    match (platform, category) {
        (Platform::MacOs, CleanupCategory::SystemCaches) => seq![
            "/Library/Caches"@,
            "/System/Library/Caches"@,
        ],
        (Platform::MacOs, CleanupCategory::Logs) => seq!["/Library/Logs"@, "/private/var/log"@],
        (Platform::Linux, CleanupCategory::SystemCaches) => seq!["/var/cache"@],
        (Platform::Linux, CleanupCategory::Logs) => seq!["/var/log"@],
        _ => Seq::empty(),
    }
}

/// The directories of a category below the home directory, relative to it.
pub open spec fn home_roots(platform: Platform, category: CleanupCategory) -> Seq<Seq<char>> {
    match (platform, category) {
        (Platform::MacOs, CleanupCategory::UserCaches) => seq!["Library/Caches"@],
        (Platform::MacOs, CleanupCategory::Logs) => seq!["Library/Logs"@],
        (Platform::MacOs, CleanupCategory::Trash) => seq![".Trash"@],
        (Platform::MacOs, CleanupCategory::Downloads) => seq!["Downloads"@],
        (Platform::MacOs, CleanupCategory::DeveloperCaches) => seq![
            ".npm"@,
            ".yarn"@,
            ".cargo/registry"@,
            ".gradle/caches"@,
            "Library/Developer/Xcode/DerivedData"@,
            "Library/Developer/CoreSimulator/Caches"@,
        ],
        (Platform::MacOs, CleanupCategory::BrowserData) => seq![
            "Library/Caches/Google/Chrome"@,
            "Library/Caches/Firefox"@,
            "Library/Safari"@,
        ],
        (Platform::MacOs, CleanupCategory::ApplicationSupport) => seq![
            "Library/Application Support"@,
        ],
        (Platform::Linux, CleanupCategory::UserCaches) => seq![".cache"@],
        (Platform::Linux, CleanupCategory::Trash) => seq![".local/share/Trash"@],
        (Platform::Linux, CleanupCategory::Downloads) => seq!["Downloads"@],
        (Platform::Linux, CleanupCategory::DeveloperCaches) => seq![
            ".npm"@,
            ".yarn"@,
            ".cargo/registry"@,
            ".gradle/caches"@,
            ".cache/pip"@,
        ],
        (Platform::Linux, CleanupCategory::BrowserData) => seq![
            ".cache/google-chrome"@,
            ".mozilla/firefox"@,
            ".cache/chromium"@,
        ],
        _ => Seq::empty(),
    }
}

/// The common user directories below the home directory that are scanned when no category
/// yields anything, relative to the home directory.
pub open spec fn fallback_roots() -> Seq<Seq<char>> {
    seq!["Downloads"@, "Documents"@, "Desktop"@]
}

/// The directories that are scanned when no category yields anything: the common user
/// directories and then the home directory itself; none where the home directory is unknown.
pub open spec fn fallback_dirs(home: Option<Seq<char>>) -> Seq<Seq<char>> {
    match home {
        Some(dir) => below(dir, fallback_roots()).push(dir),
        None => Seq::empty(),
    }
}

/// Each of `names` adjoined to `home`.
pub open spec fn below(home: Seq<char>, names: Seq<Seq<char>>) -> Seq<Seq<char>> {
    Seq::new(names.len(), |i: int| joined(home, names[i]))
}

/// The directories in which a category looks: the fixed ones, then, where the home directory
/// is known, those below it.
pub open spec fn category_roots(
    platform: Platform,
    category: CleanupCategory,
    home: Option<Seq<char>>,
) -> Seq<Seq<char>> {
    fixed_roots(platform, category) + match home {
        Some(dir) => below(dir, home_roots(platform, category)),
        None => Seq::empty(),
    }
}

/// The text of a home directory that may be unknown.
pub open spec fn text_of(home: Option<String>) -> Option<Seq<char>> {
    match home {
        Some(dir) => Some(dir@),
        None => None,
    }
}

fn fixed_root_names(platform: Platform, category: CleanupCategory) -> (names: Vec<&'static str>)
    ensures
        literal_texts(names@) == fixed_roots(platform, category),
{
    let names: Vec<&'static str> = match (platform, category) {
        (Platform::MacOs, CleanupCategory::SystemCaches) => vec![
            "/Library/Caches",
            "/System/Library/Caches",
        ],
        (Platform::MacOs, CleanupCategory::Logs) => vec!["/Library/Logs", "/private/var/log"],
        (Platform::Linux, CleanupCategory::SystemCaches) => vec!["/var/cache"],
        (Platform::Linux, CleanupCategory::Logs) => vec!["/var/log"],
        _ => Vec::new(),
    };
    assert(literal_texts(names@) =~= fixed_roots(platform, category));
    names
}

fn home_root_names(platform: Platform, category: CleanupCategory) -> (names: Vec<&'static str>)
    ensures
        literal_texts(names@) == home_roots(platform, category),
{
    let names: Vec<&'static str> = match (platform, category) {
        (Platform::MacOs, CleanupCategory::UserCaches) => vec!["Library/Caches"],
        (Platform::MacOs, CleanupCategory::Logs) => vec!["Library/Logs"],
        (Platform::MacOs, CleanupCategory::Trash) => vec![".Trash"],
        (Platform::MacOs, CleanupCategory::Downloads) => vec!["Downloads"],
        (Platform::MacOs, CleanupCategory::DeveloperCaches) => vec![
            ".npm",
            ".yarn",
            ".cargo/registry",
            ".gradle/caches",
            "Library/Developer/Xcode/DerivedData",
            "Library/Developer/CoreSimulator/Caches",
        ],
        (Platform::MacOs, CleanupCategory::BrowserData) => vec![
            "Library/Caches/Google/Chrome",
            "Library/Caches/Firefox",
            "Library/Safari",
        ],
        (Platform::MacOs, CleanupCategory::ApplicationSupport) => vec![
            "Library/Application Support",
        ],
        (Platform::Linux, CleanupCategory::UserCaches) => vec![".cache"],
        (Platform::Linux, CleanupCategory::Trash) => vec![".local/share/Trash"],
        (Platform::Linux, CleanupCategory::Downloads) => vec!["Downloads"],
        (Platform::Linux, CleanupCategory::DeveloperCaches) => vec![
            ".npm",
            ".yarn",
            ".cargo/registry",
            ".gradle/caches",
            ".cache/pip",
        ],
        (Platform::Linux, CleanupCategory::BrowserData) => vec![
            ".cache/google-chrome",
            ".mozilla/firefox",
            ".cache/chromium",
        ],
        _ => Vec::new(),
    };
    assert(literal_texts(names@) =~= home_roots(platform, category));
    names
}

/// Appends each of `names`, adjoined to `home`, to `roots`.
fn push_below(roots: &mut Vec<String>, home: &str, names: &Vec<&'static str>)
    ensures
        texts(final(roots)@) == texts(old(roots)@) + below(home@, literal_texts(names@)),
{
    let ghost before = texts(roots@);
    let ghost all = literal_texts(names@);
    let mut i: usize = 0;
    while i < names.len()
        invariant
            i <= names@.len(),
            all == literal_texts(names@),
            texts(roots@) == before + below(home@, all.take(i as int)),
        decreases names@.len() - i,
    {
        let full = join_path(home, names[i]);
        let ghost prior = roots@;
        roots.push(full);
        proof {
            let j = i as int;
            assert(all[j] == names@[j]@);
            assert(texts(roots@) =~= texts(prior).push(full@));
            assert(below(home@, all.take(j + 1)) =~= below(home@, all.take(j)).push(full@));
            assert(texts(roots@) =~= before + below(home@, all.take(j + 1)));
        }
        i += 1;
    }
    assert(all.take(i as int) =~= all);
}

/// The directories in which a category looks.
pub fn category_paths(platform: Platform, category: CleanupCategory, home: &Option<String>) -> (roots:
    Vec<String>)
    ensures
        texts(roots@) == category_roots(platform, category, text_of(*home)),
{
    let fixed = fixed_root_names(platform, category);
    let mut roots: Vec<String> = Vec::new();
    let mut i: usize = 0;
    while i < fixed.len()
        invariant
            i <= fixed@.len(),
            texts(roots@) == literal_texts(fixed@).take(i as int),
        decreases fixed@.len() - i,
    {
        let ghost prior = roots@;
        roots.push(String::from_str(fixed[i]));
        proof {
            let j = i as int;
            assert(texts(roots@) =~= texts(prior).push(fixed@[j]@));
            assert(literal_texts(fixed@).take(j + 1) =~= literal_texts(fixed@).take(j).push(
                fixed@[j]@,
            ));
        }
        i += 1;
    }
    assert(literal_texts(fixed@).take(i as int) =~= literal_texts(fixed@));
    match home {
        Some(dir) => {
            let names = home_root_names(platform, category);
            push_below(&mut roots, dir.as_str(), &names);
        },
        None => {
            assert(texts(roots@) =~= texts(roots@) + Seq::<Seq<char>>::empty());
        },
    }
    roots
}

/// The directories that are scanned when no category yields anything.
pub fn fallback_paths(home: &Option<String>) -> (roots: Vec<String>)
    ensures
        texts(roots@) == fallback_dirs(text_of(*home)),
{
    let mut roots: Vec<String> = Vec::new();
    match home {
        Some(dir) => {
            let names: Vec<&'static str> = vec!["Downloads", "Documents", "Desktop"];
            assert(literal_texts(names@) =~= fallback_roots());
            push_below(&mut roots, dir.as_str(), &names);
            let ghost prior = roots@;
            roots.push(dir.clone());
            assert(texts(roots@) =~= texts(prior).push(dir@));
            assert(texts(prior) =~= below(dir@, fallback_roots()));
        },
        None => {
            assert(texts(roots@) =~= Seq::<Seq<char>>::empty());
        },
    }
    roots
}

} // verus!
