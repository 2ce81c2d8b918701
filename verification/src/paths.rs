//! Paths as text.
//!
//! The library never touches the file system. A path is a string as the caller got it from the
//! operating system, with `/` between components; this module holds the few operations on such
//! strings that the scanners and the validator share.

use vstd::prelude::*;
use vstd::string::StringExecFns;

verus! {

/// The marker that stands for the home directory at the start of a path.
pub open spec fn home_marker() -> char {
    '~'
}

/// The character between the components of a path.
pub open spec fn separator() -> char {
    '/'
}

/// `rel` adjoined to `base`: an absolute `rel` replaces `base`; otherwise a separator is put
/// between the two unless `base` is empty or already ends in one.
pub open spec fn joined(base: Seq<char>, rel: Seq<char>) -> Seq<char> {
    if rel.len() > 0 && rel[0] == separator() {
        rel
    } else if base.len() > 0 && base.last() != separator() {
        base + seq![separator()] + rel
    } else {
        base + rel
    }
}

/// Whether `path` is the directory `dir` itself or lies below it.
pub open spec fn is_under(path: Seq<char>, dir: Seq<char>) -> bool {
    path == dir || (dir + seq![separator()]).is_prefix_of(path)
}

/// Whether `path` holds a parent-directory segment behind a separator: `/..` at its end or in
/// front of another separator.
pub open spec fn has_parent_segment(path: Seq<char>) -> bool {
    exists|i: int| parent_segment_at(path, i)
}

/// Whether the parent-directory segment `/..` starts at index `i` of `path`.
pub open spec fn parent_segment_at(path: Seq<char>, i: int) -> bool {
    &&& 0 <= i
    &&& i + 3 <= path.len()
    &&& path[i] == separator()
    &&& path[i + 1] == '.'
    &&& path[i + 2] == '.'
    &&& (i + 3 == path.len() || path[i + 3] == separator())
}

/// Whether `path` starts with the home marker followed by a separator.
pub open spec fn is_home_relative(path: Seq<char>) -> bool {
    path.len() >= 2 && path[0] == home_marker() && path[1] == separator()
}

/// Whether `path` is the home marker alone.
pub open spec fn is_home_marker(path: Seq<char>) -> bool {
    path == seq![home_marker()]
}

/// Whether the name starts with the marker of a hidden entry, a dot.
pub open spec fn is_hidden_name(name: Seq<char>) -> bool {
    name.len() > 0 && name[0] == '.'
}

/// The characters of `s`, in order.
pub fn chars_of(s: &str) -> (v: Vec<char>)
    ensures
        v@ == s@,
{
    let mut v: Vec<char> = Vec::new();
    for c in it: s.chars()
        invariant
            v@ == it.seq().take(it.index() as int),
            it.seq() == s@,
    {
        v.push(c);
    }
    v
}

/// Whether two lists of characters are the same.
pub fn same_chars(first: &Vec<char>, second: &Vec<char>) -> (same: bool)
    ensures
        same == (first@ == second@),
{
    if first.len() != second.len() {
        return false;
    }
    let mut i: usize = 0;
    while i < first.len()
        invariant
            i <= first@.len(),
            first@.len() == second@.len(),
            forall|j: int| 0 <= j < i ==> first@[j] == second@[j],
        decreases first@.len() - i,
    {
        if first[i] != second[i] {
            return false;
        }
        i += 1;
    }
    assert(first@ =~= second@);
    true
}

/// Whether `text` is one of the texts of the list.
pub fn is_listed(list: &Vec<&'static str>, text: &str) -> (listed: bool)
    ensures
        listed == exists|i: int| 0 <= i < list@.len() && (#[trigger] list@[i])@ == text@,
{
    let chars = chars_of(text);
    let mut i: usize = 0;
    while i < list.len()
        invariant
            i <= list@.len(),
            chars@ == text@,
            forall|j: int| 0 <= j < i ==> (#[trigger] list@[j])@ != text@,
        decreases list@.len() - i,
    {
        let entry = chars_of(list[i]);
        if same_chars(&entry, &chars) {
            return true;
        }
        i += 1;
    }
    false
}

/// Whether `path` is `dir` or lies below it.
pub fn lies_under(path: &Vec<char>, dir: &Vec<char>) -> (b: bool)
    ensures
        b == is_under(path@, dir@),
{
    let n: usize = dir.len();
    if path.len() < n {
        assert(!is_under(path@, dir@)) by {
            if (dir@ + seq![separator()]).is_prefix_of(path@) {
                assert(false);
            }
        }
        return false;
    }
    let mut i: usize = 0;
    while i < n
        invariant
            n == dir@.len(),
            n <= path@.len(),
            i <= n,
            forall|j: int| 0 <= j < i ==> path@[j] == dir@[j],
        decreases n - i,
    {
        if path[i] != dir[i] {
            assert(!is_under(path@, dir@)) by {
                let ext = dir@ + seq![separator()];
                if ext.is_prefix_of(path@) {
                    assert(ext[i as int] == dir@[i as int]);
                    assert(path@[i as int] == ext[i as int]);
                }
            }
            return false;
        }
        i += 1;
    }
    if path.len() == n {
        assert(path@ =~= dir@);
        return true;
    }
    let below = path[n] == '/';
    proof {
        let ext = dir@ + seq![separator()];
        if below {
            assert(ext.is_prefix_of(path@)) by {
                assert forall|j: int| 0 <= j < ext.len() implies ext[j] == path@[j] by {
                    if j < n {
                        assert(ext[j] == dir@[j]);
                    }
                }
                assert(ext =~= path@.subrange(0, ext.len() as int));
            }
        } else {
            if ext.is_prefix_of(path@) {
                assert(path@[n as int] == ext[n as int]);
            }
        }
    }
    below
}

/// Whether `path` holds a parent-directory segment behind a separator.
pub fn holds_parent_segment(path: &Vec<char>) -> (b: bool)
    ensures
        b == has_parent_segment(path@),
{
    let n: usize = path.len();
    if n < 3 {
        return false;
    }
    let mut i: usize = 0;
    while i <= n - 3
        invariant
            n == path@.len(),
            n >= 3,
            forall|j: int| 0 <= j < i ==> !parent_segment_at(path@, j),
        decreases n - i,
    {
        if path[i] == '/' && path[i + 1] == '.' && path[i + 2] == '.' && (i + 3 == n || path[i
            + 3] == '/') {
            assert(parent_segment_at(path@, i as int));
            return true;
        }
        i += 1;
    }
    false
}

/// Adjoins `rel` to `base`.
pub fn join_path(base: &str, rel: &str) -> (out: String)
    ensures
        out@ == joined(base@, rel@),
{
    let rel_len: usize = rel.unicode_len();
    if rel_len > 0 && rel.get_char(0) == '/' {
        return String::from_str(rel);
    }
    let base_len: usize = base.unicode_len();
    let mut out = String::from_str(base);
    if base_len > 0 && base.get_char(base_len - 1) != '/' {
        proof {
            reveal_strlit("/");
            assert("/"@ =~= seq![separator()]);
        }
        out.append("/");
    }
    out.append(rel);
    out
}

/// What `std::path::Path::file_name` gives for a path on the platform that the library is
/// built for: its last component, if it has one.
pub uninterp spec fn file_name_in(path: Seq<char>) -> Option<Seq<char>>;

/// What `std::path::Path::parent` gives for a path on the platform that the library is built
/// for: the path without its last component, if there is one.
pub uninterp spec fn parent_in(path: Seq<char>) -> Option<Seq<char>>;

/// Calls `std::path::Path::file_name`. Nothing is claimed of the result but that it is
/// determined by the text of the path.
#[verifier::external_body]
pub(crate) fn file_name_of(path: &str) -> (name: Option<String>)
    ensures
        name is Some == file_name_in(path@) is Some,
        name is Some ==> name->Some_0@ == file_name_in(path@)->Some_0,
{
    match std::path::Path::new(path).file_name() {
        Some(name) => match name.to_str() {
            Some(text) => Some(text.to_string()),
            None => None,
        },
        None => None,
    }
}

/// Calls `std::path::Path::parent`. Nothing is claimed of the result but that it is determined
/// by the text of the path.
#[verifier::external_body]
pub(crate) fn parent_of(path: &str) -> (parent: Option<String>)
    ensures
        parent is Some == parent_in(path@) is Some,
        parent is Some ==> parent->Some_0@ == parent_in(path@)->Some_0,
{
    match std::path::Path::new(path).parent() {
        Some(dir) => match dir.to_str() {
            Some(text) => Some(text.to_string()),
            None => None,
        },
        None => None,
    }
}

/// Calls `dirs::home_dir`, which reads the environment of the process. Nothing is claimed of
/// the result: a home directory that is not valid UTF-8 counts as unknown.
#[verifier::external_body]
pub(crate) fn home_dir_text() -> (home: Option<String>) {
    match dirs::home_dir() {
        Some(dir) => match dir.to_str() {
            Some(text) => Some(text.to_string()),
            None => None,
        },
        None => None,
    }
}

/// The scan root for a caller that names none: the home directory, or `/` when it is unknown.
pub open spec fn default_root(home: Option<Seq<char>>) -> Seq<char> {
    match home {
        Some(dir) => dir,
        None => seq![separator()],
    }
}

/// The scan root for a caller that names none, given the home directory.
pub fn default_scan_path(home: Option<String>) -> (root: String)
    ensures
        root@ == default_root(
            match home {
                Some(dir) => Some(dir@),
                None => None,
            },
        ),
{
    match home {
        Some(dir) => dir,
        None => {
            proof {
                reveal_strlit("/");
                assert("/"@ =~= seq![separator()]);
            }
            String::from_str("/")
        },
    }
}

/// The home directory of the user who runs the process, if the environment tells it.
pub fn home_directory() -> (home: Option<String>) {
    home_dir_text()
}

} // verus!
