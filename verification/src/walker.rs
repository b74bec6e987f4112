//! The file walker's decisions: whether a root is walked, which directory
//! entries are descended into or collected, that a directory is visited
//! once, and the order of the files found. Listing directories is the
//! caller's.
use vstd::prelude::*;

use crate::gitignore::{holds_path, Allowed};
use crate::lang::{detect, detected};
use crate::model::view_strings;
use crate::paths::{file_name, path_eq, path_file_name, path_less, path_lt, same_path};
use crate::text::str_eq;

verus! {

/// Directory names never descended into.
pub open spec fn always_ignored(name: Seq<char>) -> bool {
    name == ".git"@ || name == ".code-seek"@
}

/// What is done with the root of a walk.
#[derive(PartialEq, Eq, Structural, Clone, Copy, Debug)]
pub enum RootAction {
    /// Nothing is found: a symbolic link not followed, or a file of no
    /// known language.
    Nothing,
    /// The root is a file of a known language: it is the one file found.
    Single,
    /// The root is a directory: it is walked.
    Walk,
}

/// What is done with the root of a walk.
pub open spec fn root_decision(root: Seq<char>, is_symlink: bool, is_file: bool, follow_symlinks: bool) -> RootAction {
    if !follow_symlinks && is_symlink {
        RootAction::Nothing
    } else if is_file {
        if detected(root) is Some {
            RootAction::Single
        } else {
            RootAction::Nothing
        }
    } else {
        RootAction::Walk
    }
}

/// Decides what is done with the root of a walk. A root named explicitly
/// is scanned whether or not git would show it.
pub fn root_action(root: &str, is_symlink: bool, is_file: bool, follow_symlinks: bool) -> (r: RootAction)
    ensures
        r == root_decision(root@, is_symlink, is_file, follow_symlinks),
{
    if !follow_symlinks && is_symlink {
        RootAction::Nothing
    } else if is_file {
        if detect(root).is_some() {
            RootAction::Single
        } else {
            RootAction::Nothing
        }
    } else {
        RootAction::Walk
    }
}

/// What is done with one entry of a directory.
#[derive(PartialEq, Eq, Structural, Clone, Copy, Debug)]
pub enum EntryAction {
    Skip,
    Descend,
    Collect,
}

/// The view of an optional git verdict.
pub open spec fn verdict_view(allowed: Option<&Allowed>) -> Option<(Seq<Seq<char>>, Seq<Seq<char>>)> {
    match allowed {
        Some(a) => Some(a@),
        None => None,
    }
}

/// What is done with a directory entry: symbolic links are skipped unless
/// followed; a directory is descended into unless its name is always
/// ignored, listed in `ignore_dirs`, or hidden by git; a file of a known
/// language is collected unless git hides it; anything else is skipped.
pub open spec fn entry_decision(
    path: Seq<char>,
    is_symlink: bool,
    is_dir: bool,
    ignore_dirs: Seq<Seq<char>>,
    follow_symlinks: bool,
    allowed: Option<(Seq<Seq<char>>, Seq<Seq<char>>)>,
) -> EntryAction {
    if !follow_symlinks && is_symlink {
        EntryAction::Skip
    } else if is_dir {
        let name = match path_file_name(path) {
            Some(n) => n,
            None => Seq::empty(),
        };
        if always_ignored(name) || ignore_dirs.contains(name) {
            EntryAction::Skip
        } else if allowed matches Some(a) && !holds_path(a.1, path) {
            EntryAction::Skip
        } else {
            EntryAction::Descend
        }
    } else if detected(path) is Some {
        if allowed matches Some(a) && !holds_path(a.0, path) {
            EntryAction::Skip
        } else {
            EntryAction::Collect
        }
    } else {
        EntryAction::Skip
    }
}

fn listed(names: &Vec<String>, name: &str) -> (r: bool)
    ensures
        r == view_strings(names@).contains(name@),
{
    let ghost ns = view_strings(names@);
    let mut i: usize = 0;
    while i < names.len()
        invariant
            i <= names@.len(),
            ns == view_strings(names@),
            forall|k: int| 0 <= k < i ==> ns[k] != name@,
        decreases names.len() - i,
    {
        assert(ns[i as int] == names@[i as int]@);
        if str_eq(names[i].as_str(), name) {
            return true;
        }
        i += 1;
    }
    false
}

/// Decides what is done with one directory entry.
pub fn entry_action(
    path: &str,
    is_symlink: bool,
    is_dir: bool,
    ignore_dirs: &Vec<String>,
    follow_symlinks: bool,
    allowed: Option<&Allowed>,
) -> (r: EntryAction)
    ensures
        r == entry_decision(path@, is_symlink, is_dir, view_strings(ignore_dirs@), follow_symlinks, verdict_view(allowed)),
{
    if !follow_symlinks && is_symlink {
        return EntryAction::Skip;
    }
    if is_dir {
        let name = match file_name(path) {
            Some(n) => n,
            None => String::new(),
        };
        assert(name@ == match path_file_name(path@) {
            Some(n) => n,
            None => Seq::<char>::empty(),
        });
        if str_eq(name.as_str(), ".git") || str_eq(name.as_str(), ".code-seek") || listed(ignore_dirs, name.as_str()) {
            return EntryAction::Skip;
        }
        match allowed {
            Some(a) => if !a.allows_directory(path) {
                return EntryAction::Skip;
            },
            None => {},
        }
        EntryAction::Descend
    } else if detect(path).is_some() {
        match allowed {
            Some(a) => if !a.allows_file(path) {
                return EntryAction::Skip;
            },
            None => {},
        }
        EntryAction::Collect
    } else {
        EntryAction::Skip
    }
}

/// Records a directory as visited, by its resolved path; false when it was
/// visited before, so that a cycle of links is walked once.
pub fn first_visit(visited: &mut Vec<String>, resolved: String) -> (r: bool)
    ensures
        r == !holds_path(view_strings(old(visited)@), resolved@),
        r ==> view_strings(final(visited)@) == view_strings(old(visited)@).push(resolved@),
        !r ==> final(visited)@ == old(visited)@,
{
    let ghost vs = view_strings(visited@);
    let mut i: usize = 0;
    while i < visited.len()
        invariant
            i <= visited@.len(),
            vs == view_strings(visited@),
            forall|k: int| 0 <= k < i ==> !path_eq(#[trigger] vs[k], resolved@),
        decreases visited.len() - i,
    {
        assert(vs[i as int] == visited@[i as int]@);
        if same_path(visited[i].as_str(), resolved.as_str()) {
            return false;
        }
        i += 1;
    }
    let ghost before = visited@;
    visited.push(resolved);
    assert(view_strings(visited@) =~= view_strings(before).push(visited@.last()@));
    true
}

// ── The order of files ───────────────────────────────────────────────────────

/// `x` inserted after every path of `s` that does not sort after it.
pub open spec fn insert_path(s: Seq<Seq<char>>, x: Seq<char>) -> Seq<Seq<char>>
    decreases s.len(),
{
    if s.len() == 0 || !path_lt(x, s.last()) {
        s.push(x)
    } else {
        insert_path(s.drop_last(), x).push(s.last())
    }
}

/// Paths in path order (`slice::sort`, which is stable).
pub open spec fn sorted_paths(s: Seq<Seq<char>>) -> Seq<Seq<char>>
    decreases s.len(),
{
    if s.len() == 0 {
        s
    } else {
        insert_path(sorted_paths(s.drop_last()), s.last())
    }
}

proof fn lemma_insert_path_at(s: Seq<Seq<char>>, x: Seq<char>, j: int)
    requires
        0 <= j <= s.len(),
        forall|k: int| j <= k < s.len() ==> path_lt(x, #[trigger] s[k]),
        j == 0 || !path_lt(x, s[j - 1]),
    ensures
        insert_path(s, x) == s.take(j) + seq![x] + s.skip(j),
    decreases s.len(),
{
    if j == s.len() {
        assert(s.take(j) =~= s);
        assert(s.skip(j) =~= Seq::<Seq<char>>::empty());
        assert(s.take(j) + seq![x] + s.skip(j) =~= s.push(x));
    } else {
        let t = s.drop_last();
        assert forall|k: int| j <= k < t.len() implies path_lt(x, #[trigger] t[k]) by {
            assert(t[k] == s[k]);
        }
        if j > 0 {
            assert(t[j - 1] == s[j - 1]);
        }
        lemma_insert_path_at(t, x, j);
        assert(s.take(j) + seq![x] + s.skip(j) =~= (t.take(j) + seq![x] + t.skip(j)).push(s.last()));
    }
}

/// Sorts the files found, in path order.
pub fn sort_paths(files: Vec<String>) -> (r: Vec<String>)
    ensures
        view_strings(r@) == sorted_paths(view_strings(files@)),
{
    let ghost src = view_strings(files@);
    let mut rest = files;
    let n = rest.len();
    let ghost total = n as nat;
    let mut out: Vec<String> = Vec::new();
    let mut i: usize = 0;
    while rest.len() > 0
        invariant
            src.len() == total,
            total <= usize::MAX,
            i + rest@.len() == total,
            forall|k: int| 0 <= k < rest@.len() ==> (#[trigger] rest@[k])@ == src[i + k],
            view_strings(out@) == sorted_paths(src.take(i as int)),
        decreases rest.len(),
    {
        let x = rest.remove(0);
        let ghost sorted = view_strings(out@);
        let mut j = out.len();
        while j > 0 && path_less(x.as_str(), out[j - 1].as_str())
            invariant
                j <= out@.len(),
                sorted == view_strings(out@),
                forall|k: int| j <= k < sorted.len() ==> path_lt(x@, #[trigger] sorted[k]),
            decreases j,
        {
            assert(sorted[j - 1] == out@[j - 1]@);
            j -= 1;
        }
        proof {
            if j > 0 {
                assert(sorted[j - 1] == out@[j - 1]@);
            }
            lemma_insert_path_at(sorted, x@, j as int);
            assert(src.take(i + 1).drop_last() =~= src.take(i as int));
            assert(src.take(i + 1).last() == x@);
        }
        let ghost before = out@;
        out.insert(j, x);
        proof {
            assert(view_strings(out@) =~= sorted.take(j as int) + seq![x@] + sorted.skip(j as int));
        }
        i += 1;
    }
    proof {
        assert(src.take(total as int) =~= src);
    }
    out
}

} // verus!
