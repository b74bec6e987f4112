//! Which paths git would show under a scan root, read from
//! `git ls-files --cached --others --exclude-standard -z`; scan hides what
//! git hides.
use vstd::prelude::*;

use crate::paths::{join, parent, path_eq, path_join, path_parent, same_path};

verus! {

/// What the UTF-8 decoding of some bytes gives: their text, or none when
/// they are not UTF-8.
pub uninterp spec fn utf8_decoded(bytes: Seq<u8>) -> Option<Seq<char>>;

/// `std::str::from_utf8`: the text of the bytes, or none when they are not
/// valid UTF-8. The result is named `utf8_decoded`.
#[verifier::external_body]
fn decode(bytes: &[u8]) -> (r: Option<String>)
    ensures
        r matches Some(s) ==> utf8_decoded(bytes@) == Some(s@),
        r is None ==> utf8_decoded(bytes@) is None,
{
    std::str::from_utf8(bytes).ok().map(str::to_owned)
}

/// Some path of `ps` is the same path as `p`.
pub open spec fn holds_path(ps: Seq<Seq<char>>, p: Seq<char>) -> bool {
    exists|i: int| 0 <= i < ps.len() && path_eq(#[trigger] ps[i], p)
}

/// The paths git shows: files, and every directory holding one of them.
pub struct Allowed {
    files: Vec<String>,
    directories: Vec<String>,
}

impl View for Allowed {
    type V = (Seq<Seq<char>>, Seq<Seq<char>>);

    closed spec fn view(&self) -> (Seq<Seq<char>>, Seq<Seq<char>>) {
        (crate::model::view_strings(self.files@), crate::model::view_strings(self.directories@))
    }
}

fn holds(ps: &Vec<String>, p: &str) -> (r: bool)
    ensures
        r == holds_path(crate::model::view_strings(ps@), p@),
{
    let ghost vs = crate::model::view_strings(ps@);
    let mut i: usize = 0;
    while i < ps.len()
        invariant
            i <= ps@.len(),
            vs == crate::model::view_strings(ps@),
            forall|k: int| 0 <= k < i ==> !path_eq(#[trigger] vs[k], p@),
        decreases ps.len() - i,
    {
        assert(vs[i as int] == ps@[i as int]@);
        if same_path(ps[i].as_str(), p) {
            return true;
        }
        i += 1;
    }
    false
}

impl Allowed {
    /// Whether git shows the file.
    pub fn allows_file(&self, path: &str) -> (r: bool)
        ensures
            r == holds_path(self@.0, path@),
    {
        holds(&self.files, path)
    }

    /// Whether the directory holds a file git shows, so that a directory
    /// with nothing visible is pruned rather than descended into.
    pub fn allows_directory(&self, path: &str) -> (r: bool)
        ensures
            r == holds_path(self@.1, path@),
    {
        holds(&self.directories, path)
    }
}

/// The directories above `p` added to `dirs`, nearest first, stopping at
/// the first one already there.
pub open spec fn with_ancestors(dirs: Seq<Seq<char>>, p: Seq<char>) -> Seq<Seq<char>>
    decreases p.len(),
{
    match path_parent(p) {
        None => dirs,
        Some(d) => if d.len() >= p.len() || holds_path(dirs, d) {
            dirs
        } else {
            with_ancestors(dirs.push(d), d)
        },
    }
}

/// Where reading a listing stands: the files and directories so far, or
/// `None` once an entry was not UTF-8.
pub type ListingState = Option<(Seq<Seq<char>>, Seq<Seq<char>>)>;

/// The state after one entry: an empty entry changes nothing; a non-UTF-8
/// entry spoils the listing; any other names a file under the root.
pub open spec fn take_entry(st: ListingState, root: Seq<char>, entry: Seq<u8>) -> ListingState {
    match st {
        None => None,
        Some((files, dirs)) => if entry.len() == 0 {
            st
        } else {
            match utf8_decoded(entry) {
                None => None,
                Some(rel) => {
                    let p = path_join(root, rel);
                    Some((files.push(p), with_ancestors(dirs, p)))
                },
            }
        },
    }
}

/// The state after reading bytes `i..` of a NUL-separated listing, with
/// `cur` the bytes of the entry being read.
pub open spec fn read_listing(st: ListingState, root: Seq<char>, bytes: Seq<u8>, i: int, cur: Seq<u8>) -> ListingState
    decreases bytes.len() - i,
{
    if i < 0 || i >= bytes.len() {
        take_entry(st, root, cur)
    } else if bytes[i] == 0 {
        read_listing(take_entry(st, root, cur), root, bytes, i + 1, Seq::empty())
    } else {
        read_listing(st, root, bytes, i + 1, cur.push(bytes[i]))
    }
}

/// What git's answer gives: nothing when git failed or an entry is not
/// UTF-8, else the files listed and the directories holding them.
pub open spec fn allowed_from(root: Seq<char>, success: bool, stdout: Seq<u8>) -> ListingState {
    if !success {
        None
    } else {
        read_listing(Some((Seq::empty(), Seq::empty())), root, stdout, 0, Seq::empty())
    }
}

/// How reading git's answer ended.
pub enum Listing {
    /// git failed or is not there: scan is unfiltered.
    Unavailable,
    /// An entry was not UTF-8: scan is unfiltered, with a warning.
    NotUtf8,
    Read(Allowed),
}

fn add_ancestors(dirs: &mut Vec<String>, p: &str)
    ensures
        crate::model::view_strings(final(dirs)@) == with_ancestors(crate::model::view_strings(old(dirs)@), p@),
    decreases p@.len(),
{
    match parent(p) {
        None => {},
        Some(d) => {
            if !holds(dirs, d.as_str()) {
                let ghost before = dirs@;
                dirs.push(d.clone());
                assert(crate::model::view_strings(dirs@) =~= crate::model::view_strings(before).push(d@));
                add_ancestors(dirs, d.as_str());
            }
        },
    }
}

proof fn lemma_spoiled(root: Seq<char>, bytes: Seq<u8>, i: int, cur: Seq<u8>)
    ensures
        read_listing(None, root, bytes, i, cur) is None,
    decreases bytes.len() - i,
{
    if 0 <= i < bytes.len() {
        if bytes[i] == 0 {
            lemma_spoiled(root, bytes, i + 1, Seq::empty());
        } else {
            lemma_spoiled(root, bytes, i + 1, cur.push(bytes[i]));
        }
    }
}

/// Adds the file an entry names; false when the entry is not UTF-8.
fn take_entry_of(files: &mut Vec<String>, dirs: &mut Vec<String>, root: &str, cur: &Vec<u8>) -> (ok: bool)
    ensures
        ok ==> take_entry(
            Some((crate::model::view_strings(old(files)@), crate::model::view_strings(old(dirs)@))),
            root@,
            cur@,
        ) == Some((crate::model::view_strings(final(files)@), crate::model::view_strings(final(dirs)@))),
        !ok ==> take_entry(
            Some((crate::model::view_strings(old(files)@), crate::model::view_strings(old(dirs)@))),
            root@,
            cur@,
        ) is None,
{
    if cur.len() == 0 {
        return true;
    }
    match decode(cur.as_slice()) {
        None => false,
        Some(rel) => {
            let p = join(root, rel.as_str());
            add_ancestors(dirs, p.as_str());
            let ghost before = files@;
            files.push(p);
            assert(crate::model::view_strings(files@) =~= crate::model::view_strings(before).push(
                files@.last()@,
            ));
            true
        },
    }
}

/// Reads git's answer for `root`: `success` is whether `git ls-files`
/// succeeded, `stdout` its NUL-separated output.
pub fn allowed(root: &str, success: bool, stdout: &[u8]) -> (r: Listing)
    ensures
        match allowed_from(root@, success, stdout@) {
            Some((files, dirs)) => r matches Listing::Read(a) && a@ == (files, dirs),
            None => !(r is Read),
        },
        r is Unavailable <==> !success,
{
    if !success {
        return Listing::Unavailable;
    }
    let mut files: Vec<String> = Vec::new();
    let mut directories: Vec<String> = Vec::new();
    let mut cur: Vec<u8> = Vec::new();
    assert(crate::model::view_strings(files@) =~= Seq::<Seq<char>>::empty());
    assert(crate::model::view_strings(directories@) =~= Seq::<Seq<char>>::empty());
    assert(cur@ =~= Seq::<u8>::empty());
    let mut i: usize = 0;
    while i < stdout.len()
        invariant
            i <= stdout@.len(),
            success,
            allowed_from(root@, success, stdout@) == read_listing(
                Some((crate::model::view_strings(files@), crate::model::view_strings(directories@))),
                root@,
                stdout@,
                i as int,
                cur@,
            ),
        decreases stdout@.len() - i,
    {
        if stdout[i] == 0 {
            if !take_entry_of(&mut files, &mut directories, root, &cur) {
                proof {
                    lemma_spoiled(root@, stdout@, i + 1, Seq::empty());
                }
                return Listing::NotUtf8;
            }
            cur = Vec::new();
            assert(cur@ =~= Seq::<u8>::empty());
        } else {
            cur.push(stdout[i]);
        }
        i += 1;
    }
    if !take_entry_of(&mut files, &mut directories, root, &cur) {
        return Listing::NotUtf8;
    }
    Listing::Read(Allowed { files, directories })
}

// ── What the allowed directories are ─────────────────────────────────────────

/// The ancestor `k` levels above `p`: `p` itself for 0, then parent after
/// parent.
pub open spec fn nth_parent(p: Seq<char>, k: nat) -> Option<Seq<char>>
    decreases k,
{
    if k == 0 {
        Some(p)
    } else {
        match nth_parent(p, (k - 1) as nat) {
            Some(q) => path_parent(q),
            None => None,
        }
    }
}

/// `d` is a proper ancestor of one of the files.
pub open spec fn above_some_file(files: Seq<Seq<char>>, d: Seq<char>) -> bool {
    exists|j: int, k: nat| 0 <= j < files.len() && k >= 1 && #[trigger] nth_parent(files[j], k) == Some(d)
}

/// Every directory is a proper ancestor of one of the files.
pub open spec fn ancestors_of_files(files: Seq<Seq<char>>, dirs: Seq<Seq<char>>) -> bool {
    forall|i: int| 0 <= i < dirs.len() ==> above_some_file(files, #[trigger] dirs[i])
}

proof fn lemma_above_push(files: Seq<Seq<char>>, p: Seq<char>, d: Seq<char>)
    requires
        above_some_file(files, d),
    ensures
        above_some_file(files.push(p), d),
{
    let (j, k) = choose|j: int, k: nat| 0 <= j < files.len() && k >= 1 && #[trigger] nth_parent(files[j], k) == Some(d);
    assert(files.push(p)[j] == files[j]);
    assert(nth_parent(files.push(p)[j], k) == Some(d));
}

/// The directory holding `f`, when it has one, is among the directories (or
/// a path the same as it is).
pub open spec fn held_parent(f: Seq<char>, dirs: Seq<Seq<char>>) -> bool {
    match path_parent(f) {
        Some(d) => d.len() < f.len() ==> dirs.contains(d) || holds_path(dirs, d),
        None => true,
    }
}

/// The directory holding each file is among the directories (or a path the
/// same as it is).
pub open spec fn parents_held(files: Seq<Seq<char>>, dirs: Seq<Seq<char>>) -> bool {
    forall|j: int|
        0 <= j < files.len() ==> held_parent(#[trigger] files[j], dirs)
}

proof fn lemma_with_ancestors_grows(dirs: Seq<Seq<char>>, q: Seq<char>)
    ensures
        with_ancestors(dirs, q).len() >= dirs.len(),
        forall|i: int| 0 <= i < dirs.len() ==> with_ancestors(dirs, q)[i] == dirs[i],
    decreases q.len(),
{
    if let Some(d) = path_parent(q) {
        if !(d.len() >= q.len() || holds_path(dirs, d)) {
            lemma_with_ancestors_grows(dirs.push(d), d);
            assert forall|i: int| 0 <= i < dirs.len() implies with_ancestors(dirs, q)[i] == dirs[i] by {
                assert(dirs.push(d)[i] == dirs[i]);
            }
        }
    }
}

proof fn lemma_held_kept(dirs: Seq<Seq<char>>, q: Seq<char>, d: Seq<char>)
    requires
        dirs.contains(d) || holds_path(dirs, d),
    ensures
        with_ancestors(dirs, q).contains(d) || holds_path(with_ancestors(dirs, q), d),
{
    lemma_with_ancestors_grows(dirs, q);
    let w = with_ancestors(dirs, q);
    if dirs.contains(d) {
        let i = choose|i: int| 0 <= i < dirs.len() && dirs[i] == d;
        assert(w[i] == d);
    } else {
        let i = choose|i: int| 0 <= i < dirs.len() && path_eq(#[trigger] dirs[i], d);
        assert(w[i] == dirs[i]);
        assert(path_eq(w[i], d));
    }
}

proof fn lemma_with_ancestors_sound(files: Seq<Seq<char>>, dirs: Seq<Seq<char>>, jp: int, q: Seq<char>, m: nat)
    requires
        ancestors_of_files(files, dirs),
        0 <= jp < files.len(),
        nth_parent(files[jp], m) == Some(q),
    ensures
        ancestors_of_files(files, with_ancestors(dirs, q)),
    decreases q.len(),
{
    if let Some(d) = path_parent(q) {
        if !(d.len() >= q.len() || holds_path(dirs, d)) {
            let nd = dirs.push(d);
            assert(nth_parent(files[jp], m + 1) == Some(d));
            assert forall|i: int| 0 <= i < nd.len() implies above_some_file(files, #[trigger] nd[i]) by {
                if i < dirs.len() {
                    assert(nd[i] == dirs[i]);
                } else {
                    assert(nd[i] == d);
                    assert(nth_parent(files[jp], (m + 1) as nat) == Some(nd[i]));
                }
            }
            lemma_with_ancestors_sound(files, nd, jp, d, (m + 1) as nat);
        }
    }
}

proof fn lemma_take_entry_keeps(files: Seq<Seq<char>>, dirs: Seq<Seq<char>>, root: Seq<char>, entry: Seq<u8>)
    requires
        ancestors_of_files(files, dirs),
        parents_held(files, dirs),
    ensures
        take_entry(Some((files, dirs)), root, entry) matches Some((f2, d2)) ==> ancestors_of_files(f2, d2)
            && parents_held(f2, d2),
{
    if entry.len() > 0 {
        if let Some(rel) = utf8_decoded(entry) {
            let p = path_join(root, rel);
            let f2 = files.push(p);
            assert forall|i: int| 0 <= i < dirs.len() implies above_some_file(f2, #[trigger] dirs[i]) by {
                lemma_above_push(files, p, dirs[i]);
            }
            assert(ancestors_of_files(f2, dirs));
            assert(f2[files.len() as int] == p);
            assert(nth_parent(p, 0) == Some(p));
            lemma_with_ancestors_sound(f2, dirs, files.len() as int, p, 0);
            let d2 = with_ancestors(dirs, p);
            assert forall|j: int| 0 <= j < f2.len() implies held_parent(#[trigger] f2[j], d2) by {
                if let Some(d) = path_parent(f2[j]) {
                    if d.len() < f2[j].len() {
                        if j < files.len() {
                            assert(f2[j] == files[j]);
                            lemma_held_kept(dirs, p, d);
                        } else {
                            assert(f2[j] == p);
                            if holds_path(dirs, d) {
                                lemma_held_kept(dirs, p, d);
                            } else {
                                lemma_with_ancestors_grows(dirs.push(d), d);
                                assert(d2[dirs.len() as int] == dirs.push(d)[dirs.len() as int]);
                            }
                        }
                    }
                }
            }
        }
    }
}

proof fn lemma_read_listing_keeps(
    files: Seq<Seq<char>>,
    dirs: Seq<Seq<char>>,
    root: Seq<char>,
    bytes: Seq<u8>,
    i: int,
    cur: Seq<u8>,
)
    requires
        ancestors_of_files(files, dirs),
        parents_held(files, dirs),
    ensures
        read_listing(Some((files, dirs)), root, bytes, i, cur) matches Some((f2, d2)) ==> ancestors_of_files(f2, d2)
            && parents_held(f2, d2),
    decreases bytes.len() - i,
{
    lemma_take_entry_keeps(files, dirs, root, cur);
    if 0 <= i < bytes.len() {
        if bytes[i] == 0 {
            match take_entry(Some((files, dirs)), root, cur) {
                Some((f2, d2)) => lemma_read_listing_keeps(f2, d2, root, bytes, i + 1, Seq::empty()),
                None => lemma_spoiled(root, bytes, i + 1, Seq::empty()),
            }
        } else {
            lemma_read_listing_keeps(files, dirs, root, bytes, i + 1, cur.push(bytes[i]));
        }
    }
}

/// What git's answer allows: every allowed directory is a proper ancestor
/// (one or more parents up) of an allowed file, and the directory holding
/// each allowed file is allowed (stored as it is, or as a path equal to
/// it).
pub proof fn lemma_allowed_directories_hold_files(root: Seq<char>, success: bool, stdout: Seq<u8>)
    ensures
        allowed_from(root, success, stdout) matches Some((files, dirs)) ==> ancestors_of_files(files, dirs)
            && parents_held(files, dirs),
{
    if success {
        lemma_read_listing_keeps(Seq::empty(), Seq::empty(), root, stdout, 0, Seq::empty());
    }
}

} // verus!
