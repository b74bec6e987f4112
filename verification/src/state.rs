//! Where per-project state (the scan cache) lives: one slot directory per
//! working directory under the state root, named after the directory and
//! kept in an index so that two projects with the same name get distinct
//! slots.
use vstd::prelude::*;
use vstd::utf8::encode_utf8;

use crate::cache::{sha256_digest, sha256_prefix};
use crate::paths::{file_name, join, path_file_name, path_join};
use crate::text::{chars_of, concat3, hex_lower, owned, str_eq, string_from_chars};

verus! {

/// Whether a character may stand in a slot name as it is.
pub open spec fn slot_char(c: char) -> bool {
    ('a' <= c && c <= 'z') || ('A' <= c && c <= 'Z') || ('0' <= c && c <= '9') || c == '-' || c == '_' || c == '.'
}

/// The name with every character that may not stand in a slot name
/// replaced by `_`.
pub open spec fn sanitized(name: Seq<char>) -> Seq<char> {
    name.map_values(|c: char| if slot_char(c) { c } else { '_' })
}

/// Replaces every character but ASCII letters, digits, `-`, `_` and `.`
/// with `_`.
pub fn sanitize(name: &str) -> (r: String)
    ensures
        r@ == sanitized(name@),
{
    let cs = chars_of(name);
    let mut out: Vec<char> = Vec::new();
    let mut i: usize = 0;
    while i < cs.len()
        invariant
            i <= cs@.len(),
            cs@ == name@,
            out@ == sanitized(name@).take(i as int),
        decreases cs.len() - i,
    {
        let c = cs[i];
        let keep = ('a' <= c && c <= 'z') || ('A' <= c && c <= 'Z') || ('0' <= c && c <= '9') || c == '-'
            || c == '_' || c == '.';
        out.push(if keep { c } else { '_' });
        assert(out@ =~= sanitized(name@).take(i + 1));
        i += 1;
    }
    assert(sanitized(name@).take(cs@.len() as int) =~= sanitized(name@));
    string_from_chars(&out)
}

/// The slot name a working directory would like: its last component,
/// sanitized, or `project` when that leaves nothing.
pub open spec fn basename_of(cwd: Seq<char>) -> Seq<char> {
    match path_file_name(cwd) {
        Some(n) => if sanitized(n).len() > 0 {
            sanitized(n)
        } else {
            "project"@
        },
        None => "project"@,
    }
}

/// The slot name a working directory would like.
pub fn slot_basename(cwd: &str) -> (r: String)
    ensures
        r@ == basename_of(cwd@),
{
    match file_name(cwd) {
        Some(n) => {
            let s = sanitize(n.as_str());
            if chars_of(s.as_str()).len() > 0 {
                s
            } else {
                owned("project")
            }
        },
        None => owned("project"),
    }
}

/// The suffix that tells apart two projects with the same name: the first
/// four bytes of the SHA-256 of the directory's path, in hexadecimal.
pub fn path_suffix(cwd: &str) -> (r: String)
    ensures
        r@ == hex_lower(sha256_digest(encode_utf8(cwd@)).take(4)),
{
    sha256_prefix(cwd)
}

/// The index file under the state root.
pub fn index_path(root: &str) -> (r: String)
    ensures
        r@ == path_join(root@, "index.json"@),
{
    join(root, "index.json")
}

/// The state root: `$XDG_STATE_HOME/code-seek` when that is set and not
/// empty, else `$HOME/.local/state/code-seek` when `HOME` is, else none.
pub open spec fn root_of(xdg: Option<Seq<char>>, home: Option<Seq<char>>) -> Option<Seq<char>> {
    if xdg matches Some(x) && x.len() > 0 {
        Some(path_join(xdg->0, "code-seek"@))
    } else if home matches Some(h) && h.len() > 0 {
        Some(path_join(home->0, ".local/state/code-seek"@))
    } else {
        None
    }
}

/// The state root from the values of `XDG_STATE_HOME` and `HOME`.
pub fn state_root(xdg: Option<String>, home: Option<String>) -> (r: Option<String>)
    ensures
        crate::cache::opt_text(r) == root_of(crate::cache::opt_text(xdg), crate::cache::opt_text(home)),
{
    match xdg {
        Some(x) => if chars_of(x.as_str()).len() > 0 {
            return Some(join(x.as_str(), "code-seek"));
        },
        None => {},
    }
    match home {
        Some(h) => if chars_of(h.as_str()).len() > 0 {
            Some(join(h.as_str(), ".local/state/code-seek"))
        } else {
            None
        },
        None => None,
    }
}

// ── The index ────────────────────────────────────────────────────────────────

/// The values of index entries: working directory and slot name.
pub open spec fn view_index(v: Seq<(String, String)>) -> Seq<(Seq<char>, Seq<char>)> {
    v.map_values(|e: (String, String)| (e.0@, e.1@))
}

/// The slot of the first entry from index `i` for `key`.
pub open spec fn slot_from(es: Seq<(Seq<char>, Seq<char>)>, key: Seq<char>, i: int) -> Option<Seq<char>>
    decreases es.len() - i,
{
    if i < 0 || i >= es.len() {
        None
    } else if es[i].0 == key {
        Some(es[i].1)
    } else {
        slot_from(es, key, i + 1)
    }
}

/// Some entry already has slot `name`.
pub open spec fn slot_taken(es: Seq<(Seq<char>, Seq<char>)>, name: Seq<char>) -> bool {
    exists|i: int| 0 <= i < es.len() && (#[trigger] es[i]).1 == name
}

/// The slot of a working directory: the one recorded for it; else its
/// basename, with the path suffix when another project took the basename.
pub open spec fn slot_for(es: Seq<(Seq<char>, Seq<char>)>, cwd: Seq<char>) -> Seq<char> {
    match slot_from(es, cwd, 0) {
        Some(s) => s,
        None => if slot_taken(es, basename_of(cwd)) {
            basename_of(cwd) + "-"@ + hex_lower(sha256_digest(encode_utf8(cwd)).take(4))
        } else {
            basename_of(cwd)
        },
    }
}

/// The slot name of `cwd`, recorded in the index when new. The flag says
/// whether the index changed and should be saved.
pub fn allocate_name(index: &mut Vec<(String, String)>, cwd: &str) -> (r: (String, bool))
    ensures
        r.0@ == slot_for(view_index(old(index)@), cwd@),
        r.1 == (slot_from(view_index(old(index)@), cwd@, 0) is None),
        r.1 ==> view_index(final(index)@) == view_index(old(index)@).push((cwd@, r.0@)),
        !r.1 ==> final(index)@ == old(index)@,
{
    let ghost es = view_index(index@);
    let mut i: usize = 0;
    while i < index.len()
        invariant
            i <= index@.len(),
            es == view_index(index@),
            slot_from(es, cwd@, 0) == slot_from(es, cwd@, i as int),
        decreases index.len() - i,
    {
        if str_eq(index[i].0.as_str(), cwd) {
            return (index[i].1.clone(), false);
        }
        i += 1;
    }
    let base = slot_basename(cwd);
    let mut taken = false;
    let mut k: usize = 0;
    while k < index.len()
        invariant
            k <= index@.len(),
            es == view_index(index@),
            taken == exists|m: int| 0 <= m < k && (#[trigger] es[m]).1 == base@,
        decreases index.len() - k,
    {
        assert(es[k as int] == (index@[k as int].0@, index@[k as int].1@));
        if str_eq(index[k].1.as_str(), base.as_str()) {
            taken = true;
        }
        k += 1;
    }
    let name = if taken {
        concat3(base.as_str(), "-", path_suffix(cwd).as_str())
    } else {
        base
    };
    let ghost before = index@;
    index.push((owned(cwd), name.clone()));
    assert(view_index(index@) =~= view_index(before).push((cwd@, name@)));
    (name, true)
}

proof fn lemma_slot_from_push(es: Seq<(Seq<char>, Seq<char>)>, e: (Seq<char>, Seq<char>), key: Seq<char>, i: int)
    requires
        0 <= i <= es.len(),
    ensures
        slot_from(es.push(e), key, i) == match slot_from(es, key, i) {
            Some(s) => Some(s),
            None => if e.0 == key {
                Some(e.1)
            } else {
                None
            },
        },
    decreases es.len() - i,
{
    if i < es.len() {
        assert(es.push(e)[i] == es[i]);
        lemma_slot_from_push(es, e, key, i + 1);
    } else {
        assert(es.push(e)[i] == e);
        assert(slot_from(es.push(e), key, i + 1) is None);
    }
}

/// Allocating a slot twice for one working directory gives the same name:
/// the first call records it, the second finds it and changes nothing.
pub proof fn lemma_allocation_is_stable(es: Seq<(Seq<char>, Seq<char>)>, cwd: Seq<char>)
    ensures
        ({
            let after = if slot_from(es, cwd, 0) is None {
                es.push((cwd, slot_for(es, cwd)))
            } else {
                es
            };
            &&& slot_from(after, cwd, 0) == Some(slot_for(es, cwd))
            &&& slot_for(after, cwd) == slot_for(es, cwd)
        }),
{
    if slot_from(es, cwd, 0) is None {
        lemma_slot_from_push(es, (cwd, slot_for(es, cwd)), cwd, 0);
    }
}

/// A new project whose basename another project holds gets a name of its
/// own: its name differs from the slot of every entry named after that
/// basename.
pub proof fn lemma_colliding_basename_is_told_apart(es: Seq<(Seq<char>, Seq<char>)>, cwd: Seq<char>, i: int)
    requires
        0 <= i < es.len(),
        slot_from(es, cwd, 0) is None,
        es[i].1 == basename_of(cwd),
    ensures
        slot_for(es, cwd) != es[i].1,
        slot_for(es, cwd).len() > basename_of(cwd).len(),
{
    reveal_strlit("-");
    let b = basename_of(cwd);
    assert(es[i].1 == b);
    assert(slot_taken(es, b));
    let full = b + "-"@ + hex_lower(sha256_digest(encode_utf8(cwd)).take(4));
    assert(slot_for(es, cwd) == full);
    assert(full.len() >= b.len() + 1);
}

} // verus!
