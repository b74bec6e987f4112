//! Character-level string operations with their meaning stated over `Seq<char>`.
//!
//! The scanner reads source text, import lines and entity names; every
//! operation it needs on them (trimming, prefix and substring tests, splitting
//! into lines, decimal and hexadecimal formatting) is defined here once as a
//! spec function and implemented by a function proved against it.
use vstd::prelude::*;

verus! {

broadcast use vstd::seq::group_seq_axioms;

// ── Characters ───────────────────────────────────────────────────────────────

/// The Unicode `White_Space` property, which `char::is_whitespace` tests.
pub open spec fn is_white_space(c: char) -> bool {
    ||| ('\u{9}' <= c && c <= '\u{d}')
    ||| c == ' '
    ||| c == '\u{85}'
    ||| c == '\u{a0}'
    ||| c == '\u{1680}'
    ||| ('\u{2000}' <= c && c <= '\u{200a}')
    ||| c == '\u{2028}'
    ||| c == '\u{2029}'
    ||| c == '\u{202f}'
    ||| c == '\u{205f}'
    ||| c == '\u{3000}'
}

pub fn is_whitespace_char(c: char) -> (r: bool)
    ensures
        r == is_white_space(c),
{
    ('\u{9}' <= c && c <= '\u{d}') || c == ' ' || c == '\u{85}' || c == '\u{a0}' || c == '\u{1680}'
        || ('\u{2000}' <= c && c <= '\u{200a}') || c == '\u{2028}' || c == '\u{2029}' || c
        == '\u{202f}' || c == '\u{205f}' || c == '\u{3000}'
}

// ── Conversions between `str` and characters ────────────────────────────────

/// The characters of `s`, in order.
pub fn chars_of(s: &str) -> (v: Vec<char>)
    ensures
        v@ == s@,
{
    let mut v: Vec<char> = Vec::new();
    for c in it: s.chars()
        invariant
            v@ == it.seq().take(it.index() as int),
            it.seq() == s@,
    {
        v.push(c);
    }
    v
}

/// Collects characters into a `String` (`FromIterator<char> for String`).
#[verifier::external_body]
pub(crate) fn string_from_chars(v: &[char]) -> (s: String)
    ensures
        s@ == v@,
{
    v.iter().collect()
}

/// A fresh `String` holding the characters of `s`.
pub fn owned(s: &str) -> (r: String)
    ensures
        r@ == s@,
{
    s.to_owned()
}

/// `a` followed by `b`, as a new `String`.
pub fn concat2(a: &str, b: &str) -> (r: String)
    ensures
        r@ == a@ + b@,
{
    let mut r = a.to_owned();
    r.append(b);
    r
}

/// `a`, `b` and `c` joined, as a new `String`.
pub fn concat3(a: &str, b: &str, c: &str) -> (r: String)
    ensures
        r@ == a@ + b@ + c@,
{
    let mut r = a.to_owned();
    r.append(b);
    r.append(c);
    r
}

/// Equality of the characters of two strings.
pub fn str_eq(a: &str, b: &str) -> (r: bool)
    ensures
        r == (a@ == b@),
{
    let x = chars_of(a);
    let y = chars_of(b);
    seq_eq(&x, &y)
}

/// Equality of two character slices.
pub fn seq_eq(x: &[char], y: &[char]) -> (r: bool)
    ensures
        r == (x@ == y@),
{
    if x.len() != y.len() {
        return false;
    }
    let mut i: usize = 0;
    while i < x.len()
        invariant
            x@.len() == y@.len(),
            i <= x@.len(),
            forall|j: int| 0 <= j < i ==> x@[j] == y@[j],
        decreases x.len() - i,
    {
        if x[i] != y[i] {
            return false;
        }
        i += 1;
    }
    assert(x@ =~= y@);
    true
}

// ── Trimming ─────────────────────────────────────────────────────────────────

/// `str::trim_start`: drops leading white space.
pub open spec fn trim_start(s: Seq<char>) -> Seq<char>
    decreases s.len(),
{
    if s.len() > 0 && is_white_space(s[0]) {
        trim_start(s.drop_first())
    } else {
        s
    }
}

/// `str::trim_end`: drops trailing white space.
pub open spec fn trim_end(s: Seq<char>) -> Seq<char>
    decreases s.len(),
{
    if s.len() > 0 && is_white_space(s.last()) {
        trim_end(s.drop_last())
    } else {
        s
    }
}

/// `str::trim`: drops white space at both ends.
pub open spec fn trim(s: Seq<char>) -> Seq<char> {
    trim_end(trim_start(s))
}

proof fn lemma_trim_start_at(s: Seq<char>, k: int)
    requires
        0 <= k <= s.len(),
        forall|i: int| 0 <= i < k ==> is_white_space(#[trigger] s[i]),
        k == s.len() || !is_white_space(s[k]),
    ensures
        trim_start(s) == s.subrange(k, s.len() as int),
    decreases k,
{
    if k == 0 {
        assert(s.subrange(0, s.len() as int) =~= s);
    } else {
        assert(is_white_space(s[0]));
        let t = s.drop_first();
        assert forall|i: int| 0 <= i < k - 1 implies is_white_space(#[trigger] t[i]) by {
            assert(t[i] == s[i + 1]);
        }
        if k - 1 < t.len() {
            assert(t[k - 1] == s[k]);
        }
        lemma_trim_start_at(t, k - 1);
        assert(t.subrange(k - 1, t.len() as int) =~= s.subrange(k, s.len() as int));
    }
}

proof fn lemma_trim_end_at(s: Seq<char>, k: int)
    requires
        0 <= k <= s.len(),
        forall|i: int| k <= i < s.len() ==> is_white_space(#[trigger] s[i]),
        k == 0 || !is_white_space(s[k - 1]),
    ensures
        trim_end(s) == s.subrange(0, k),
    decreases s.len() - k,
{
    if k == s.len() {
        assert(s.subrange(0, k) =~= s);
        if s.len() > 0 {
            assert(!is_white_space(s.last()));
        }
    } else {
        assert(is_white_space(s.last()));
        let t = s.drop_last();
        assert forall|i: int| k <= i < t.len() implies is_white_space(#[trigger] t[i]) by {
            assert(t[i] == s[i]);
        }
        if k > 0 {
            assert(t[k - 1] == s[k - 1]);
        }
        lemma_trim_end_at(t, k);
        assert(t.subrange(0, k) =~= s.subrange(0, k));
    }
}

/// The bounds `(a, b)` such that `s[a..b]` is `s` trimmed.
pub fn trim_bounds(s: &[char]) -> (r: (usize, usize))
    ensures
        r.0 <= r.1 <= s@.len(),
        s@.subrange(r.0 as int, r.1 as int) == trim(s@),
{
    let mut a: usize = 0;
    while a < s.len() && is_whitespace_char(s[a])
        invariant
            a <= s@.len(),
            forall|i: int| 0 <= i < a ==> is_white_space(#[trigger] s@[i]),
        decreases s.len() - a,
    {
        a += 1;
    }
    proof {
        lemma_trim_start_at(s@, a as int);
    }
    let mut b: usize = s.len();
    while b > a && is_whitespace_char(s[b - 1])
        invariant
            a <= b <= s@.len(),
            forall|i: int| b <= i < s@.len() ==> is_white_space(#[trigger] s@[i]),
        decreases b,
    {
        b -= 1;
    }
    proof {
        let t = s@.subrange(a as int, s@.len() as int);
        assert forall|i: int| b - a <= i < t.len() implies is_white_space(#[trigger] t[i]) by {
            assert(t[i] == s@[i + a]);
        }
        if b > a {
            assert(t[b - a - 1] == s@[b - 1]);
        }
        lemma_trim_end_at(t, b - a);
        assert(t.subrange(0, b - a) =~= s@.subrange(a as int, b as int));
    }
    (a, b)
}

/// `s` trimmed, as a new vector.
pub fn trimmed(s: &[char]) -> (r: Vec<char>)
    ensures
        r@ == trim(s@),
{
    let (a, b) = trim_bounds(s);
    slice_range(s, a, b)
}

/// The characters `s[a..b]` as a new vector.
pub fn slice_range(s: &[char], a: usize, b: usize) -> (r: Vec<char>)
    requires
        a <= b <= s@.len(),
    ensures
        r@ == s@.subrange(a as int, b as int),
{
    let mut r: Vec<char> = Vec::new();
    let mut i = a;
    while i < b
        invariant
            a <= i <= b <= s@.len(),
            r@ == s@.subrange(a as int, i as int),
        decreases b - i,
    {
        r.push(s[i]);
        i += 1;
        assert(r@ =~= s@.subrange(a as int, i as int));
    }
    r
}

// ── Prefixes and substrings ──────────────────────────────────────────────────

/// `str::starts_with` with a string pattern.
pub open spec fn starts_with(s: Seq<char>, p: Seq<char>) -> bool {
    p.len() <= s.len() && s.subrange(0, p.len() as int) == p
}

/// `str::ends_with` with a string pattern.
pub open spec fn ends_with(s: Seq<char>, p: Seq<char>) -> bool {
    p.len() <= s.len() && s.subrange(s.len() - p.len(), s.len() as int) == p
}

/// `p` occurs in `s` starting at character `i`.
pub open spec fn occurs_at(s: Seq<char>, p: Seq<char>, i: int) -> bool {
    0 <= i && i + p.len() <= s.len() && s.subrange(i, i + p.len()) == p
}

/// The first occurrence of `p` in `s` at or after `i`.
pub open spec fn find_from(s: Seq<char>, p: Seq<char>, i: int) -> Option<int>
    decreases s.len() + 1 - i,
{
    if i < 0 || i + p.len() > s.len() {
        None
    } else if occurs_at(s, p, i) {
        Some(i)
    } else {
        find_from(s, p, i + 1)
    }
}

/// `str::find` with a string pattern, counted in characters.
pub open spec fn find(s: Seq<char>, p: Seq<char>) -> Option<int> {
    find_from(s, p, 0)
}

/// `str::contains` with a string pattern.
pub open spec fn contains(s: Seq<char>, p: Seq<char>) -> bool {
    find(s, p) is Some
}

pub proof fn lemma_find_from_facts(s: Seq<char>, p: Seq<char>, i: int)
    requires
        0 <= i,
    ensures
        find_from(s, p, i) matches Some(k) ==> i <= k && occurs_at(s, p, k) && forall|j: int|
            i <= j < k ==> !occurs_at(s, p, j),
        find_from(s, p, i) is None ==> forall|j: int| i <= j ==> !occurs_at(s, p, j),
    decreases s.len() + 1 - i,
{
    if i + p.len() > s.len() {
    } else if occurs_at(s, p, i) {
    } else {
        lemma_find_from_facts(s, p, i + 1);
    }
}

/// Whether `s` begins with `p`.
pub fn has_prefix(s: &[char], p: &[char]) -> (r: bool)
    ensures
        r == starts_with(s@, p@),
{
    occurs_at_exec(s, p, 0)
}

/// Whether `s` ends with `p`.
pub fn has_suffix(s: &[char], p: &[char]) -> (r: bool)
    ensures
        r == ends_with(s@, p@),
{
    if p.len() > s.len() {
        return false;
    }
    occurs_at_exec(s, p, s.len() - p.len())
}

/// Whether `p` occurs in `s` starting at character `i`.
pub fn occurs_at_exec(s: &[char], p: &[char], i: usize) -> (r: bool)
    ensures
        r == occurs_at(s@, p@, i as int),
{
    let n = s.len();
    if p.len() > n || i > n - p.len() {
        return false;
    }
    let mut j: usize = 0;
    while j < p.len()
        invariant
            n == s@.len(),
            i + p@.len() <= s@.len(),
            j <= p@.len(),
            forall|k: int| 0 <= k < j ==> s@[i + k] == p@[k],
        decreases p.len() - j,
    {
        if s[i + j] != p[j] {
            assert(s@.subrange(i as int, i + p@.len())[j as int] != p@[j as int]);
            return false;
        }
        j += 1;
    }
    assert(s@.subrange(i as int, i + p@.len()) =~= p@);
    true
}

/// The first occurrence of `p` in `s`, counted in characters.
pub fn find_exec(s: &[char], p: &[char]) -> (r: Option<usize>)
    ensures
        r matches Some(k) ==> find(s@, p@) == Some(k as int),
        r is None ==> find(s@, p@) is None,
{
    if p.len() > s.len() {
        return None;
    }
    let last = s.len() - p.len();
    let mut i: usize = 0;
    while i <= last
        invariant
            last + p@.len() == s@.len(),
            i <= last + 1,
            find(s@, p@) == find_from(s@, p@, i as int),
        decreases last + 1 - i,
    {
        if occurs_at_exec(s, p, i) {
            return Some(i);
        }
        if i == last {
            assert(find_from(s@, p@, i as int + 1) is None);
            return None;
        }
        i += 1;
    }
    None
}

/// Whether `p` occurs anywhere in `s`.
pub fn contains_exec(s: &[char], p: &[char]) -> (r: bool)
    ensures
        r == contains(s@, p@),
{
    find_exec(s, p).is_some()
}

// ── Lines ────────────────────────────────────────────────────────────────────

/// The text of one line as `str::lines` yields it: the line ending `\n` is
/// gone, and so is a `\r` just before it.
pub open spec fn strip_cr(line: Seq<char>) -> Seq<char> {
    if line.len() > 0 && line.last() == '\r' {
        line.drop_last()
    } else {
        line
    }
}

/// `str::lines`: the lines of `s`, split at `\n`; a final line ending is
/// optional and yields no empty last line.
pub open spec fn lines(s: Seq<char>) -> Seq<Seq<char>>
    decreases s.len(),
{
    if s.len() == 0 {
        Seq::empty()
    } else {
        match find(s, seq!['\n']) {
            Some(k) => {
                if 0 <= k < s.len() {
                    seq![strip_cr(s.subrange(0, k))] + lines(s.subrange(k + 1, s.len() as int))
                } else {
                    Seq::empty()
                }
            },
            None => seq![s],
        }
    }
}

/// The index of the first `\n` at or after `i`, or `s.len()`.
fn next_newline(s: &[char], i: usize) -> (r: usize)
    requires
        i <= s@.len(),
    ensures
        i <= r <= s@.len(),
        forall|j: int| i <= j < r ==> s@[j] != '\n',
        r < s@.len() ==> s@[r as int] == '\n',
{
    let mut j = i;
    while j < s.len() && s[j] != '\n'
        invariant
            i <= j <= s@.len(),
            forall|k: int| i <= k < j ==> s@[k] != '\n',
        decreases s.len() - j,
    {
        j += 1;
    }
    j
}

proof fn lemma_find_newline(t: Seq<char>, k: int)
    requires
        0 <= k <= t.len(),
        forall|j: int| 0 <= j < k ==> t[j] != '\n',
        k < t.len() ==> t[k] == '\n',
    ensures
        k < t.len() ==> find(t, seq!['\n']) == Some(k),
        k == t.len() ==> find(t, seq!['\n']) is None,
{
    let p = seq!['\n'];
    lemma_find_from_facts(t, p, 0);
    assert forall|j: int| 0 <= j < k implies !occurs_at(t, p, j) by {
        if occurs_at(t, p, j) {
            assert(t.subrange(j, j + 1)[0] == t[j]);
        }
    }
    if k < t.len() {
        assert(t.subrange(k, k + 1) =~= p);
        assert(occurs_at(t, p, k));
        match find(t, p) {
            Some(m) => {
                if m > k {
                }
            },
            None => {},
        }
    }
}

/// The lines of `s`, as `str::lines` splits them.
pub fn lines_of(s: &[char]) -> (r: Vec<Vec<char>>)
    ensures
        r@.len() == lines(s@).len(),
        forall|i: int| 0 <= i < r@.len() ==> (#[trigger] r@[i])@ == lines(s@)[i],
{
    let mut r: Vec<Vec<char>> = Vec::new();
    let mut i: usize = 0;
    let ghost done: Seq<Seq<char>> = Seq::empty();
    assert(s@.subrange(0, s@.len() as int) =~= s@);
    while i < s.len()
        invariant
            i <= s@.len(),
            done.len() == r@.len(),
            forall|k: int| 0 <= k < r@.len() ==> (#[trigger] r@[k])@ == done[k],
            lines(s@) == done + lines(s@.subrange(i as int, s@.len() as int)),
        decreases s.len() - i,
    {
        let ghost t = s@.subrange(i as int, s@.len() as int);
        let j = next_newline(s, i);
        proof {
            assert forall|m: int| 0 <= m < j - i implies t[m] != '\n' by {
                assert(t[m] == s@[m + i]);
            }
            if j < s@.len() {
                assert(t[j - i] == s@[j as int]);
            }
            lemma_find_newline(t, j - i);
        }
        let mut line = slice_range(s, i, j);
        let ghost raw = line@;
        if j < s.len() && line.len() > 0 && line[line.len() - 1] == '\r' {
            line.pop();
            assert(line@ =~= raw.drop_last());
        }
        proof {
            assert(raw =~= t.subrange(0, j - i));
            if j < s@.len() {
                assert(line@ == strip_cr(raw));
            } else {
                assert(line@ == raw);
            }
        }
        let ghost rest = if j < s@.len() { s@.subrange(j + 1, s@.len() as int) } else { Seq::<char>::empty() };
        proof {
            if j < s@.len() {
                assert(t.subrange(j - i + 1, t.len() as int) =~= rest);
                assert(lines(t) == seq![strip_cr(t.subrange(0, j - i))] + lines(rest));
            } else {
                assert(t =~= t.subrange(0, j - i));
                assert(t.len() > 0);
                assert(lines(t) == seq![t]);
                assert(lines(rest) =~= Seq::<Seq<char>>::empty());
            }
            assert(lines(t) =~= seq![line@] + lines(rest)) by {
                if j >= s@.len() {
                    assert(t.last() == s@[s@.len() - 1]);
                }
            }
            assert(done + lines(t) =~= done.push(line@) + lines(rest));
        }
        r.push(line);
        proof {
            done = done.push(line@);
        }
        if j < s.len() {
            i = j + 1;
        } else {
            i = j;
        }
        proof {
            if i == s@.len() {
                assert(s@.subrange(i as int, s@.len() as int) =~= rest);
            } else {
                assert(s@.subrange(i as int, s@.len() as int) == rest);
            }
        }
    }
    proof {
        assert(s@.subrange(s@.len() as int, s@.len() as int) =~= Seq::<char>::empty());
        assert(lines(s@) =~= done);
    }
    r
}


// ── Repeated prefixes and character sets ────────────────────────────────────

/// `str::trim_start_matches` with a string pattern: removes `p` from the
/// front as long as it is there.
pub open spec fn strip_all_prefix(s: Seq<char>, p: Seq<char>) -> Seq<char>
    decreases s.len(),
{
    if p.len() > 0 && starts_with(s, p) {
        strip_all_prefix(s.subrange(p.len() as int, s.len() as int), p)
    } else {
        s
    }
}

/// `str::trim_end_matches` with a string pattern: removes `p` from the end
/// as long as it is there.
pub open spec fn strip_all_suffix(s: Seq<char>, p: Seq<char>) -> Seq<char>
    decreases s.len(),
{
    if p.len() > 0 && ends_with(s, p) {
        strip_all_suffix(s.subrange(0, s.len() - p.len()), p)
    } else {
        s
    }
}

/// `str::trim_matches` with a set of characters: removes characters of
/// `set` from both ends.
pub open spec fn trim_chars(s: Seq<char>, set: Seq<char>) -> Seq<char> {
    trim_chars_end(trim_chars_start(s, set), set)
}

pub open spec fn trim_chars_start(s: Seq<char>, set: Seq<char>) -> Seq<char>
    decreases s.len(),
{
    if s.len() > 0 && set.contains(s[0]) {
        trim_chars_start(s.drop_first(), set)
    } else {
        s
    }
}

pub open spec fn trim_chars_end(s: Seq<char>, set: Seq<char>) -> Seq<char>
    decreases s.len(),
{
    if s.len() > 0 && set.contains(s.last()) {
        trim_chars_end(s.drop_last(), set)
    } else {
        s
    }
}

/// Removes `p` from the front of `s` as long as it is there.
pub fn strip_all_prefix_exec(s: &[char], p: &[char]) -> (r: Vec<char>)
    ensures
        r@ == strip_all_prefix(s@, p@),
{
    let mut a: usize = 0;
    assert(s@.subrange(0, s@.len() as int) =~= s@);
    if p.len() > 0 {
        while p.len() <= s.len() - a && occurs_at_exec(s, p, a)
            invariant
                p@.len() > 0,
                a <= s@.len(),
                strip_all_prefix(s@, p@) == strip_all_prefix(s@.subrange(a as int, s@.len() as int), p@),
            decreases s.len() - a,
        {
            proof {
                let t = s@.subrange(a as int, s@.len() as int);
                assert(t.subrange(0, p@.len() as int) =~= s@.subrange(a as int, a + p@.len()));
                assert(t.subrange(p@.len() as int, t.len() as int) =~= s@.subrange(a + p@.len(), s@.len() as int));
            }
            a = a + p.len();
        }
        proof {
            let t = s@.subrange(a as int, s@.len() as int);
            if starts_with(t, p@) {
                assert(t.subrange(0, p@.len() as int) =~= s@.subrange(a as int, a + p@.len()));
            }
        }
    } else {
        assert(s@.subrange(0, s@.len() as int) =~= s@);
    }
    slice_range(s, a, s.len())
}

/// Removes `p` from the end of `s` as long as it is there.
pub fn strip_all_suffix_exec(s: &[char], p: &[char]) -> (r: Vec<char>)
    ensures
        r@ == strip_all_suffix(s@, p@),
{
    let mut b: usize = s.len();
    assert(s@.subrange(0, s@.len() as int) =~= s@);
    if p.len() > 0 {
        while b >= p.len() && occurs_at_exec(s, p, b - p.len())
            invariant
                p@.len() > 0,
                b <= s@.len(),
                strip_all_suffix(s@, p@) == strip_all_suffix(s@.subrange(0, b as int), p@),
            decreases b,
        {
            proof {
                let t = s@.subrange(0, b as int);
                assert(t.subrange(t.len() - p@.len(), t.len() as int) =~= s@.subrange(b - p@.len(), b as int));
                assert(t.subrange(0, t.len() - p@.len()) =~= s@.subrange(0, b - p@.len()));
            }
            b = b - p.len();
        }
        proof {
            let t = s@.subrange(0, b as int);
            if ends_with(t, p@) {
                assert(t.subrange(t.len() - p@.len(), t.len() as int) =~= s@.subrange(b - p@.len(), b as int));
            }
        }
    }
    slice_range(s, 0, b)
}

/// Whether `c` is one of the characters of `set`.
pub fn in_set(c: char, set: &[char]) -> (r: bool)
    ensures
        r == set@.contains(c),
{
    let mut i: usize = 0;
    while i < set.len()
        invariant
            i <= set@.len(),
            forall|k: int| 0 <= k < i ==> set@[k] != c,
        decreases set.len() - i,
    {
        if set[i] == c {
            assert(set@[i as int] == c);
            return true;
        }
        i += 1;
    }
    false
}

proof fn lemma_trim_chars_start_at(s: Seq<char>, set: Seq<char>, k: int)
    requires
        0 <= k <= s.len(),
        forall|i: int| 0 <= i < k ==> set.contains(#[trigger] s[i]),
        k == s.len() || !set.contains(s[k]),
    ensures
        trim_chars_start(s, set) == s.subrange(k, s.len() as int),
    decreases k,
{
    if k == 0 {
        assert(s.subrange(0, s.len() as int) =~= s);
    } else {
        assert(set.contains(s[0]));
        let t = s.drop_first();
        assert forall|i: int| 0 <= i < k - 1 implies set.contains(#[trigger] t[i]) by {
            assert(t[i] == s[i + 1]);
        }
        if k - 1 < t.len() {
            assert(t[k - 1] == s[k]);
        }
        lemma_trim_chars_start_at(t, set, k - 1);
        assert(t.subrange(k - 1, t.len() as int) =~= s.subrange(k, s.len() as int));
    }
}

proof fn lemma_trim_chars_end_at(s: Seq<char>, set: Seq<char>, k: int)
    requires
        0 <= k <= s.len(),
        forall|i: int| k <= i < s.len() ==> set.contains(#[trigger] s[i]),
        k == 0 || !set.contains(s[k - 1]),
    ensures
        trim_chars_end(s, set) == s.subrange(0, k),
    decreases s.len() - k,
{
    if k == s.len() {
        assert(s.subrange(0, k) =~= s);
        if s.len() > 0 {
            assert(!set.contains(s.last()));
        }
    } else {
        assert(set.contains(s.last()));
        let t = s.drop_last();
        assert forall|i: int| k <= i < t.len() implies set.contains(#[trigger] t[i]) by {
            assert(t[i] == s[i]);
        }
        if k > 0 {
            assert(t[k - 1] == s[k - 1]);
        }
        lemma_trim_chars_end_at(t, set, k);
        assert(t.subrange(0, k) =~= s.subrange(0, k));
    }
}

/// Removes characters of `set` from both ends of `s`.
pub fn trim_chars_exec(s: &[char], set: &[char]) -> (r: Vec<char>)
    ensures
        r@ == trim_chars(s@, set@),
{
    let mut a: usize = 0;
    while a < s.len() && in_set(s[a], set)
        invariant
            a <= s@.len(),
            forall|i: int| 0 <= i < a ==> set@.contains(#[trigger] s@[i]),
        decreases s.len() - a,
    {
        a += 1;
    }
    proof {
        lemma_trim_chars_start_at(s@, set@, a as int);
    }
    let mut b: usize = s.len();
    while b > a && in_set(s[b - 1], set)
        invariant
            a <= b <= s@.len(),
            forall|i: int| b <= i < s@.len() ==> set@.contains(#[trigger] s@[i]),
        decreases b,
    {
        b -= 1;
    }
    proof {
        let t = s@.subrange(a as int, s@.len() as int);
        assert forall|i: int| b - a <= i < t.len() implies set@.contains(#[trigger] t[i]) by {
            assert(t[i] == s@[i + a]);
        }
        if b > a {
            assert(t[b - a - 1] == s@[b - 1]);
        }
        lemma_trim_chars_end_at(t, set@, b - a);
        assert(t.subrange(0, b - a) =~= s@.subrange(a as int, b as int));
    }
    slice_range(s, a, b)
}

/// `s` with `p` removed from its front, when it starts with `p`
/// (`str::strip_prefix`).
pub open spec fn strip_prefix(s: Seq<char>, p: Seq<char>) -> Option<Seq<char>> {
    if starts_with(s, p) {
        Some(s.subrange(p.len() as int, s.len() as int))
    } else {
        None
    }
}

/// The part of `s` before the first occurrence of `sep`, or all of `s`
/// (`s.split(sep).next()`).
pub open spec fn before_first(s: Seq<char>, sep: Seq<char>) -> Seq<char> {
    match find(s, sep) {
        Some(k) => s.subrange(0, k),
        None => s,
    }
}

/// The part of `s` before the first `sep`, or all of `s`.
pub fn before_first_exec(s: &[char], sep: &[char]) -> (r: Vec<char>)
    ensures
        r@ == before_first(s@, sep@),
{
    match find_exec(s, sep) {
        Some(k) => {
            proof {
                lemma_find_from_facts(s@, sep@, 0);
            }
            slice_range(s, 0, k)
        },
        None => {
            assert(s@.subrange(0, s@.len() as int) =~= s@);
            slice_range(s, 0, s.len())
        },
    }
}

/// The index of the first character at or after `i` that is in `set`, or
/// the length.
pub open spec fn stop_index(s: Seq<char>, set: Seq<char>, i: int) -> int
    decreases s.len() - i,
{
    if i < 0 || i >= s.len() || set.contains(s[i]) {
        i
    } else {
        stop_index(s, set, i + 1)
    }
}

/// The part of `s` before its first character in `set`, or all of `s`
/// (`s.split(&set[..]).next()`).
pub open spec fn before_any(s: Seq<char>, set: Seq<char>) -> Seq<char> {
    s.take(stop_index(s, set, 0))
}

proof fn lemma_stop_index(s: Seq<char>, set: Seq<char>, i: int)
    requires
        0 <= i <= s.len(),
    ensures
        i <= stop_index(s, set, i) <= s.len(),
    decreases s.len() - i,
{
    if i < s.len() && !set.contains(s[i]) {
        lemma_stop_index(s, set, i + 1);
    }
}

/// The part of `s` before its first character in `set`.
pub fn before_any_exec(s: &[char], set: &[char]) -> (r: Vec<char>)
    ensures
        r@ == before_any(s@, set@),
{
    let mut i: usize = 0;
    while i < s.len() && !in_set(s[i], set)
        invariant
            i <= s@.len(),
            stop_index(s@, set@, 0) == stop_index(s@, set@, i as int),
        decreases s.len() - i,
    {
        i += 1;
    }
    slice_range(s, 0, i)
}

/// `s.split(sep)`: the pieces between occurrences of a non-empty `sep`.
pub open spec fn split_on(s: Seq<char>, sep: Seq<char>) -> Seq<Seq<char>>
    decreases s.len(),
{
    match find(s, sep) {
        Some(k) => {
            if sep.len() > 0 && 0 <= k && k + sep.len() <= s.len() {
                seq![s.subrange(0, k)] + split_on(s.subrange(k + sep.len(), s.len() as int), sep)
            } else {
                seq![s]
            }
        },
        None => seq![s],
    }
}

/// The pieces of `s` between occurrences of `sep`.
pub fn split_on_exec(s: &[char], sep: &[char]) -> (r: Vec<Vec<char>>)
    requires
        sep@.len() > 0,
    ensures
        r@.len() == split_on(s@, sep@).len(),
        forall|i: int| 0 <= i < r@.len() ==> (#[trigger] r@[i])@ == split_on(s@, sep@)[i],
{
    let mut out: Vec<Vec<char>> = Vec::new();
    let ghost done: Seq<Seq<char>> = Seq::empty();
    let mut rest = slice_range(s, 0, s.len());
    assert(s@.subrange(0, s@.len() as int) =~= s@);
    loop
        invariant
            sep@.len() > 0,
            done.len() == out@.len(),
            forall|k: int| 0 <= k < out@.len() ==> (#[trigger] out@[k])@ == done[k],
            split_on(s@, sep@) == done + split_on(rest@, sep@),
        decreases rest@.len(),
    {
        match find_exec(rest.as_slice(), sep) {
            Some(k) => {
                let n = rest.len();
                proof {
                    lemma_find_from_facts(rest@, sep@, 0);
                }
                assert(k + sep@.len() <= n);
                let piece = slice_range(rest.as_slice(), 0, k);
                let next = slice_range(rest.as_slice(), k + sep.len(), rest.len());
                proof {
                    assert(done + split_on(rest@, sep@) =~= done.push(piece@) + split_on(next@, sep@));
                    done = done.push(piece@);
                }
                out.push(piece);
                rest = next;
            },
            None => {
                proof {
                    assert(done + split_on(rest@, sep@) =~= done.push(rest@));
                    done = done.push(rest@);
                }
                out.push(rest);
                assert(split_on(s@, sep@) =~= done);
                return out;
            },
        }
    }
}

// ── Numbers ──────────────────────────────────────────────────────────────────

/// The decimal digit for `d < 10`.
pub open spec fn digit_char(d: nat) -> char {
    if d == 0 {
        '0'
    } else if d == 1 {
        '1'
    } else if d == 2 {
        '2'
    } else if d == 3 {
        '3'
    } else if d == 4 {
        '4'
    } else if d == 5 {
        '5'
    } else if d == 6 {
        '6'
    } else if d == 7 {
        '7'
    } else if d == 8 {
        '8'
    } else {
        '9'
    }
}

/// The decimal notation of `n`, as `format!("{n}")` writes it.
pub open spec fn decimal(n: nat) -> Seq<char>
    decreases n,
{
    if n < 10 {
        seq![digit_char(n)]
    } else {
        decimal(n / 10) + seq![digit_char(n % 10)]
    }
}

fn digit_exec(d: usize) -> (c: char)
    requires
        d < 10,
    ensures
        c == digit_char(d as nat),
{
    if d == 0 {
        '0'
    } else if d == 1 {
        '1'
    } else if d == 2 {
        '2'
    } else if d == 3 {
        '3'
    } else if d == 4 {
        '4'
    } else if d == 5 {
        '5'
    } else if d == 6 {
        '6'
    } else if d == 7 {
        '7'
    } else if d == 8 {
        '8'
    } else {
        '9'
    }
}

/// The decimal digits of `n`.
pub fn decimal_chars(n: usize) -> (r: Vec<char>)
    ensures
        r@ == decimal(n as nat),
    decreases n,
{
    if n < 10 {
        let mut r = Vec::new();
        r.push(digit_exec(n));
        assert(r@ =~= decimal(n as nat));
        r
    } else {
        let mut r = decimal_chars(n / 10);
        r.push(digit_exec(n % 10));
        r
    }
}

/// `n.to_string()`.
pub fn usize_to_string(n: usize) -> (r: String)
    ensures
        r@ == decimal(n as nat),
{
    let v = decimal_chars(n);
    string_from_chars(v.as_slice())
}

pub proof fn lemma_decimal_len_pos(n: nat)
    ensures
        decimal(n).len() >= 1,
    decreases n,
{
    if n >= 10 {
        lemma_decimal_len_pos(n / 10);
    }
}

/// The lowercase hexadecimal digit for `d < 16`.
pub open spec fn hex_digit(d: nat) -> char {
    if d < 10 {
        digit_char(d)
    } else if d == 10 {
        'a'
    } else if d == 11 {
        'b'
    } else if d == 12 {
        'c'
    } else if d == 13 {
        'd'
    } else if d == 14 {
        'e'
    } else {
        'f'
    }
}

/// `format!("{b:02x}")` for each byte, concatenated.
pub open spec fn hex_lower(bytes: Seq<u8>) -> Seq<char>
    decreases bytes.len(),
{
    if bytes.len() == 0 {
        Seq::empty()
    } else {
        hex_lower(bytes.drop_last()) + seq![
            hex_digit((bytes.last() / 16) as nat),
            hex_digit((bytes.last() % 16) as nat),
        ]
    }
}

fn hex_digit_exec(d: u8) -> (c: char)
    requires
        d < 16,
    ensures
        c == hex_digit(d as nat),
{
    if d < 10 {
        digit_exec(d as usize)
    } else if d == 10 {
        'a'
    } else if d == 11 {
        'b'
    } else if d == 12 {
        'c'
    } else if d == 13 {
        'd'
    } else if d == 14 {
        'e'
    } else {
        'f'
    }
}

/// Two digits per byte.
pub proof fn lemma_hex_lower_len(bytes: Seq<u8>)
    ensures
        hex_lower(bytes).len() == 2 * bytes.len(),
    decreases bytes.len(),
{
    if bytes.len() > 0 {
        lemma_hex_lower_len(bytes.drop_last());
    }
}

/// The bytes as two lowercase hexadecimal digits each.
pub fn to_hex_lower(bytes: &[u8]) -> (r: String)
    ensures
        r@ == hex_lower(bytes@),
{
    let mut v: Vec<char> = Vec::new();
    let mut i: usize = 0;
    while i < bytes.len()
        invariant
            i <= bytes@.len(),
            v@ == hex_lower(bytes@.subrange(0, i as int)),
        decreases bytes.len() - i,
    {
        let b = bytes[i];
        v.push(hex_digit_exec(b / 16));
        v.push(hex_digit_exec(b % 16));
        proof {
            let s = bytes@.subrange(0, i + 1);
            assert(s.drop_last() =~= bytes@.subrange(0, i as int));
            assert(s.last() == b);
        }
        i += 1;
    }
    assert(bytes@.subrange(0, bytes@.len() as int) =~= bytes@);
    string_from_chars(v.as_slice())
}

// ── Case ─────────────────────────────────────────────────────────────────────

/// What `str::to_lowercase` returns for a string with these characters.
pub uninterp spec fn lowercase(s: Seq<char>) -> Seq<char>;

/// `str::to_lowercase`: full Unicode lowercase mapping. Its result is named
/// `lowercase` and nothing more is claimed of it.
#[verifier::external_body]
pub(crate) fn to_lower(s: &str) -> (r: String)
    ensures
        r@ == lowercase(s@),
{
    s.to_lowercase()
}

// ── Building text ────────────────────────────────────────────────────────────

/// `n` spaces.
pub open spec fn spaces(n: nat) -> Seq<char> {
    Seq::new(n, |i: int| ' ')
}

/// `s` right-aligned in a field of `w` characters (`format!("{:>w$}")`).
pub open spec fn pad_left(s: Seq<char>, w: nat) -> Seq<char> {
    if s.len() < w {
        spaces((w - s.len()) as nat) + s
    } else {
        s
    }
}

/// Appends the characters of `s` to `v`.
pub fn append_str(v: &mut Vec<char>, s: &str)
    ensures
        final(v)@ == old(v)@ + s@,
{
    let cs = chars_of(s);
    append_chars(v, &cs);
}

/// Appends `s` to `v`.
pub fn append_chars(v: &mut Vec<char>, s: &[char])
    ensures
        final(v)@ == old(v)@ + s@,
{
    let ghost start = v@;
    let mut i: usize = 0;
    while i < s.len()
        invariant
            i <= s@.len(),
            v@ == start + s@.take(i as int),
        decreases s.len() - i,
    {
        v.push(s[i]);
        i += 1;
        assert(v@ =~= start + s@.take(i as int));
    }
    assert(s@.take(s@.len() as int) =~= s@);
}

/// Appends `n` spaces to `v`.
pub fn append_spaces(v: &mut Vec<char>, n: usize)
    ensures
        final(v)@ == old(v)@ + spaces(n as nat),
{
    let ghost start = v@;
    let mut i: usize = 0;
    while i < n
        invariant
            i <= n,
            v@ == start + spaces(i as nat),
        decreases n - i,
    {
        v.push(' ');
        i += 1;
        assert(v@ =~= start + spaces(i as nat));
    }
}

/// Appends `n` in decimal, right-aligned in `w` characters.
pub fn append_padded(v: &mut Vec<char>, n: usize, w: usize)
    ensures
        final(v)@ == old(v)@ + pad_left(decimal(n as nat), w as nat),
{
    let d = decimal_chars(n);
    if d.len() < w {
        append_spaces(v, w - d.len());
    }
    let ghost mid = v@;
    append_chars(v, &d);
    assert(v@ =~= old(v)@ + pad_left(decimal(n as nat), w as nat));
}

} // verus!
