//! Effective lines of code: blank lines and comments do not count.
//!
//! `LocMap` holds, for every line number `i`, how many of the first `i`
//! lines of a file are code, so that the count between any two lines is one
//! subtraction.
use vstd::prelude::*;

use crate::text::{
    chars_of, contains, contains_exec, find, find_exec, has_prefix, lines, lines_of, occurs_at,
    slice_range, starts_with, trim, trimmed,
};

verus! {

/// How one line is read, given whether a `/* ... */` comment is open before
/// it: whether it is a line of code, and whether a comment is open after it.
/// `t` is the line with white space trimmed at both ends.
pub open spec fn classify(in_block: bool, t: Seq<char>) -> (bool, bool) {
    if in_block {
        (false, !contains(t, "*/"@))
    } else if t.len() == 0 || starts_with(t, "//"@) || starts_with(t, "*"@) {
        (false, false)
    } else if starts_with(t, "/*"@) {
        (false, !contains(t, "*/"@))
    } else {
        (
            true,
            match find(t, "/*"@) {
                Some(pos) => !contains(t.subrange(pos, t.len() as int), "*/"@),
                None => false,
            },
        )
    }
}

/// Whether a block comment is open before line `i` (0-based) of `ls`.
pub open spec fn comment_open_before(ls: Seq<Seq<char>>, i: nat) -> bool
    decreases i,
{
    if i == 0 || i > ls.len() {
        false
    } else {
        classify(comment_open_before(ls, (i - 1) as nat), trim(ls[i - 1])).1
    }
}

/// Whether line `i` (0-based) of `ls` is a line of code.
pub open spec fn is_code_line(ls: Seq<Seq<char>>, i: nat) -> bool {
    i < ls.len() && classify(comment_open_before(ls, i), trim(ls[i as int])).0
}

/// How many of the first `i` lines of `ls` are code.
pub open spec fn code_lines_before(ls: Seq<Seq<char>>, i: nat) -> nat
    decreases i,
{
    if i == 0 {
        0
    } else {
        code_lines_before(ls, (i - 1) as nat) + if is_code_line(ls, (i - 1) as nat) {
            1nat
        } else {
            0nat
        }
    }
}

/// The count `LocMap::count` answers over a prefix table `p`.
pub open spec fn range_count(p: Seq<usize>, start: usize, end: usize) -> int {
    let n = p.len() - 1;
    let e = if end <= n { end as int } else { n };
    let s = if start == 0 { 0 } else { start - 1 };
    if p[e] >= p[s] {
        p[e] - p[s]
    } else {
        0
    }
}

/// Per-line prefix sums of effective lines of code for one file.
pub struct LocMap {
    prefix: Vec<usize>,
}

/// The table `LocMap::build` makes for `source`: entry `i` counts the code
/// lines among the first `i` lines.
pub open spec fn loc_table(source: Seq<char>) -> Seq<usize> {
    Seq::new(lines(source).len() + 1, |i: int| code_lines_before(lines(source), i as nat) as usize)
}

impl View for LocMap {
    type V = Seq<usize>;

    /// Entry `i` is the number of code lines among the first `i` lines.
    closed spec fn view(&self) -> Seq<usize> {
        self.prefix@
    }
}

impl LocMap {
    /// The table starts at 0 and grows by at most one per line.
    pub closed spec fn wf(&self) -> bool {
        &&& 1 <= self.prefix@.len() <= usize::MAX
        &&& self.prefix@[0] == 0
        &&& forall|i: int|
            0 <= i < self.prefix@.len() - 1 ==> #[trigger] self.prefix@[i + 1] == self.prefix@[i]
                || self.prefix@[i + 1] == self.prefix@[i] + 1
    }

    pub proof fn lemma_wf(&self)
        requires
            self.wf(),
        ensures
            1 <= self@.len() <= usize::MAX,
            self@[0] == 0,
            forall|i: int|
                0 <= i < self@.len() - 1 ==> #[trigger] self@[i + 1] == self@[i] || self@[i + 1]
                    == self@[i] + 1,
    {
    }

    /// Reads every line of `source` once and records how many lines of code
    /// precede each line.
    pub fn build(source: &str) -> (m: LocMap)
        ensures
            m.wf(),
            m@.len() == lines(source@).len() + 1,
            forall|i: int|
                0 <= i < m@.len() ==> #[trigger] m@[i] == code_lines_before(lines(source@), i as nat),
            m@ == loc_table(source@),
    {
        let chars = chars_of(source);
        let ls = lines_of(chars.as_slice());
        let ghost spec_lines = lines(source@);
        let n = ls.len();
        let mut prefix: Vec<usize> = Vec::new();
        prefix.push(0);
        let mut in_block = false;
        let mut i: usize = 0;
        while i < n
            invariant
                n == ls@.len(),
                n == spec_lines.len(),
                spec_lines == lines(source@),
                forall|k: int| 0 <= k < n ==> (#[trigger] ls@[k])@ == spec_lines[k],
                i <= n,
                prefix@.len() == i + 1,
                prefix@[0] == 0,
                in_block == comment_open_before(spec_lines, i as nat),
                forall|k: int| 0 <= k <= i ==> #[trigger] prefix@[k] == code_lines_before(spec_lines, k as nat),
                forall|k: int| 0 <= k <= i ==> #[trigger] prefix@[k] <= k,
                forall|k: int|
                    0 <= k < i ==> #[trigger] prefix@[k + 1] == prefix@[k] || prefix@[k + 1] == prefix@[k]
                        + 1,
            decreases n - i,
        {
            let t = trimmed(ls[i].as_slice());
            let (is_code, open_after) = classify_line(in_block, t.as_slice());
            let last = prefix[i];
            assert(last <= i);
            let next = if is_code { last + 1 } else { last };
            prefix.push(next);
            in_block = open_after;
            i += 1;
        }
        assert(prefix@.len() == prefix.len());
        assert(prefix@ =~= loc_table(source@));
        LocMap { prefix }
    }

    /// Number of lines the table covers.
    pub fn line_count(&self) -> (n: usize)
        requires
            self.wf(),
        ensures
            n == self@.len() - 1,
    {
        self.prefix.len() - 1
    }

    /// Lines of code from `start_line` to `end_line`, both 1-based and
    /// inclusive; `end_line` past the last line counts to the last line, and
    /// an empty range counts 0.
    pub fn count(&self, start_line: usize, end_line: usize) -> (r: usize)
        requires
            self.wf(),
            start_line <= self@.len(),
        ensures
            r == range_count(self@, start_line, end_line),
    {
        let n = self.prefix.len() - 1;
        let e = if end_line < n { end_line } else { n };
        let s = if start_line == 0 { 0 } else { start_line - 1 };
        if self.prefix[e] >= self.prefix[s] {
            self.prefix[e] - self.prefix[s]
        } else {
            0
        }
    }

    /// Lines of code in the whole file.
    pub fn total(&self) -> (r: usize)
        requires
            self.wf(),
        ensures
            r == self@.last(),
    {
        self.prefix[self.prefix.len() - 1]
    }

    proof fn lemma_monotone(&self, a: int, b: int)
        requires
            self.wf(),
            0 <= a <= b < self@.len(),
        ensures
            self@[a] <= self@[b] <= self@[a] + (b - a),
        decreases b - a,
    {
        if a < b {
            self.lemma_monotone(a, b - 1);
            assert(self.prefix@[(b - 1) + 1] == self.prefix@[b - 1] || self.prefix@[(b - 1) + 1]
                == self.prefix@[b - 1] + 1);
        }
    }

    /// Counting from the first line to the last gives the file's total.
    pub proof fn lemma_count_whole_file(&self)
        requires
            self.wf(),
        ensures
            range_count(self@, 1, (self@.len() - 1) as usize) == self@.last(),
    {
        self.lemma_monotone(0, self@.len() - 1);
    }

    /// Counts over adjacent ranges add up: lines `a..=b` and `b+1..=c`
    /// together count as many as `a..=c`.
    pub proof fn lemma_count_additive(&self, a: usize, b: usize, c: usize)
        requires
            self.wf(),
            1 <= a <= b + 1,
            b + 1 <= c,
            c < self@.len(),
        ensures
            range_count(self@, a, b) + range_count(self@, (b + 1) as usize, c) == range_count(
                self@,
                a,
                c,
            ),
    {
        self.lemma_monotone(a - 1, b as int);
        self.lemma_monotone(b as int, c as int);
    }

    /// A range never counts more lines than it spans, and the whole file
    /// never counts more than its number of lines.
    pub proof fn lemma_count_bounded(&self, a: usize, b: usize)
        requires
            self.wf(),
            1 <= a,
            a <= self@.len(),
        ensures
            a <= b ==> range_count(self@, a, b) <= b - a + 1,
            self@.last() <= self@.len() - 1,
    {
        let n = self@.len() - 1;
        self.lemma_monotone(0, n);
        if a <= b {
            let e = if b <= n { b as int } else { n };
            if a - 1 <= e {
                self.lemma_monotone(a - 1, e);
            } else {
                self.lemma_monotone(e, a - 1);
            }
        }
    }
}

/// Reads one trimmed line: whether it is code, and whether a block comment
/// is open after it.
pub fn classify_line(in_block: bool, t: &[char]) -> (r: (bool, bool))
    ensures
        r == classify(in_block, t@),
{
    let close = chars_of("*/");
    if in_block {
        return (false, !contains_exec(t, close.as_slice()));
    }
    let line_comment = chars_of("//");
    let star = chars_of("*");
    let open = chars_of("/*");
    if t.len() == 0 || has_prefix(t, line_comment.as_slice()) || has_prefix(t, star.as_slice()) {
        (false, false)
    } else if has_prefix(t, open.as_slice()) {
        (false, !contains_exec(t, close.as_slice()))
    } else {
        match find_exec(t, open.as_slice()) {
            Some(pos) => {
                proof {
                    crate::text::lemma_find_from_facts(t@, open@, 0);
                }
                let tail = slice_range(t, pos, t.len());
                (true, !contains_exec(tail.as_slice(), close.as_slice()))
            },
            None => (true, false),
        }
    }
}

// ── What a count counts ──────────────────────────────────────────────────────

/// The code lines (0-based) from `s` up to, not including, `e`.
pub open spec fn code_line_set(ls: Seq<Seq<char>>, s: int, e: int) -> Set<int> {
    Set::new(|i: int| s <= i < e && is_code_line(ls, i as nat))
}

proof fn lemma_code_lines_between(ls: Seq<Seq<char>>, s: nat, e: nat)
    requires
        s <= e,
    ensures
        code_line_set(ls, s as int, e as int).finite(),
        code_line_set(ls, s as int, e as int).len() == code_lines_before(ls, e) - code_lines_before(ls, s),
    decreases e - s,
{
    if e == s {
        assert(code_line_set(ls, s as int, e as int) =~= Set::<int>::empty());
    } else {
        let e1 = (e - 1) as nat;
        lemma_code_lines_between(ls, s, e1);
        let prev = code_line_set(ls, s as int, e1 as int);
        if is_code_line(ls, e1) {
            assert(code_line_set(ls, s as int, e as int) =~= prev.insert(e1 as int));
            assert(!prev.contains(e1 as int));
        } else {
            assert(code_line_set(ls, s as int, e as int) =~= prev);
        }
    }
}

proof fn lemma_code_lines_monotone(ls: Seq<Seq<char>>, s: nat, e: nat)
    requires
        s <= e,
    ensures
        code_lines_before(ls, s) <= code_lines_before(ls, e),
    decreases e - s,
{
    if s < e {
        lemma_code_lines_monotone(ls, s, (e - 1) as nat);
    }
}

/// What `LocMap::count(a, b)` counts on the table `LocMap::build` makes:
/// the code lines among lines `a..=b` (1-based) of the file, lines past the
/// end left out. So no range counts more lines than it spans, and the
/// counts of adjacent ranges add up (see `lemma_count_bounded` and
/// `lemma_count_additive`).
pub proof fn lemma_count_is_code_lines(p: Seq<usize>, ls: Seq<Seq<char>>, a: usize, b: usize)
    requires
        p.len() == ls.len() + 1,
        forall|i: int| 0 <= i < p.len() ==> #[trigger] p[i] == code_lines_before(ls, i as nat),
        a <= p.len(),
    ensures
        range_count(p, a, b) == code_line_set(
            ls,
            if a == 0 { 0 } else { a - 1 },
            if b <= ls.len() { b as int } else { ls.len() as int },
        ).len(),
{
    let n = ls.len();
    let e: nat = if b <= n { b as nat } else { n };
    let s: nat = if a == 0 { 0 } else { (a - 1) as nat };
    assert(p[e as int] == code_lines_before(ls, e));
    assert(p[s as int] == code_lines_before(ls, s));
    if s <= e {
        lemma_code_lines_between(ls, s, e);
        lemma_code_lines_monotone(ls, s, e);
    } else {
        lemma_code_lines_monotone(ls, e, s);
        assert(code_line_set(ls, s as int, e as int) =~= Set::<int>::empty());
    }
}

// ── Comments closed on their own line ────────────────────────────────────────

/// A trimmed line that starts as code: not empty, and not opening with
/// `//`, `*` or `/*`.
pub open spec fn starts_as_code(t: Seq<char>) -> bool {
    t.len() > 0 && !starts_with(t, "//"@) && !starts_with(t, "*"@) && !starts_with(t, "/*"@)
}

/// Every `/*` of the text is closed by a `*/` that starts after it.
pub open spec fn comments_closed(t: Seq<char>) -> bool {
    forall|j: int| #[trigger] occurs_at(t, "/*"@, j) ==> exists|k: int| k >= j + 2 && occurs_at(t, "*/"@, k)
}

/// A line of code whose `/* ... */` comments all close on the same line is
/// counted, and leaves no comment open: the next line is read as it would
/// be after a plain line of code, so a next line that starts as code is
/// counted too (`int x = 1; /* c */` then `int y = 2;` count two lines).
pub proof fn lemma_inline_comment_closes(ls: Seq<Seq<char>>, i: nat)
    requires
        i < ls.len(),
        !comment_open_before(ls, i),
        starts_as_code(trim(ls[i as int])),
        comments_closed(trim(ls[i as int])),
    ensures
        is_code_line(ls, i),
        !comment_open_before(ls, i + 1),
        i + 1 < ls.len() && starts_as_code(trim(ls[i + 1 as int])) ==> is_code_line(ls, i + 1),
        i + 1 < ls.len() && starts_as_code(trim(ls[i + 1 as int])) ==> code_lines_before(ls, i + 2) == code_lines_before(
            ls,
            i,
        ) + 2,
{
    let t = trim(ls[i as int]);
    let open = "/*"@;
    let close = "*/"@;
    crate::text::lemma_find_from_facts(t, open, 0);
    if let Some(pos) = find(t, open) {
        assert(occurs_at(t, open, pos));
        let k = choose|k: int| k >= pos + 2 && occurs_at(t, close, k);
        let sub = t.subrange(pos, t.len() as int);
        assert(sub.subrange(k - pos, k - pos + close.len()) =~= t.subrange(k, k + close.len()));
        assert(occurs_at(sub, close, k - pos));
        crate::text::lemma_find_from_facts(sub, close, 0);
        assert(contains(sub, close));
    }
    assert(comment_open_before(ls, i + 1) == classify(comment_open_before(ls, i), trim(ls[i as int])).1);
    assert(!comment_open_before(ls, i + 1));
    assert(code_lines_before(ls, i + 2) == code_lines_before(ls, (i + 1) as nat) + if is_code_line(ls, (i + 1) as nat) {
        1nat
    } else {
        0nat
    });
}

} // verus!
