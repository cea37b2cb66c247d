//! Per-repository version-control state: branch label, ahead/behind counts,
//! and the dirty and untracked paths of `git status --porcelain`, matched
//! against artifact paths.

use vstd::prelude::*;
use crate::text::{chars_of, eq, extend, find_seq, has_prefix, is_whitespace, is_ws, lines, lines_of, lit, occurs_at, seqs_of, slice, starts_with, ends_with, has_suffix, string_of, trim, trim_chars, trim_char, trim_matches_char, trim_start, trim_start_chars};
use crate::paths::{join_path, path_join};
use crate::order::views;

verus! {

/// The state of a file in the working tree.
#[derive(Debug, Clone, Copy, PartialEq, Eq, Structural)]
pub enum WorktreeState {
    Clean,
    Modified,
    Untracked,
}

/// What the views show of an artifact's repository state.
#[derive(Debug, Clone)]
pub struct VcsState {
    pub branch: String,
    pub worktree: WorktreeState,
    pub ahead: usize,
    pub behind: usize,
    pub jj_colocated: bool,
}

// ---------------------------------------------------------------------------
// Numbers

/// A decimal digit.
pub open spec fn is_digit(c: char) -> bool {
    '0' <= c && c <= '9'
}

/// The value of a digit string.
pub open spec fn digits_value(s: Seq<char>) -> nat
    decreases s.len(),
{
    if s.len() == 0 {
        0
    } else {
        digits_value(s.drop_last()) * 10 + ((s.last() as u32) - ('0' as u32)) as nat
    }
}

/// `usize::from_str`: an optional `+`, then one or more decimal digits whose
/// value fits in `usize`.
pub open spec fn parse_usize_seq(s: Seq<char>) -> Option<nat> {
    let d = digits_part(s);
    if d.len() > 0 && (forall|i: int| 0 <= i < d.len() ==> is_digit(#[trigger] d[i])) && digits_value(d)
        <= usize::MAX {
        Some(digits_value(d))
    } else {
        None
    }
}

/// The digits of a number: the text after an optional leading `+`.
pub open spec fn digits_part(s: Seq<char>) -> Seq<char> {
    if s.len() > 0 && s[0] == '+' {
        s.skip(1)
    } else {
        s
    }
}

proof fn lemma_digits_value_monotone(s: Seq<char>, k: int)
    requires
        0 <= k <= s.len(),
        forall|i: int| 0 <= i < s.len() ==> is_digit(#[trigger] s[i]),
    ensures
        digits_value(s.take(k)) <= digits_value(s),
    decreases s.len() - k,
{
    if k < s.len() {
        lemma_digits_value_monotone(s, k + 1);
        assert(s.take(k + 1).drop_last() =~= s.take(k));
    } else {
        assert(s.take(k) =~= s);
    }
}

/// Parses a `usize` as `str::parse` does (see `parse_usize_seq`).
pub fn parse_usize(s: &[char]) -> (r: Option<usize>)
    ensures
        match r {
            Some(n) => parse_usize_seq(s@) == Some(n as nat),
            None => parse_usize_seq(s@) is None,
        },
{
    let start: usize = if s.len() > 0 && s[0] == '+' {
        1
    } else {
        0
    };
    let ghost d = digits_part(s@);
    assert(d =~= s@.skip(start as int));
    if start >= s.len() {
        return None;
    }
    let mut value: usize = 0;
    let mut i: usize = start;
    while i < s.len()
        invariant
            start <= i <= s.len(),
            start < s.len(),
            d == s@.skip(start as int),
            d == digits_part(s@),
            forall|j: int| start <= j < i ==> is_digit(#[trigger] s@[j]),
            value == digits_value(s@.subrange(start as int, i as int)),
        decreases s.len() - i,
    {
        let c = s[i];
        proof {
            assert(s@.subrange(start as int, i + 1).drop_last() =~= s@.subrange(start as int, i as int));
        }
        if !('0' <= c && c <= '9') {
            proof {
                assert(d[i - start] == s@[i as int]);
                assert(!is_digit(d[i - start]));
                assert(!(forall|x: int| 0 <= x < d.len() ==> is_digit(#[trigger] d[x])));
            }
            return None;
        }
        let digit = (c as u32 - '0' as u32) as usize;
        let next = match value.checked_mul(10) {
            Some(v) => v.checked_add(digit),
            None => None,
        };
        match next {
            Some(v) => {
                value = v;
            },
            None => {
                proof {
                    assert(d.take(i + 1 - start) =~= s@.subrange(start as int, i + 1));
                    assert(s@.subrange(start as int, i + 1).last() == c);
                    assert(digits_value(s@.subrange(start as int, i + 1)) == value * 10 + digit);
                    if forall|x: int| 0 <= x < d.len() ==> is_digit(#[trigger] d[x]) {
                        lemma_digits_value_monotone(d, i + 1 - start);
                    }
                }
                return None;
            },
        }
        i = i + 1;
    }
    assert(s@.subrange(start as int, s.len() as int) =~= d);
    Some(value)
}

// ---------------------------------------------------------------------------
// Whitespace-separated fields

/// Index of the first white-space character, or the length.
pub open spec fn ws_index(s: Seq<char>) -> int
    decreases s.len(),
{
    if s.len() == 0 {
        0
    } else if is_ws(s[0]) {
        0
    } else {
        1 + ws_index(s.drop_first())
    }
}

/// The first white-space separated field and the text after it
/// (`str::split_whitespace`'s first item).
pub open spec fn first_field(s: Seq<char>) -> Option<(Seq<char>, Seq<char>)> {
    let t = trim_start(s);
    if t.len() == 0 {
        None
    } else {
        Some((t.take(ws_index(t)), t.skip(ws_index(t))))
    }
}

proof fn lemma_ws_index(s: Seq<char>)
    ensures
        0 <= ws_index(s) <= s.len(),
        forall|j: int| 0 <= j < ws_index(s) ==> !is_ws(#[trigger] s[j]),
        ws_index(s) < s.len() ==> is_ws(s[ws_index(s)]),
    decreases s.len(),
{
    if s.len() > 0 && !is_ws(s[0]) {
        lemma_ws_index(s.drop_first());
        assert forall|j: int| 0 <= j < ws_index(s) implies !is_ws(#[trigger] s[j]) by {
            if j > 0 {
                assert(s[j] == s.drop_first()[j - 1]);
            }
        }
    }
}

pub(crate) proof fn lemma_ws_index_is(s: Seq<char>, k: int)
    requires
        0 <= k <= s.len(),
        forall|j: int| 0 <= j < k ==> !is_ws(#[trigger] s[j]),
        k < s.len() ==> is_ws(s[k]),
    ensures
        ws_index(s) == k,
    decreases s.len(),
{
    if s.len() > 0 && k > 0 {
        lemma_ws_index_is(s.drop_first(), k - 1);
    }
}

fn split_first_field(s: &[char]) -> (r: Option<(Vec<char>, Vec<char>)>)
    ensures
        match r {
            Some((a, b)) => first_field(s@) == Some((a@, b@)),
            None => first_field(s@) is None,
        },
{
    let t = trim_start_chars(s);
    if t.len() == 0 {
        return None;
    }
    let mut k: usize = 0;
    while k < t.len() && !is_whitespace(t[k])
        invariant
            k <= t.len(),
            forall|j: int| 0 <= j < k ==> !is_ws(#[trigger] t@[j]),
        decreases t.len() - k,
    {
        k = k + 1;
    }
    proof {
        lemma_ws_index_is(t@, k as int);
    }
    let a = slice(&t, 0, k);
    let b = slice(&t, k, t.len());
    assert(a@ =~= t@.take(k as int));
    assert(b@ =~= t@.skip(k as int));
    Some((a, b))
}

/// `<behind>\t<ahead>` as printed by `git rev-list --left-right --count`:
/// the first two fields, both numbers.
pub open spec fn counts_seq(raw: Seq<char>) -> Option<(nat, nat)> {
    match first_field(raw) {
        Some((f1, rest)) => match first_field(rest) {
            Some((f2, _)) => match (parse_usize_seq(f1), parse_usize_seq(f2)) {
                (Some(b), Some(a)) => Some((b, a)),
                _ => None,
            },
            None => None,
        },
        None => None,
    }
}

/// Reads `(behind, ahead)` from `git rev-list` output (see `counts_seq`).
pub fn parse_counts(raw: &str) -> (r: Option<(usize, usize)>)
    ensures
        match r {
            Some((b, a)) => counts_seq(raw@) == Some((b as nat, a as nat)),
            None => counts_seq(raw@) is None,
        },
{
    let s = chars_of(raw);
    let (f1, rest) = match split_first_field(&s) {
        Some(p) => p,
        None => {
            return None;
        },
    };
    let (f2, _) = match split_first_field(&rest) {
        Some(p) => p,
        None => {
            return None;
        },
    };
    let behind = match parse_usize(&f1) {
        Some(n) => n,
        None => {
            return None;
        },
    };
    let ahead = match parse_usize(&f2) {
        Some(n) => n,
        None => {
            return None;
        },
    };
    Some((behind, ahead))
}

// ---------------------------------------------------------------------------
// Porcelain status

/// Bytes in the UTF-8 encoding of a character.
pub open spec fn utf8_width(c: char) -> nat {
    let u = c as u32;
    if u < 0x80 {
        1
    } else if u < 0x800 {
        2
    } else if u < 0x10000 {
        3
    } else {
        4
    }
}

/// Bytes in the UTF-8 encoding of a text (`str::len`).
pub open spec fn byte_len(s: Seq<char>) -> nat
    decreases s.len(),
{
    if s.len() == 0 {
        0
    } else {
        byte_len(s.drop_last()) + utf8_width(s.last())
    }
}

/// The number of characters making up the first three bytes, when the
/// third byte ends a character.
pub open spec fn three_byte_prefix(line: Seq<char>) -> Option<int> {
    if exists|k: int| 0 <= k <= line.len() && byte_len(#[trigger] line.take(k)) == 3 {
        Some(choose|k: int| 0 <= k <= line.len() && byte_len(#[trigger] line.take(k)) == 3)
    } else {
        None
    }
}

/// Every status line of four or more bytes has a character boundary after
/// its third byte (as porcelain output, whose status code is ASCII, has).
pub open spec fn well_split(raw: Seq<char>) -> bool {
    forall|i: int|
        0 <= i < lines(raw).len() && byte_len(#[trigger] lines(raw)[i]) >= 4 ==> three_byte_prefix(
            lines(raw)[i],
        ) is Some
}

/// Index of the last occurrence of `pat` in `s`, or -1.
pub open spec fn last_occurrence(s: Seq<char>, pat: Seq<char>) -> int
    decreases s.len(),
{
    if s.len() < pat.len() {
        -1
    } else if occurs_at(s, pat, s.len() - pat.len()) {
        s.len() - pat.len()
    } else if s.len() == 0 {
        -1
    } else {
        last_occurrence(s.drop_last(), pat)
    }
}

/// The rename arrow of porcelain output.
pub open spec fn arrow() -> Seq<char> {
    seq![' ', '-', '>', ' ']
}

/// The path of a status entry: after the last ` -> ` (the new name of a
/// rename), with surrounding double quotes removed.
pub open spec fn entry_path(rest: Seq<char>) -> Seq<char> {
    let i = last_occurrence(rest, arrow());
    let p = if i >= 0 {
        rest.skip(i + 4)
    } else {
        rest
    };
    trim_char(p, '"')
}

/// One status line's classification: `None` for a line under four bytes,
/// else whether it is untracked (`??`) and its path.
pub open spec fn status_entry(line: Seq<char>) -> Option<(bool, Seq<char>)> {
    if byte_len(line) < 4 {
        None
    } else {
        let k = three_byte_prefix(line)->Some_0;
        Some((has_prefix(line.take(k), seq!['?', '?']), entry_path(line.skip(k))))
    }
}

/// The paths of the status lines of one class (dirty or untracked), each
/// once, in order of first occurrence (the set of those paths).
pub open spec fn status_paths(ls: Seq<Seq<char>>, untracked: bool) -> Seq<Seq<char>>
    decreases ls.len(),
{
    if ls.len() == 0 {
        Seq::empty()
    } else {
        let prev = status_paths(ls.drop_last(), untracked);
        match status_entry(ls.last()) {
            Some((u, p)) => if u == untracked && !prev.contains(p) {
                prev.push(p)
            } else {
                prev
            },
            None => prev,
        }
    }
}

/// No path is listed twice.
proof fn lemma_status_paths_distinct(ls: Seq<Seq<char>>, untracked: bool)
    ensures
        status_paths(ls, untracked).no_duplicates(),
    decreases ls.len(),
{
    if ls.len() > 0 {
        lemma_status_paths_distinct(ls.drop_last(), untracked);
    }
}

fn width_of(c: char) -> (r: usize)
    ensures
        r == utf8_width(c),
{
    let u = c as u32;
    if u < 0x80 {
        1
    } else if u < 0x800 {
        2
    } else if u < 0x10000 {
        3
    } else {
        4
    }
}

proof fn lemma_byte_len_prefix(s: Seq<char>, k: int)
    requires
        0 <= k < s.len(),
    ensures
        byte_len(s.take(k + 1)) == byte_len(s.take(k)) + utf8_width(s[k]),
{
    assert(s.take(k + 1).drop_last() =~= s.take(k));
}

proof fn lemma_byte_len_monotone(s: Seq<char>, a: int, b: int)
    requires
        0 <= a <= b <= s.len(),
    ensures
        byte_len(s.take(a)) + (b - a) <= byte_len(s.take(b)),
    decreases b - a,
{
    if a < b {
        lemma_byte_len_monotone(s, a, b - 1);
        lemma_byte_len_prefix(s, b - 1);
    }
}

/// The byte length of a line, capped just above four.
fn byte_len_at_least_four(line: &[char]) -> (r: bool)
    ensures
        r == (byte_len(line@) >= 4),
{
    let mut total: usize = 0;
    let mut k: usize = 0;
    while k < line.len() && total < 4
        invariant
            k <= line.len(),
            total == byte_len(line@.take(k as int)),
        decreases line.len() - k,
    {
        proof {
            lemma_byte_len_prefix(line@, k as int);
        }
        total = total + width_of(line[k]);
        k = k + 1;
    }
    proof {
        if total >= 4 {
            lemma_byte_len_monotone(line@, k as int, line.len() as int);
        }
        assert(line@.take(line.len() as int) =~= line@);
    }
    total >= 4
}

fn find_three_bytes(line: &[char]) -> (r: Option<usize>)
    ensures
        match r {
            Some(k) => k <= line.len() && byte_len(line@.take(k as int)) == 3 && three_byte_prefix(line@) == Some(k as int),
            None => three_byte_prefix(line@) is None,
        },
{
    let mut total: usize = 0;
    let mut k: usize = 0;
    while k < line.len() && total < 3
        invariant
            k <= line.len(),
            total == byte_len(line@.take(k as int)),
            total <= 3 + 3,
            forall|j: int| 0 <= j < k ==> byte_len(#[trigger] line@.take(j)) < 3,
        decreases line.len() - k,
    {
        proof {
            lemma_byte_len_prefix(line@, k as int);
        }
        total = total + width_of(line[k]);
        k = k + 1;
    }
    proof {
        assert forall|j: int| k < j <= line.len() implies byte_len(#[trigger] line@.take(j)) > 3 || total != 3 by {
            lemma_byte_len_monotone(line@, k as int, j);
        }
    }
    if total == 3 {
        proof {
            let c = choose|c: int| 0 <= c <= line@.len() && byte_len(#[trigger] line@.take(c)) == 3;
            if c < k {
            } else if c > k {
                lemma_byte_len_monotone(line@, k as int, c);
            }
            assert(c == k);
        }
        Some(k)
    } else {
        proof {
            if exists|c: int| 0 <= c <= line@.len() && byte_len(#[trigger] line@.take(c)) == 3 {
                let c = choose|c: int| 0 <= c <= line@.len() && byte_len(#[trigger] line@.take(c)) == 3;
                if c > k {
                    lemma_byte_len_monotone(line@, k as int, c);
                } else if c == k {
                } else {
                }
                if total < 3 {
                    assert(k == line.len());
                    assert(c <= k);
                    if c < k {
                    } else {
                    }
                }
            }
        }
        None
    }
}

fn last_arrow(s: &[char]) -> (r: Option<usize>)
    ensures
        match r {
            Some(i) => i + 4 <= s.len() && last_occurrence(s@, arrow()) == i,
            None => last_occurrence(s@, arrow()) == -1,
        },
{
    let pat = vec![' ', '-', '>', ' '];
    assert(pat@ =~= arrow());
    let mut n: usize = s.len();
    assert(s@.take(n as int) =~= s@);
    while n >= 4
        invariant
            n <= s.len(),
            pat@ == arrow(),
            last_occurrence(s@.take(n as int), arrow()) == last_occurrence(s@, arrow()),
        decreases n,
    {
        let at = n - 4;
        let hit = s[at] == ' ' && s[at + 1] == '-' && s[at + 2] == '>' && s[at + 3] == ' ';
        proof {
            let t = s@.take(n as int);
            assert(t.drop_last() =~= s@.take(n - 1));
            if hit {
                assert(t.subrange(at as int, at + 4) =~= arrow());
            } else {
                if occurs_at(t, arrow(), at as int) {
                    assert(t.subrange(at as int, at + 4)[0] == ' ');
                    assert(t.subrange(at as int, at + 4)[1] == '-');
                    assert(t.subrange(at as int, at + 4)[2] == '>');
                    assert(t.subrange(at as int, at + 4)[3] == ' ');
                }
            }
        }
        if hit {
            return Some(at);
        }
        n = n - 1;
    }
    None
}

fn entry_path_of(rest: &[char]) -> (r: Vec<char>)
    ensures
        r@ == entry_path(rest@),
{
    let p = match last_arrow(rest) {
        Some(i) => slice(rest, i + 4, rest.len()),
        None => slice(rest, 0, rest.len()),
    };
    assert(p@ =~= if last_occurrence(rest@, arrow()) >= 0 {
        rest@.skip(last_occurrence(rest@, arrow()) + 4)
    } else {
        rest@
    });
    trim_matches_char(&p, '"')
}

/// Splits porcelain v1 status output into dirty and untracked paths, in
/// order of first occurrence, each once (see `status_paths`): a rename
/// keeps its new path, quoted paths are unquoted, `??` lines are untracked
/// and the rest dirty, and lines under four bytes are skipped.
pub fn parse_status(raw: &str) -> (r: (Vec<String>, Vec<String>))
    requires
        well_split(raw@),
    ensures
        views(r.0@) == status_paths(lines(raw@), false),
        views(r.1@) == status_paths(lines(raw@), true),
        views(r.0@).no_duplicates(),
        views(r.1@).no_duplicates(),
{
    let text = chars_of(raw);
    let ls = lines_of(&text);
    let ghost lsv = seqs_of(ls@);
    let mut dirty: Vec<String> = Vec::new();
    let mut untracked: Vec<String> = Vec::new();
    let mut i: usize = 0;
    while i < ls.len()
        invariant
            i <= ls.len(),
            lsv == seqs_of(ls@),
            lsv == lines(raw@),
            well_split(raw@),
            views(dirty@) == status_paths(lsv.take(i as int), false),
            views(untracked@) == status_paths(lsv.take(i as int), true),
        decreases ls.len() - i,
    {
        let line = &ls[i];
        proof {
            assert(lsv[i as int] == line@);
            let t = lsv.take(i + 1);
            assert(t.drop_last() =~= lsv.take(i as int));
            assert(t.last() == line@);
        }
        if byte_len_at_least_four(line) {
            let k = match find_three_bytes(line) {
                Some(k) => k,
                None => {
                    proof {
                        assert(three_byte_prefix(lsv[i as int]) is Some);
                    }
                    0
                },
            };
            let code = slice(line, 0, k);
            let rest = slice(line, k, line.len());
            assert(code@ =~= line@.take(k as int));
            assert(rest@ =~= line@.skip(k as int));
            let path = string_of(&entry_path_of(&rest));
            let pc = chars_of(path.as_str());
            if starts_with(&code, &lit("??")) {
                if !crate::drift::contains_string(&untracked, &pc) {
                    let ghost before = untracked@;
                    untracked.push(path);
                    assert(views(untracked@) =~= views(before).push(path@));
                }
            } else {
                if !crate::drift::contains_string(&dirty, &pc) {
                    let ghost before = dirty@;
                    dirty.push(path);
                    assert(views(dirty@) =~= views(before).push(path@));
                }
            }
            proof {
                reveal_strlit("??");
                assert("??"@ =~= seq!['?', '?']);
            }
        }
        i = i + 1;
    }
    assert(lsv.take(ls.len() as int) =~= lsv);
    proof {
        lemma_status_paths_distinct(lsv, false);
        lemma_status_paths_distinct(lsv, true);
    }
    (dirty, untracked)
}

// ---------------------------------------------------------------------------
// Repository state

/// The version-control state of one repository.
#[derive(Debug, Clone)]
pub struct RepoVcs {
    pub branch: String,
    pub ahead: usize,
    pub behind: usize,
    pub jj_colocated: bool,
    /// The module directory relative to the repository root (empty when the
    /// module is the root).
    pub prefix: String,
    pub dirty: Vec<String>,
    pub untracked: Vec<String>,
}

/// A path is untracked when it is listed, or lies under a listed untracked
/// directory (an entry ending in `/`).
pub open spec fn covered_by(untracked: Seq<Seq<char>>, path: Seq<char>) -> bool {
    untracked.contains(path) || exists|i: int|
        0 <= i < untracked.len() && has_suffix(#[trigger] untracked[i], seq!['/']) && has_prefix(
            path,
            untracked[i],
        )
}

/// The working-tree state of a repository path.
pub open spec fn worktree_of(r: RepoVcs, repo_relative: Seq<char>) -> WorktreeState {
    if covered_by(views(r.untracked@), repo_relative) {
        WorktreeState::Untracked
    } else if views(r.dirty@).contains(repo_relative) {
        WorktreeState::Modified
    } else {
        WorktreeState::Clean
    }
}

impl RepoVcs {
    /// Whether a repository path is untracked (see `covered_by`).
    pub fn covers_untracked(&self, repo_relative: &[char]) -> (r: bool)
        ensures
            r == covered_by(views(self.untracked@), repo_relative@),
    {
        let slash = vec!['/'];
        assert(slash@ =~= seq!['/']);
        let mut i: usize = 0;
        while i < self.untracked.len()
            invariant
                i <= self.untracked.len(),
                slash@ == seq!['/'],
                forall|j: int|
                    0 <= j < i ==> (#[trigger] views(self.untracked@)[j]) != repo_relative@ && !(has_suffix(
                        views(self.untracked@)[j],
                        seq!['/'],
                    ) && has_prefix(repo_relative@, views(self.untracked@)[j])),
            decreases self.untracked.len() - i,
        {
            let e = chars_of(self.untracked[i].as_str());
            assert(views(self.untracked@)[i as int] == e@);
            if eq(&e, repo_relative) || (ends_with(&e, &slash) && starts_with(repo_relative, &e)) {
                return true;
            }
            i = i + 1;
        }
        proof {
            if views(self.untracked@).contains(repo_relative@) {
                let j = choose|j: int| 0 <= j < views(self.untracked@).len() && views(self.untracked@)[j] == repo_relative@;
                assert(views(self.untracked@)[j] != repo_relative@);
            }
        }
        false
    }

    /// The state of an artifact at `relative_path` below the module.
    pub fn state_for(&self, relative_path: &str) -> (r: VcsState)
        ensures
            r.branch@ == self.branch@,
            r.ahead == self.ahead,
            r.behind == self.behind,
            r.jj_colocated == self.jj_colocated,
            r.worktree == worktree_of(*self, join_path(self.prefix@, relative_path@)),
    {
        let repo_relative = path_join(&chars_of(self.prefix.as_str()), &chars_of(relative_path));
        let worktree = if self.covers_untracked(&repo_relative) {
            WorktreeState::Untracked
        } else if contains_path(&self.dirty, &repo_relative) {
            WorktreeState::Modified
        } else {
            WorktreeState::Clean
        };
        VcsState {
            branch: self.branch.clone(),
            worktree,
            ahead: self.ahead,
            behind: self.behind,
            jj_colocated: self.jj_colocated,
        }
    }
}

fn contains_path(v: &Vec<String>, p: &[char]) -> (r: bool)
    ensures
        r == views(v@).contains(p@),
{
    let mut i: usize = 0;
    while i < v.len()
        invariant
            i <= v.len(),
            forall|j: int| 0 <= j < i ==> (#[trigger] views(v@)[j]) != p@,
        decreases v.len() - i,
    {
        if eq(&chars_of(v[i].as_str()), p) {
            assert(views(v@)[i as int] == p@);
            return true;
        }
        i = i + 1;
    }
    proof {
        if views(v@).contains(p@) {
            let j = choose|j: int| 0 <= j < views(v@).len() && views(v@)[j] == p@;
            assert(views(v@)[j] != p@);
        }
    }
    false
}

// ---------------------------------------------------------------------------
// Branch label

/// The first line of a command's output, or empty.
pub open spec fn first_line(out: Option<Seq<char>>) -> Seq<char> {
    match out {
        Some(o) => if lines(o).len() > 0 {
            lines(o)[0]
        } else {
            Seq::empty()
        },
        None => Seq::empty(),
    }
}

/// The branch label of a repository, from the outputs of the commands that
/// can name it: the named branch (`git rev-parse --abbrev-ref HEAD`) unless
/// it is `HEAD`; in a jj-colocated repo the bookmark on the working-copy
/// parent; a branch pointing at `HEAD`; else `detached <short sha>`, or
/// empty when even that is unavailable.
pub open spec fn branch_label_seq(
    named: Option<Seq<char>>,
    jj_colocated: bool,
    bookmark: Option<Seq<char>>,
    pointing: Option<Seq<char>>,
    short_sha: Option<Seq<char>>,
) -> Seq<char> {
    let n = match named {
        Some(o) => trim(o),
        None => Seq::empty(),
    };
    if n.len() > 0 && n != "HEAD"@ {
        n
    } else if jj_colocated && first_line(bookmark).len() > 0 {
        first_line(bookmark)
    } else if first_line(pointing).len() > 0 {
        first_line(pointing)
    } else {
        match short_sha {
            Some(o) => "detached "@ + trim(o),
            None => Seq::empty(),
        }
    }
}

fn first_line_of(out: &Option<String>) -> (r: Vec<char>)
    ensures
        r@ == first_line(match out {
            Some(o) => Some(o@),
            None => None,
        }),
{
    match out {
        Some(o) => {
            let ls = lines_of(&chars_of(o.as_str()));
            if ls.len() > 0 {
                assert(seqs_of(ls@)[0] == ls@[0]@);
                slice(&ls[0], 0, ls[0].len())
            } else {
                Vec::new()
            }
        },
        None => Vec::new(),
    }
}

/// The views of an optional command output.
pub open spec fn out_view(o: Option<String>) -> Option<Seq<char>> {
    match o {
        Some(s) => Some(s@),
        None => None,
    }
}

/// Picks a repository's branch label from the commands' outputs (see
/// `branch_label_seq`); an output is `None` when its command failed.
pub fn branch_label(
    named: Option<String>,
    jj_colocated: bool,
    bookmark: Option<String>,
    pointing: Option<String>,
    short_sha: Option<String>,
) -> (r: String)
    ensures
        r@ == branch_label_seq(out_view(named), jj_colocated, out_view(bookmark), out_view(pointing), out_view(short_sha)),
{
    let n = match &named {
        Some(o) => trim_chars(&chars_of(o.as_str())),
        None => Vec::new(),
    };
    if n.len() > 0 && !eq(&n, &lit("HEAD")) {
        return string_of(&n);
    }
    if jj_colocated {
        let b = first_line_of(&bookmark);
        if b.len() > 0 {
            return string_of(&b);
        }
    }
    let p = first_line_of(&pointing);
    if p.len() > 0 {
        return string_of(&p);
    }
    match &short_sha {
        Some(o) => {
            let mut s = lit("detached ");
            extend(&mut s, &trim_chars(&chars_of(o.as_str())));
            string_of(&s)
        },
        None => String::new(),
    }
}

} // verus!
