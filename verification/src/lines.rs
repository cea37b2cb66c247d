//! The text the terminal view draws in its detail pane, as styled lines:
//! each line is a list of spans, each span a text with a tone (a colour or
//! emphasis). The terminal front end turns tones into its own styles.

use vstd::prelude::*;
use crate::text::{
    chars_of, has_prefix, is_whitespace, is_ws, lines, lines_of, lit, seqs_of, starts_with,
    string_of, trim, trim_chars, extend, join_seqs,
};
use crate::dotforge::{decimal, decimal_seq};
use crate::vcs::{VcsState, WorktreeState};
use crate::view::{overall_of, status_label, Adoption, ArtifactView, Companion, DeployGroup, DeployHarness, GitCommit, ModuleView};
use crate::tui::{status_dot, status_dot_seq, value_or_any, ColumnFocus};
use crate::dashboard::{MatrixCell, MatrixRow, MatrixView, NestedGroup, NestedSub};
use crate::view::StatusSummary;
use crate::drift::{contains_string, DriftEntry, DriftResult, DriftStatus};
use crate::order::views;
use crate::provenance::ProvenanceSummary;
use crate::result::{ActionResult, SkippedFile};
use crate::report::{extract_relative_path, mentions_provider, provider_has_errors, reason_label, relative_tail, skip_reason_label, ProviderGroup};
use crate::web::{unwrap_shell, unwrap_shell_seq, DepLink, HookEntry};

verus! {

/// How a span is drawn.
#[derive(Debug, Clone, Copy, PartialEq, Eq, Structural)]
pub enum Tone {
    Plain,
    Bold,
    Green,
    Red,
    Yellow,
    Cyan,
    Magenta,
    MagentaBold,
    DarkGray,
    DarkGrayBold,
}

/// A run of text drawn in one tone.
#[derive(Debug, Clone)]
pub struct StyledSpan {
    pub text: String,
    pub tone: Tone,
}

/// One line of the detail pane.
#[derive(Debug, Clone)]
pub struct StyledLine {
    pub spans: Vec<StyledSpan>,
}

/// A line as its spans' texts and tones.
pub type LineView = Seq<(Seq<char>, Tone)>;

pub open spec fn line_view(l: StyledLine) -> LineView {
    l.spans@.map_values(|s: StyledSpan| (s.text@, s.tone))
}

pub open spec fn lines_view(v: Seq<StyledLine>) -> Seq<LineView> {
    v.map_values(|l: StyledLine| line_view(l))
}

/// A line of one span.
pub open spec fn one(text: Seq<char>, tone: Tone) -> LineView {
    seq![(text, tone)]
}

/// A line of plain text.
pub open spec fn plain(text: Seq<char>) -> LineView {
    one(text, Tone::Plain)
}

/// Builds a line of one span.
pub fn span_line(text: String, tone: Tone) -> (r: StyledLine)
    ensures
        line_view(r) == one(text@, tone),
{
    let r = StyledLine { spans: vec![StyledSpan { text, tone }] };
    assert(line_view(r) =~= one(text@, tone));
    r
}

/// Builds a line of plain text.
pub fn plain_line(text: String) -> (r: StyledLine)
    ensures
        line_view(r) == plain(text@),
{
    span_line(text, Tone::Plain)
}

/// Builds a line of plain text from a literal.
fn plain_str(text: &str) -> (r: StyledLine)
    ensures
        line_view(r) == plain(text@),
{
    plain_line(String::from_str(text))
}

/// Builds a line of two spans.
fn pair_line(a: String, ta: Tone, b: String, tb: Tone) -> (r: StyledLine)
    ensures
        line_view(r) == seq![(a@, ta), (b@, tb)],
{
    let r = StyledLine { spans: vec![StyledSpan { text: a, tone: ta }, StyledSpan { text: b, tone: tb }] };
    assert(line_view(r) =~= seq![(a@, ta), (b@, tb)]);
    r
}

/// Appends a line to a list of lines.
fn push_line(v: &mut Vec<StyledLine>, l: StyledLine)
    ensures
        lines_view(final(v)@) == lines_view(old(v)@).push(line_view(l)),
{
    v.push(l);
    assert(lines_view(v@) =~= lines_view(old(v)@).push(line_view(l)));
}

// ---------------------------------------------------------------------------
// Diffs

/// The tone of one line of `git diff` output, as a pager colours it.
pub open spec fn diff_tone(line: Seq<char>) -> Tone {
    if has_prefix(line, "+++"@) || has_prefix(line, "---"@) {
        Tone::DarkGrayBold
    } else if has_prefix(line, "+"@) {
        Tone::Green
    } else if has_prefix(line, "-"@) {
        Tone::Red
    } else if has_prefix(line, "@@"@) {
        Tone::Cyan
    } else if has_prefix(line, "diff "@) || has_prefix(line, "index "@) {
        Tone::DarkGray
    } else {
        Tone::Plain
    }
}

/// One diff line in its tone (see `diff_tone`).
pub fn diff_line_colored(line: &str) -> (r: StyledLine)
    ensures
        line_view(r) == one(line@, diff_tone(line@)),
{
    let c = chars_of(line);
    let tone = if starts_with(&c, &lit("+++")) || starts_with(&c, &lit("---")) {
        Tone::DarkGrayBold
    } else if starts_with(&c, &lit("+")) {
        Tone::Green
    } else if starts_with(&c, &lit("-")) {
        Tone::Red
    } else if starts_with(&c, &lit("@@")) {
        Tone::Cyan
    } else if starts_with(&c, &lit("diff ")) || starts_with(&c, &lit("index ")) {
        Tone::DarkGray
    } else {
        Tone::Plain
    };
    span_line(String::from_str(line), tone)
}

/// The line starts with a hunk header: its first span begins with `@@`.
pub open spec fn is_hunk_header(l: LineView) -> bool {
    l.len() > 0 && has_prefix(l[0].0, "@@"@)
}

/// The positions of the hunk headers among `ls`, in order.
pub open spec fn hunk_rows(ls: Seq<LineView>) -> Seq<int>
    decreases ls.len(),
{
    if ls.len() == 0 {
        Seq::empty()
    } else {
        let prev = hunk_rows(ls.drop_last());
        if is_hunk_header(ls.last()) {
            prev.push(ls.len() - 1)
        } else {
            prev
        }
    }
}

/// Row offsets of the hunk headers within rendered diff lines.
pub fn hunk_offsets(lines: &[StyledLine]) -> (r: Vec<usize>)
    ensures
        r@.map_values(|i: usize| i as int) == hunk_rows(lines_view(lines@)),
{
    let ghost lv = lines_view(lines@);
    let mut r: Vec<usize> = Vec::new();
    let mut i: usize = 0;
    let at = lit("@@");
    while i < lines.len()
        invariant
            i <= lines.len(),
            lv == lines_view(lines@),
            at@ == "@@"@,
            r@.map_values(|k: usize| k as int) == hunk_rows(lv.take(i as int)),
        decreases lines.len() - i,
    {
        proof {
            assert(lv.take(i + 1).drop_last() =~= lv.take(i as int));
            assert(lv.take(i + 1).last() == line_view(lines@[i as int]));
            assert(lv.take(i + 1).len() - 1 == i);
        }
        let header = if lines[i].spans.len() > 0 {
            proof {
                assert(line_view(lines@[i as int])[0] == (
                    lines@[i as int].spans@[0].text@,
                    lines@[i as int].spans@[0].tone,
                ));
            }
            starts_with(&chars_of(lines[i].spans[0].text.as_str()), &at)
        } else {
            false
        };
        if header {
            let ghost before = r@.map_values(|k: usize| k as int);
            r.push(i);
            assert(r@.map_values(|k: usize| k as int) =~= before.push(i as int));
        }
        i = i + 1;
    }
    assert(lv.take(lines.len() as int) =~= lv);
    r
}

/// What the version-control system gave for an artifact's source file:
/// no local repository, an untracked file (its body, or why it could not
/// be read), `git diff` that could not run or failed, or its output.
#[derive(Debug)]
pub enum DiffSource {
    NoRepo,
    Untracked { path: String, body: Result<String, String> },
    NotRun,
    Failed { stderr: String },
    Output { diff: String },
}

/// The bold header of the diff tab.
pub open spec fn diff_header() -> LineView {
    one("Diff · uncommitted source changes"@, Tone::Bold)
}

/// `n` copies of `c`.
pub open spec fn repeat_char(c: char, n: nat) -> Seq<char> {
    Seq::new(n, |i: int| c)
}

/// The rule drawn before each hunk: as wide as the pane (at least 8), less 2.
pub open spec fn hunk_rule(width: u16) -> Seq<char> {
    let w: nat = if width < 8 { 8 } else { width as nat };
    repeat_char('─', (w - 2) as nat)
}

/// The diff lines, with a rule before each hunk header.
pub open spec fn diff_body(ls: Seq<Seq<char>>, rule: Seq<char>) -> Seq<LineView>
    decreases ls.len(),
{
    if ls.len() == 0 {
        Seq::empty()
    } else {
        let prev = diff_body(ls.drop_last(), rule);
        let l = ls.last();
        let with_rule = if has_prefix(l, "@@"@) {
            prev.push(one(rule, Tone::DarkGray))
        } else {
            prev
        };
        with_rule.push(one(l, diff_tone(l)))
    }
}

/// The body of an untracked file, each line shown as added.
pub open spec fn added_lines(ls: Seq<Seq<char>>) -> Seq<LineView> {
    ls.map_values(|l: Seq<char>| one(seq!['+'] + l, Tone::Green))
}

/// The diff tab for what the version-control system gave.
pub open spec fn diff_view(source: DiffSource, width: u16) -> Seq<LineView> {
    match source {
        DiffSource::NoRepo => seq![diff_header(), plain("no local repo for this module"@)],
        DiffSource::Untracked { path, body } => {
            let head = seq![
                diff_header(),
                seq![("● "@, Tone::Magenta), ("untracked file — whole body is new"@, Tone::Plain)],
                Seq::empty(),
            ];
            match body {
                Ok(b) => head + added_lines(lines(b@)),
                Err(e) => head.push(plain("could not read "@ + path@ + ": "@ + e@)),
            }
        },
        DiffSource::NotRun => seq![diff_header(), plain("git diff failed to run"@)],
        DiffSource::Failed { stderr } => seq![
            diff_header(),
            plain("git diff failed: "@ + trim(stderr@)),
        ],
        DiffSource::Output { diff } => if trim(diff@).len() == 0 {
            seq![
                diff_header(),
                seq![
                    ("✓ "@, Tone::Green),
                    ("source file matches HEAD — no uncommitted changes"@, Tone::Plain),
                ],
            ]
        } else {
            seq![diff_header(), Seq::empty()] + diff_body(lines(diff@), hunk_rule(width))
        },
    }
}

fn diff_header_line() -> (r: StyledLine)
    ensures
        line_view(r) == diff_header(),
{
    span_line(String::from_str("Diff · uncommitted source changes"), Tone::Bold)
}

fn empty_line() -> (r: StyledLine)
    ensures
        line_view(r) == Seq::<(Seq<char>, Tone)>::empty(),
{
    let r = StyledLine { spans: Vec::new() };
    assert(line_view(r) =~= Seq::<(Seq<char>, Tone)>::empty());
    r
}

fn repeat(c: char, n: usize) -> (r: String)
    ensures
        r@ == repeat_char(c, n as nat),
{
    let mut v: Vec<char> = Vec::new();
    let mut i: usize = 0;
    while i < n
        invariant
            i <= n,
            v@ == repeat_char(c, i as nat),
        decreases n - i,
    {
        v.push(c);
        i = i + 1;
        assert(v@ =~= repeat_char(c, i as nat));
    }
    string_of(&v)
}

/// The diff tab (see `diff_view`): the untracked body as added lines, or
/// the coloured `git diff` output with a rule before each hunk.
pub fn diff_lines(source: &DiffSource, width: u16) -> (r: Vec<StyledLine>)
    ensures
        lines_view(r@) == diff_view(*source, width),
{
    let mut out: Vec<StyledLine> = Vec::new();
    push_line(&mut out, diff_header_line());
    match source {
        DiffSource::NoRepo => {
            push_line(&mut out, plain_str("no local repo for this module"));
            assert(lines_view(out@) =~= diff_view(*source, width));
        },
        DiffSource::Untracked { path, body } => {
            push_line(&mut out, pair_line(
                String::from_str("● "),
                Tone::Magenta,
                String::from_str("untracked file — whole body is new"),
                Tone::Plain,
            ));
            push_line(&mut out, empty_line());
            match body {
                Ok(b) => {
                    let ls = lines_of(&chars_of(b.as_str()));
                    let ghost head = lines_view(out@);
                    let ghost sl = seqs_of(ls@);
                    let mut i: usize = 0;
                    while i < ls.len()
                        invariant
                            i <= ls.len(),
                            sl == seqs_of(ls@),
                            lines_view(out@) == head + added_lines(sl.take(i as int)),
                        decreases ls.len() - i,
                    {
                        let mut t = vec!['+'];
                        extend(&mut t, &ls[i]);
                        let ghost before = lines_view(out@);
                        push_line(&mut out, span_line(string_of(&t), Tone::Green));
                        proof {
                            assert(t@ =~= seq!['+'] + ls@[i as int]@);
                            assert(sl[i as int] == ls@[i as int]@);
                            assert(added_lines(sl.take(i + 1)) =~= added_lines(sl.take(i as int)).push(
                                one(seq!['+'] + sl[i as int], Tone::Green),
                            ));
                            assert(lines_view(out@) =~= head + added_lines(sl.take(i + 1)));
                        }
                        i = i + 1;
                    }
                    assert(sl.take(ls.len() as int) =~= sl);
                },
                Err(e) => {
                    let mut t = lit("could not read ");
                    extend(&mut t, &chars_of(path.as_str()));
                    extend(&mut t, &lit(": "));
                    extend(&mut t, &chars_of(e.as_str()));
                    push_line(&mut out, plain_line(string_of(&t)));
                },
            }
            assert(lines_view(out@) =~= diff_view(*source, width));
        },
        DiffSource::NotRun => {
            push_line(&mut out, plain_str("git diff failed to run"));
            assert(lines_view(out@) =~= diff_view(*source, width));
        },
        DiffSource::Failed { stderr } => {
            let mut t = lit("git diff failed: ");
            extend(&mut t, &trim_chars(&chars_of(stderr.as_str())));
            push_line(&mut out, plain_line(string_of(&t)));
            assert(lines_view(out@) =~= diff_view(*source, width));
        },
        DiffSource::Output { diff } => {
            let dc = chars_of(diff.as_str());
            if trim_chars(&dc).len() == 0 {
                push_line(&mut out, pair_line(
                    String::from_str("✓ "),
                    Tone::Green,
                    String::from_str("source file matches HEAD — no uncommitted changes"),
                    Tone::Plain,
                ));
                assert(lines_view(out@) =~= diff_view(*source, width));
            } else {
                let w: usize = if width < 8 { 8 } else { width as usize };
                let rule = repeat('─', w - 2);
                push_line(&mut out, empty_line());
                let ls = lines_of(&dc);
                let ghost head = lines_view(out@);
                let ghost sl = seqs_of(ls@);
                let at = lit("@@");
                let mut i: usize = 0;
                while i < ls.len()
                    invariant
                        i <= ls.len(),
                        sl == seqs_of(ls@),
                        at@ == "@@"@,
                        rule@ == hunk_rule(width),
                        lines_view(out@) == head + diff_body(sl.take(i as int), rule@),
                    decreases ls.len() - i,
                {
                    proof {
                        assert(sl.take(i + 1).drop_last() =~= sl.take(i as int));
                        assert(sl.take(i + 1).last() == ls@[i as int]@);
                    }
                    let ghost before = lines_view(out@);
                    if starts_with(&ls[i], &at) {
                        push_line(&mut out, span_line(rule.clone(), Tone::DarkGray));
                    }
                    let s = string_of(&ls[i]);
                    push_line(&mut out, diff_line_colored(s.as_str()));
                    proof {
                        let d = diff_body(sl.take(i + 1), rule@);
                        assert(lines_view(out@) =~= head + d);
                    }
                    i = i + 1;
                }
                assert(sl.take(ls.len() as int) =~= sl);
                assert(lines_view(out@) =~= diff_view(*source, width));
            }
        },
    }
    out
}

// ---------------------------------------------------------------------------
// Word wrap

/// The words completed so far in `s` and the word being read.
pub open spec fn words_state(s: Seq<char>) -> (Seq<Seq<char>>, Seq<char>)
    decreases s.len(),
{
    if s.len() == 0 {
        (Seq::empty(), Seq::empty())
    } else {
        let (ws, cur) = words_state(s.drop_last());
        let c = s.last();
        if is_ws(c) {
            if cur.len() > 0 {
                (ws.push(cur), Seq::empty())
            } else {
                (ws, cur)
            }
        } else {
            (ws, cur.push(c))
        }
    }
}

/// The white-space separated words of `s` (`str::split_whitespace`).
pub open spec fn words(s: Seq<char>) -> Seq<Seq<char>> {
    let (ws, cur) = words_state(s);
    if cur.len() > 0 {
        ws.push(cur)
    } else {
        ws
    }
}

/// Splits a text into its words (see `words`).
pub fn split_words(s: &[char]) -> (r: Vec<Vec<char>>)
    ensures
        seqs_of(r@) == words(s@),
{
    let mut ws: Vec<Vec<char>> = Vec::new();
    let mut cur: Vec<char> = Vec::new();
    let mut i: usize = 0;
    while i < s.len()
        invariant
            i <= s.len(),
            (seqs_of(ws@), cur@) == words_state(s@.take(i as int)),
        decreases s.len() - i,
    {
        proof {
            assert(s@.take(i + 1).drop_last() =~= s@.take(i as int));
            assert(s@.take(i + 1).last() == s@[i as int]);
        }
        let c = s[i];
        if is_whitespace(c) {
            if cur.len() > 0 {
                let ghost before = seqs_of(ws@);
                let done = cur;
                cur = Vec::new();
                ws.push(done);
                assert(seqs_of(ws@) =~= before.push(done@));
            }
        } else {
            cur.push(c);
        }
        i = i + 1;
    }
    assert(s@.take(s.len() as int) =~= s@);
    if cur.len() > 0 {
        let ghost before = seqs_of(ws@);
        let c2 = cur;
        ws.push(c2);
        assert(seqs_of(ws@) =~= before.push(c2@));
    }
    ws
}

/// Greedy wrapping of words: the lines completed and the line being filled.
/// A word goes on the current line when it fits (with one space) within
/// `width`, else it starts a new line; a word longer than `width` stands
/// alone.
pub open spec fn wrap_state(ws: Seq<Seq<char>>, width: nat) -> (Seq<Seq<char>>, Seq<char>)
    decreases ws.len(),
{
    if ws.len() == 0 {
        (Seq::empty(), Seq::empty())
    } else {
        let (ls, cur) = wrap_state(ws.drop_last(), width);
        let w = ws.last();
        let (ls2, cur2) = if cur.len() > 0 && cur.len() + 1 + w.len() > width {
            (ls.push(cur), Seq::<char>::empty())
        } else {
            (ls, cur)
        };
        (ls2, if cur2.len() > 0 { cur2.push(' ') + w } else { cur2 + w })
    }
}

/// The wrapped lines of one line of text.
pub open spec fn wrap_line(line: Seq<char>, width: nat) -> Seq<Seq<char>> {
    let (ls, cur) = wrap_state(words(line), width);
    if cur.len() > 0 {
        ls.push(cur)
    } else {
        ls
    }
}

/// The wrapped lines of each line of `ls`, in order.
pub open spec fn wrap_each(ls: Seq<Seq<char>>, width: nat) -> Seq<Seq<char>>
    decreases ls.len(),
{
    if ls.len() == 0 {
        Seq::empty()
    } else {
        wrap_each(ls.drop_last(), width) + wrap_line(ls.last(), width)
    }
}

/// Word-wrapped text: unwrapped at width 0; each line wrapped on its own
/// when the text has several.
pub open spec fn wrap_text(text: Seq<char>, width: nat) -> Seq<Seq<char>> {
    if width == 0 {
        seq![text]
    } else if text.contains('\n') {
        wrap_each(lines(text), width)
    } else {
        wrap_line(text, width)
    }
}

fn wrap_one(line: &[char], width: usize) -> (r: Vec<Vec<char>>)
    ensures
        seqs_of(r@) == wrap_line(line@, width as nat),
{
    let ws = split_words(line);
    let ghost wv = seqs_of(ws@);
    let mut out: Vec<Vec<char>> = Vec::new();
    let mut cur: Vec<char> = Vec::new();
    let mut i: usize = 0;
    while i < ws.len()
        invariant
            i <= ws.len(),
            wv == seqs_of(ws@),
            (seqs_of(out@), cur@) == wrap_state(wv.take(i as int), width as nat),
        decreases ws.len() - i,
    {
        proof {
            assert(wv.take(i + 1).drop_last() =~= wv.take(i as int));
            assert(wv.take(i + 1).last() == ws@[i as int]@);
        }
        let w = &ws[i];
        if cur.len() > 0 && (cur.len() >= width || w.len() > width - 1 - cur.len()) {
            let ghost before = seqs_of(out@);
            let done = cur;
            cur = Vec::new();
            out.push(done);
            assert(seqs_of(out@) =~= before.push(done@));
        }
        let ghost c0 = cur@;
        if cur.len() > 0 {
            cur.push(' ');
        }
        extend(&mut cur, w);
        proof {
            if c0.len() > 0 {
                assert(cur@ =~= c0.push(' ') + w@);
            } else {
                assert(cur@ =~= c0 + w@);
            }
        }
        i = i + 1;
    }
    assert(wv.take(ws.len() as int) =~= wv);
    if cur.len() > 0 {
        let ghost before = seqs_of(out@);
        let c2 = cur;
        out.push(c2);
        assert(seqs_of(out@) =~= before.push(c2@));
    }
    out
}

/// Greedy word wrap of plain text (see `wrap_text`).
pub fn wrap_plain(text: &str, width: usize) -> (r: Vec<StyledLine>)
    ensures
        lines_view(r@) == wrap_text(text@, width as nat).map_values(|l: Seq<char>| plain(l)),
{
    let mut out: Vec<StyledLine> = Vec::new();
    if width == 0 {
        push_line(&mut out, plain_str(text));
        assert(lines_view(out@) =~= wrap_text(text@, width as nat).map_values(|l: Seq<char>| plain(l)));
        return out;
    }
    let tc = chars_of(text);
    let pieces: Vec<Vec<char>> = if crate::text::contains_char(&tc, '\n') {
        let ls = lines_of(&tc);
        let ghost sl = seqs_of(ls@);
        let mut acc: Vec<Vec<char>> = Vec::new();
        let mut i: usize = 0;
        while i < ls.len()
            invariant
                i <= ls.len(),
                sl == seqs_of(ls@),
                seqs_of(acc@) == wrap_each(sl.take(i as int), width as nat),
            decreases ls.len() - i,
        {
            proof {
                assert(sl.take(i + 1).drop_last() =~= sl.take(i as int));
                assert(sl.take(i + 1).last() == ls@[i as int]@);
            }
            let mut more = wrap_one(&ls[i], width);
            let ghost a = seqs_of(acc@);
            let ghost b = seqs_of(more@);
            acc.append(&mut more);
            assert(seqs_of(acc@) =~= a + b);
            i = i + 1;
        }
        assert(sl.take(ls.len() as int) =~= sl);
        acc
    } else {
        wrap_one(&tc, width)
    };
    let ghost pv = seqs_of(pieces@);
    assert(pv == wrap_text(text@, width as nat));
    let mut i: usize = 0;
    while i < pieces.len()
        invariant
            i <= pieces.len(),
            pv == seqs_of(pieces@),
            lines_view(out@) == pv.take(i as int).map_values(|l: Seq<char>| plain(l)),
        decreases pieces.len() - i,
    {
        push_line(&mut out, plain_line(string_of(&pieces[i])));
        proof {
            assert(pv[i as int] == pieces@[i as int]@);
            assert(pv.take(i + 1).map_values(|l: Seq<char>| plain(l)) =~= pv.take(i as int).map_values(
                |l: Seq<char>| plain(l),
            ).push(plain(pv[i as int])));
        }
        i = i + 1;
    }
    assert(pv.take(pieces.len() as int) =~= pv);
    out
}

// ---------------------------------------------------------------------------
// Version control, history, deployments, companions

/// The first `n` characters of `s` (`chars().take(n)`).
pub open spec fn first_chars(s: Seq<char>, n: nat) -> Seq<char> {
    if s.len() <= n {
        s
    } else {
        s.take(n as int)
    }
}

fn first_chars_of(s: &str, n: usize) -> (r: String)
    ensures
        r@ == first_chars(s@, n as nat),
{
    let c = chars_of(s);
    if c.len() <= n {
        String::from_str(s)
    } else {
        let t = crate::text::slice(&c, 0, n);
        assert(t@ =~= s@.take(n as int));
        string_of(&t)
    }
}

/// The branch with its ahead (`↑n`) and behind (`↓n`) counts when not zero.
pub open spec fn branch_text(v: VcsState) -> Seq<char> {
    v.branch@ + (if v.ahead > 0 {
        " ↑"@ + decimal_seq(v.ahead as nat)
    } else {
        Seq::empty()
    }) + (if v.behind > 0 {
        " ↓"@ + decimal_seq(v.behind as nat)
    } else {
        Seq::empty()
    })
}

fn branch_of(v: &VcsState) -> (r: Vec<char>)
    ensures
        r@ == branch_text(*v),
{
    let mut b = chars_of(v.branch.as_str());
    let ghost b0 = b@;
    if v.ahead > 0 {
        extend(&mut b, &lit(" ↑"));
        extend(&mut b, &decimal(v.ahead as u64));
    }
    let ghost b1 = b@;
    assert(b1 == b0 + (if v.ahead > 0 {
        " ↑"@ + decimal_seq(v.ahead as nat)
    } else {
        Seq::empty()
    }));
    if v.behind > 0 {
        extend(&mut b, &lit(" ↓"));
        extend(&mut b, &decimal(v.behind as u64));
    }
    assert(b@ =~= branch_text(*v));
    b
}

/// The worktree badge of the module view.
pub open spec fn module_state_span(w: WorktreeState) -> (Seq<char>, Tone) {
    match w {
        WorktreeState::Clean => ("✓ clean"@, Tone::Green),
        WorktreeState::Modified => ("⚠ uncommitted changes"@, Tone::Yellow),
        WorktreeState::Untracked => ("● untracked"@, Tone::Magenta),
    }
}

/// The worktree badge of the artifact view.
pub open spec fn artifact_state_span(w: WorktreeState) -> (Seq<char>, Tone) {
    match w {
        WorktreeState::Clean => ("✓ committed"@, Tone::Green),
        WorktreeState::Modified => ("⚠ uncommitted changes"@, Tone::Yellow),
        WorktreeState::Untracked => ("● untracked"@, Tone::Magenta),
    }
}

fn state_span(w: WorktreeState, for_module: bool) -> (r: StyledSpan)
    ensures
        (r.text@, r.tone) == if for_module {
            module_state_span(w)
        } else {
            artifact_state_span(w)
        },
{
    match w {
        WorktreeState::Clean => StyledSpan {
            text: String::from_str(if for_module { "✓ clean" } else { "✓ committed" }),
            tone: Tone::Green,
        },
        WorktreeState::Modified => StyledSpan {
            text: String::from_str("⚠ uncommitted changes"),
            tone: Tone::Yellow,
        },
        WorktreeState::Untracked => StyledSpan {
            text: String::from_str("● untracked"),
            tone: Tone::Magenta,
        },
    }
}

/// The module's version-control line: branch (with counts and a jj mark
/// when colocated), then the worktree state.
pub open spec fn module_vcs_view(v: VcsState) -> LineView {
    seq![
        (branch_text(v) + (if v.jj_colocated { " · jj"@ } else { Seq::empty() }), Tone::Cyan),
        (" · "@, Tone::Plain),
        module_state_span(v.worktree),
    ]
}

/// The module's version-control line (see `module_vcs_view`).
pub fn module_vcs_line(v: &VcsState) -> (r: StyledLine)
    ensures
        line_view(r) == module_vcs_view(*v),
{
    let mut b = branch_of(v);
    if v.jj_colocated {
        extend(&mut b, &lit(" · jj"));
    }
    let r = StyledLine {
        spans: vec![
            StyledSpan { text: string_of(&b), tone: Tone::Cyan },
            StyledSpan { text: String::from_str(" · "), tone: Tone::Plain },
            state_span(v.worktree, true),
        ],
    };
    assert(line_view(r) =~= module_vcs_view(*v));
    r
}

/// The artifact's version-control line: branch, worktree state, then the
/// latest commit (short sha and date, and its jj change), or a jj mark.
pub open spec fn artifact_vcs_view(a: ArtifactView) -> Option<LineView> {
    match a.vcs {
        None => None,
        Some(v) => {
            let head = seq![
                (branch_text(v), Tone::Cyan),
                (" · "@, Tone::Plain),
                artifact_state_span(v.worktree),
            ];
            if a.git_log@.len() > 0 {
                let c = a.git_log@[0];
                let with_commit = head.push(
                    (" · "@ + first_chars(c.sha@, 7) + " "@ + first_chars(c.date@, 10), Tone::DarkGray),
                );
                Some(if c.jj_change@.len() > 0 {
                    with_commit.push((" · jj "@ + c.jj_change@, Tone::DarkGray))
                } else {
                    with_commit
                })
            } else if v.jj_colocated {
                Some(head.push((" · jj"@, Tone::DarkGray)))
            } else {
                Some(head)
            }
        },
    }
}

fn push_span(l: &mut StyledLine, text: String, tone: Tone)
    ensures
        line_view(*final(l)) == line_view(*old(l)).push((text@, tone)),
{
    l.spans.push(StyledSpan { text, tone });
    assert(line_view(*l) =~= line_view(*old(l)).push((text@, tone)));
}

/// The artifact's version-control line (see `artifact_vcs_view`).
pub fn vcs_line(a: &ArtifactView) -> (r: Option<StyledLine>)
    ensures
        match r {
            Some(l) => artifact_vcs_view(*a) == Some(line_view(l)),
            None => artifact_vcs_view(*a) is None,
        },
{
    match &a.vcs {
        None => None,
        Some(v) => {
            let mut l = StyledLine {
                spans: vec![
                    StyledSpan { text: string_of(&branch_of(v)), tone: Tone::Cyan },
                    StyledSpan { text: String::from_str(" · "), tone: Tone::Plain },
                    state_span(v.worktree, false),
                ],
            };
            assert(line_view(l) =~= seq![
                (branch_text(*v), Tone::Cyan),
                (" · "@, Tone::Plain),
                artifact_state_span(v.worktree),
            ]);
            if a.git_log.len() > 0 {
                let c = &a.git_log[0];
                let mut t = lit(" · ");
                extend(&mut t, &chars_of(first_chars_of(c.sha.as_str(), 7).as_str()));
                extend(&mut t, &lit(" "));
                extend(&mut t, &chars_of(first_chars_of(c.date.as_str(), 10).as_str()));
                push_span(&mut l, string_of(&t), Tone::DarkGray);
                if crate::text::char_count(c.jj_change.as_str()) > 0 {
                    let mut j = lit(" · jj ");
                    extend(&mut j, &chars_of(c.jj_change.as_str()));
                    push_span(&mut l, string_of(&j), Tone::DarkGray);
                }
            } else if v.jj_colocated {
                push_span(&mut l, String::from_str(" · jj"), Tone::DarkGray);
            }
            Some(l)
        },
    }
}

/// The lines of one commit in the history tab: message, date, author and
/// sha, the jj change, and the checkpoint with its session count and intent.
pub open spec fn commit_history(c: GitCommit) -> Seq<LineView> {
    let base = seq![one(c.message@, Tone::Bold), plain(c.date@ + " · "@ + c.author@ + " · "@ + c.sha@)];
    let with_jj = if c.jj_change@.len() > 0 {
        base.push(plain("jj: "@ + c.jj_change@))
    } else {
        base
    };
    let with_checkpoint = if c.checkpoint@.len() > 0 {
        let a = with_jj.push(
            plain("checkpoint "@ + c.checkpoint@ + " · "@ + decimal_seq(c.session_count as nat) + " sessions"@),
        );
        if c.prompt@.len() > 0 {
            a.push(plain("intent: "@ + c.prompt@))
        } else {
            a
        }
    } else {
        with_jj
    };
    with_checkpoint.push(plain(Seq::empty()))
}

/// The history lines of each commit, in order.
pub open spec fn history_of(log: Seq<GitCommit>) -> Seq<LineView>
    decreases log.len(),
{
    if log.len() == 0 {
        Seq::empty()
    } else {
        history_of(log.drop_last()) + commit_history(log.last())
    }
}

/// The history tab.
pub open spec fn history_view(log: Seq<GitCommit>) -> Seq<LineView> {
    if log.len() == 0 {
        seq![plain("no git history"@)]
    } else {
        history_of(log)
    }
}

fn push_plain(out: &mut Vec<StyledLine>, t: Vec<char>)
    ensures
        lines_view(final(out)@) == lines_view(old(out)@).push(plain(t@)),
{
    push_line(out, plain_line(string_of(&t)));
}

fn commit_lines(out: &mut Vec<StyledLine>, c: &GitCommit)
    ensures
        lines_view(final(out)@) == lines_view(old(out)@) + commit_history(*c),
{
    let ghost start = lines_view(out@);
    push_line(out, span_line(c.message.clone(), Tone::Bold));
    let mut t = chars_of(c.date.as_str());
    extend(&mut t, &lit(" · "));
    extend(&mut t, &chars_of(c.author.as_str()));
    extend(&mut t, &lit(" · "));
    extend(&mut t, &chars_of(c.sha.as_str()));
    push_plain(out, t);
    let ghost base = seq![one(c.message@, Tone::Bold), plain(c.date@ + " · "@ + c.author@ + " · "@ + c.sha@)];
    assert(lines_view(out@) =~= start + base);
    if crate::text::char_count(c.jj_change.as_str()) > 0 {
        let mut j = lit("jj: ");
        extend(&mut j, &chars_of(c.jj_change.as_str()));
        push_plain(out, j);
    }
    let ghost with_jj = if c.jj_change@.len() > 0 {
        base.push(plain("jj: "@ + c.jj_change@))
    } else {
        base
    };
    assert(lines_view(out@) =~= start + with_jj);
    if crate::text::char_count(c.checkpoint.as_str()) > 0 {
        let mut k = lit("checkpoint ");
        extend(&mut k, &chars_of(c.checkpoint.as_str()));
        extend(&mut k, &lit(" · "));
        extend(&mut k, &decimal(c.session_count as u64));
        extend(&mut k, &lit(" sessions"));
        push_plain(out, k);
        if crate::text::char_count(c.prompt.as_str()) > 0 {
            let mut p = lit("intent: ");
            extend(&mut p, &chars_of(c.prompt.as_str()));
            push_plain(out, p);
        }
    }
    push_plain(out, Vec::new());
    assert(lines_view(out@) =~= start + commit_history(*c));
}

/// The history tab (see `history_view`).
pub fn history_lines(log: &[GitCommit]) -> (r: Vec<StyledLine>)
    ensures
        lines_view(r@) == history_view(log@),
{
    let mut out: Vec<StyledLine> = Vec::new();
    if log.len() == 0 {
        push_line(&mut out, plain_str("no git history"));
        assert(lines_view(out@) =~= history_view(log@));
        return out;
    }
    let mut i: usize = 0;
    while i < log.len()
        invariant
            i <= log.len(),
            lines_view(out@) == history_of(log@.take(i as int)),
        decreases log.len() - i,
    {
        proof {
            assert(log@.take(i + 1).drop_last() =~= log@.take(i as int));
            assert(log@.take(i + 1).last() == log@[i as int]);
        }
        commit_lines(&mut out, &log[i]);
        i = i + 1;
    }
    assert(log@.take(log.len() as int) =~= log@);
    out
}

/// `s` padded with spaces to `n` characters (`format!("{s:<n}")`).
pub open spec fn pad_right(s: Seq<char>, n: nat) -> Seq<char> {
    if s.len() >= n {
        s
    } else {
        s + repeat_char(' ', (n - s.len()) as nat)
    }
}

fn pad_to(s: &str, n: usize) -> (r: String)
    ensures
        r@ == pad_right(s@, n as nat),
{
    let mut c = chars_of(s);
    if c.len() < n {
        let pad = repeat(' ', n - c.len());
        extend(&mut c, &chars_of(pad.as_str()));
    }
    string_of(&c)
}

/// One harness row of a deploy group.
pub open spec fn harness_row(h: DeployHarness) -> LineView {
    seq![
        ("    "@, Tone::Plain),
        (pad_right(h.harness@, 12), Tone::Cyan),
        if h.verified {
            (pad_right("✓"@, 8), Tone::Green)
        } else {
            (pad_right("✗ DRIFT"@, 8), Tone::Red)
        },
        (h.deployed_path@, Tone::DarkGray),
    ]
}

/// The rows of one deploy group: its badge, target and verified count,
/// then one row per harness.
pub open spec fn group_rows(g: DeployGroup) -> Seq<LineView> {
    let all = g.verified == g.total;
    seq![
        seq![
            if all { ("✓ "@, Tone::Green) } else { ("✗ "@, Tone::Red) },
            (g.target@, Tone::Bold),
            ("  "@ + decimal_seq(g.verified as nat) + "/"@ + decimal_seq(g.total as nat) + " verified"@, Tone::DarkGray),
        ],
    ] + g.harnesses@.map_values(|h: DeployHarness| harness_row(h))
}

/// The rows of each group, in order.
pub open spec fn groups_rows(gs: Seq<DeployGroup>) -> Seq<LineView>
    decreases gs.len(),
{
    if gs.len() == 0 {
        Seq::empty()
    } else {
        groups_rows(gs.drop_last()) + group_rows(gs.last())
    }
}

/// The Deployments block of the provenance view.
pub open spec fn deployment_view(gs: Seq<DeployGroup>) -> Seq<LineView> {
    let head = seq![one("Deployments"@, Tone::Bold)];
    (if gs.len() == 0 {
        head.push(one("not deployed anywhere"@, Tone::DarkGray))
    } else {
        head
    }) + groups_rows(gs)
}

fn group_lines(out: &mut Vec<StyledLine>, g: &DeployGroup)
    ensures
        lines_view(final(out)@) == lines_view(old(out)@) + group_rows(*g),
{
    let ghost start = lines_view(out@);
    let all = g.verified == g.total;
    let mut count = lit("  ");
    extend(&mut count, &decimal(g.verified as u64));
    extend(&mut count, &lit("/"));
    extend(&mut count, &decimal(g.total as u64));
    extend(&mut count, &lit(" verified"));
    let head = StyledLine {
        spans: vec![
            if all {
                StyledSpan { text: String::from_str("✓ "), tone: Tone::Green }
            } else {
                StyledSpan { text: String::from_str("✗ "), tone: Tone::Red }
            },
            StyledSpan { text: g.target.clone(), tone: Tone::Bold },
            StyledSpan { text: string_of(&count), tone: Tone::DarkGray },
        ],
    };
    let ghost hv = seq![
        if all { ("✓ "@, Tone::Green) } else { ("✗ "@, Tone::Red) },
        (g.target@, Tone::Bold),
        ("  "@ + decimal_seq(g.verified as nat) + "/"@ + decimal_seq(g.total as nat) + " verified"@, Tone::DarkGray),
    ];
    assert(line_view(head) =~= hv);
    push_line(out, head);
    let ghost hs = g.harnesses@.map_values(|h: DeployHarness| harness_row(h));
    let ghost first = lines_view(out@);
    let mut i: usize = 0;
    while i < g.harnesses.len()
        invariant
            i <= g.harnesses.len(),
            hs == g.harnesses@.map_values(|h: DeployHarness| harness_row(h)),
            lines_view(out@) == first + hs.take(i as int),
        decreases g.harnesses.len() - i,
    {
        let h = &g.harnesses[i];
        let row = StyledLine {
            spans: vec![
                StyledSpan { text: String::from_str("    "), tone: Tone::Plain },
                StyledSpan { text: pad_to(h.harness.as_str(), 12), tone: Tone::Cyan },
                if h.verified {
                    StyledSpan { text: pad_to("✓", 8), tone: Tone::Green }
                } else {
                    StyledSpan { text: pad_to("✗ DRIFT", 8), tone: Tone::Red }
                },
                StyledSpan { text: h.deployed_path.clone(), tone: Tone::DarkGray },
            ],
        };
        assert(line_view(row) =~= harness_row(*h));
        push_line(out, row);
        assert(hs.take(i + 1) =~= hs.take(i as int).push(hs[i as int]));
        i = i + 1;
    }
    assert(hs.take(g.harnesses.len() as int) =~= hs);
    assert(group_rows(*g) =~= seq![hv] + hs);
    assert(lines_view(out@) =~= start + group_rows(*g));
}

/// The Deployments block (see `deployment_view`).
pub fn deployment_lines(groups: &[DeployGroup]) -> (r: Vec<StyledLine>)
    ensures
        lines_view(r@) == deployment_view(groups@),
{
    let mut out: Vec<StyledLine> = Vec::new();
    push_line(&mut out, span_line(String::from_str("Deployments"), Tone::Bold));
    if groups.len() == 0 {
        push_line(&mut out, span_line(String::from_str("not deployed anywhere"), Tone::DarkGray));
    }
    let ghost head = lines_view(out@);
    let mut i: usize = 0;
    while i < groups.len()
        invariant
            i <= groups.len(),
            lines_view(out@) == head + groups_rows(groups@.take(i as int)),
        decreases groups.len() - i,
    {
        proof {
            assert(groups@.take(i + 1).drop_last() =~= groups@.take(i as int));
            assert(groups@.take(i + 1).last() == groups@[i as int]);
        }
        group_lines(&mut out, &groups[i]);
        i = i + 1;
    }
    assert(groups@.take(groups.len() as int) =~= groups@);
    assert(lines_view(out@) =~= deployment_view(groups@));
    out
}

/// The lines of one companion in the companions tab: name, path,
/// description, then its body between blank lines.
pub open spec fn companion_rows(c: Companion) -> Seq<LineView> {
    let head = seq![one(c.name@, Tone::Bold), plain("path: "@ + c.relative_path@)];
    let with_desc = if c.description@.len() > 0 {
        head.push(plain(c.description@))
    } else {
        head
    };
    with_desc.push(plain(Seq::empty())) + lines(c.content_body@).map_values(|l: Seq<char>| plain(l))
        + seq![plain(Seq::empty())]
}

/// The rows of each companion, in order.
pub open spec fn companions_rows(cs: Seq<Companion>) -> Seq<LineView>
    decreases cs.len(),
{
    if cs.len() == 0 {
        Seq::empty()
    } else {
        companions_rows(cs.drop_last()) + companion_rows(cs.last())
    }
}

/// The companions tab.
pub open spec fn companion_view(cs: Seq<Companion>) -> Seq<LineView> {
    if cs.len() == 0 {
        seq![plain("no companions"@)]
    } else {
        companions_rows(cs)
    }
}

/// Appends each line of `text` as a plain line.
fn push_text_lines(out: &mut Vec<StyledLine>, text: &str)
    ensures
        lines_view(final(out)@) == lines_view(old(out)@) + lines(text@).map_values(
            |l: Seq<char>| plain(l),
        ),
{
    let ls = lines_of(&chars_of(text));
    let ghost sl = seqs_of(ls@);
    let ghost start = lines_view(out@);
    let mut i: usize = 0;
    while i < ls.len()
        invariant
            i <= ls.len(),
            sl == seqs_of(ls@),
            lines_view(out@) == start + sl.take(i as int).map_values(|l: Seq<char>| plain(l)),
        decreases ls.len() - i,
    {
        push_line(out, plain_line(string_of(&ls[i])));
        proof {
            assert(sl[i as int] == ls@[i as int]@);
            assert(sl.take(i + 1).map_values(|l: Seq<char>| plain(l)) =~= sl.take(i as int).map_values(
                |l: Seq<char>| plain(l),
            ).push(plain(sl[i as int])));
        }
        i = i + 1;
    }
    assert(sl.take(ls.len() as int) =~= sl);
}

/// The companions tab (see `companion_view`).
pub fn companion_lines(a: &ArtifactView) -> (r: Vec<StyledLine>)
    ensures
        lines_view(r@) == companion_view(a.companions@),
{
    let mut out: Vec<StyledLine> = Vec::new();
    let cs = &a.companions;
    if cs.len() == 0 {
        push_line(&mut out, plain_str("no companions"));
        assert(lines_view(out@) =~= companion_view(cs@));
        return out;
    }
    let mut i: usize = 0;
    while i < cs.len()
        invariant
            i <= cs.len(),
            lines_view(out@) == companions_rows(cs@.take(i as int)),
        decreases cs.len() - i,
    {
        proof {
            assert(cs@.take(i + 1).drop_last() =~= cs@.take(i as int));
            assert(cs@.take(i + 1).last() == cs@[i as int]);
        }
        let c = &cs[i];
        let ghost start = lines_view(out@);
        push_line(&mut out, span_line(c.name.clone(), Tone::Bold));
        let mut p = lit("path: ");
        extend(&mut p, &chars_of(c.relative_path.as_str()));
        push_plain(&mut out, p);
        if crate::text::char_count(c.description.as_str()) > 0 {
            push_line(&mut out, plain_line(c.description.clone()));
        }
        push_plain(&mut out, Vec::new());
        push_text_lines(&mut out, c.content_body.as_str());
        push_plain(&mut out, Vec::new());
        assert(lines_view(out@) =~= start + companion_rows(*c));
        i = i + 1;
    }
    assert(cs@.take(cs.len() as int) =~= cs@);
    out
}

/// One commit row of the module view: short sha and date, message, and
/// the jj change.
pub open spec fn module_commit_row(c: GitCommit) -> LineView {
    let base = seq![
        (first_chars(c.sha@, 7) + " "@ + first_chars(c.date@, 10) + " "@, Tone::DarkGray),
        (c.message@, Tone::Plain),
    ];
    if c.jj_change@.len() > 0 {
        base.push((" · jj "@ + c.jj_change@, Tone::DarkGray))
    } else {
        base
    }
}

/// The detail of a module: name, version, source, role, local checkout,
/// version-control line, description, artifact count and recent commits.
pub open spec fn module_detail_view(m: ModuleView) -> Seq<LineView> {
    let head = seq![
        one(m.name@, Tone::Bold),
        plain("version: "@ + m.version@),
        plain("source: "@ + m.source_uri@),
        plain("role: "@ + (if m.is_target { "target"@ } else { "source"@ })),
    ];
    let with_local = match m.local_path {
        Some(p) => head.push(plain("local: "@ + p@)),
        None => head,
    };
    let with_vcs = match m.vcs {
        Some(v) => with_local.push(module_vcs_view(v)),
        None => with_local,
    };
    let with_desc = if m.description@.len() > 0 {
        with_vcs.push(plain(Seq::empty())).push(plain(m.description@))
    } else {
        with_vcs
    };
    let counted = with_desc.push(plain(Seq::empty())).push(
        plain("artifacts: "@ + decimal_seq(m.artifacts@.len())),
    );
    if m.git_log@.len() > 0 {
        counted.push(plain(Seq::empty())).push(one("Recent commits"@, Tone::Bold)) + m.git_log@.map_values(
            |c: GitCommit| module_commit_row(c),
        ) + seq![plain(Seq::empty()), one("o open gitui · O open jjui"@, Tone::DarkGray)]
    } else {
        counted
    }
}

/// The lines of the module detail (see `module_detail_view`).
pub fn module_detail_lines(m: &ModuleView) -> (r: Vec<StyledLine>)
    ensures
        lines_view(r@) == module_detail_view(*m),
{
    let mut out: Vec<StyledLine> = Vec::new();
    push_line(&mut out, span_line(m.name.clone(), Tone::Bold));
    let mut v = lit("version: ");
    extend(&mut v, &chars_of(m.version.as_str()));
    push_plain(&mut out, v);
    let mut s = lit("source: ");
    extend(&mut s, &chars_of(m.source_uri.as_str()));
    push_plain(&mut out, s);
    let mut role = lit("role: ");
    extend(&mut role, &lit(if m.is_target { "target" } else { "source" }));
    push_plain(&mut out, role);
    match &m.local_path {
        Some(p) => {
            let mut l = lit("local: ");
            extend(&mut l, &chars_of(p.as_str()));
            push_plain(&mut out, l);
        },
        None => {},
    }
    match &m.vcs {
        Some(vc) => push_line(&mut out, module_vcs_line(vc)),
        None => {},
    }
    if crate::text::char_count(m.description.as_str()) > 0 {
        push_plain(&mut out, Vec::new());
        push_line(&mut out, plain_line(m.description.clone()));
    }
    push_plain(&mut out, Vec::new());
    let mut count = lit("artifacts: ");
    extend(&mut count, &decimal(m.artifacts.len() as u64));
    push_plain(&mut out, count);
    let ghost counted = lines_view(out@);
    if m.git_log.len() > 0 {
        push_plain(&mut out, Vec::new());
        push_line(&mut out, span_line(String::from_str("Recent commits"), Tone::Bold));
        let ghost first = lines_view(out@);
        let ghost rows = m.git_log@.map_values(|c: GitCommit| module_commit_row(c));
        let mut i: usize = 0;
        while i < m.git_log.len()
            invariant
                i <= m.git_log.len(),
                rows == m.git_log@.map_values(|c: GitCommit| module_commit_row(c)),
                lines_view(out@) == first + rows.take(i as int),
            decreases m.git_log.len() - i,
        {
            let c = &m.git_log[i];
            let mut t = chars_of(first_chars_of(c.sha.as_str(), 7).as_str());
            extend(&mut t, &lit(" "));
            extend(&mut t, &chars_of(first_chars_of(c.date.as_str(), 10).as_str()));
            extend(&mut t, &lit(" "));
            let mut l = pair_line(string_of(&t), Tone::DarkGray, c.message.clone(), Tone::Plain);
            if crate::text::char_count(c.jj_change.as_str()) > 0 {
                let mut j = lit(" · jj ");
                extend(&mut j, &chars_of(c.jj_change.as_str()));
                push_span(&mut l, string_of(&j), Tone::DarkGray);
            }
            assert(line_view(l) =~= module_commit_row(*c));
            push_line(&mut out, l);
            assert(rows.take(i + 1) =~= rows.take(i as int).push(rows[i as int]));
            i = i + 1;
        }
        assert(rows.take(m.git_log.len() as int) =~= rows);
        push_plain(&mut out, Vec::new());
        push_line(&mut out, span_line(String::from_str("o open gitui · O open jjui"), Tone::DarkGray));
    }
    assert(lines_view(out@) =~= module_detail_view(*m));
    out
}

/// The first navigation key bindings, as the footer shows them.
pub open spec fn navigation_hints() -> Seq<Seq<char>> {
    seq![
        "h/j/k/l move, drill, and go back"@,
        "arrows move, drill, and go back"@,
        "Tab next column or detail tab"@,
        "BackTab previous column"@,
        "Enter drill or expand detail"@,
        "Esc back, close overlay, or quit"@,
        "g/G top or bottom"@,
        "PgUp/PgDn scroll detail"@,
    ]
}

/// The key hints of the detail column.
pub open spec fn detail_hints() -> Seq<Seq<char>> {
    seq![
        "Tab/p c d v f i n tabs"@,
        "1-9 sections"@,
        "j/k scroll"@,
        "m comment"@,
        "Y copy review"@,
        "? help"@,
    ]
}

/// The footer's key hints for the focused column, joined by ` · `.
pub open spec fn hint_row_seq(focused: ColumnFocus) -> Seq<char> {
    join_seqs(if focused == ColumnFocus::Detail { detail_hints() } else { navigation_hints() }, "  ·  "@)
}

/// The footer's key hints (see `hint_row_seq`).
pub fn hint_row(focused: ColumnFocus) -> (r: String)
    ensures
        r@ == hint_row_seq(focused),
{
    let mut parts: Vec<Vec<char>> = Vec::new();
    if focused == ColumnFocus::Detail {
        parts.push(lit("Tab/p c d v f i n tabs"));
        parts.push(lit("1-9 sections"));
        parts.push(lit("j/k scroll"));
        parts.push(lit("m comment"));
        parts.push(lit("Y copy review"));
        parts.push(lit("? help"));
        assert(seqs_of(parts@) =~= detail_hints());
    } else {
        parts.push(lit("h/j/k/l move, drill, and go back"));
        parts.push(lit("arrows move, drill, and go back"));
        parts.push(lit("Tab next column or detail tab"));
        parts.push(lit("BackTab previous column"));
        parts.push(lit("Enter drill or expand detail"));
        parts.push(lit("Esc back, close overlay, or quit"));
        parts.push(lit("g/G top or bottom"));
        parts.push(lit("PgUp/PgDn scroll detail"));
        assert(seqs_of(parts@) =~= navigation_hints());
    }
    string_of(&crate::text::join(&parts, &lit("  ·  ")))
}

// ---------------------------------------------------------------------------
// Laws

/// A line fits the width, or is a single word (holds no space).
pub open spec fn fits_or_single(l: Seq<char>, width: nat) -> bool {
    l.len() <= width || !l.contains(' ')
}

proof fn lemma_words_state_no_ws(s: Seq<char>)
    ensures
        forall|i: int, k: int|
            0 <= i < words_state(s).0.len() && 0 <= k < words_state(s).0[i].len() ==> !is_ws(
                #[trigger] words_state(s).0[i][k],
            ),
        forall|k: int| 0 <= k < words_state(s).1.len() ==> !is_ws(#[trigger] words_state(s).1[k]),
    decreases s.len(),
{
    if s.len() > 0 {
        lemma_words_state_no_ws(s.drop_last());
        let (ws, cur) = words_state(s.drop_last());
        let c = s.last();
        if !is_ws(c) {
            assert forall|k: int| 0 <= k < cur.push(c).len() implies !is_ws(#[trigger] cur.push(c)[k]) by {
                if k < cur.len() {
                    assert(cur.push(c)[k] == cur[k]);
                }
            }
        } else if cur.len() > 0 {
            assert forall|i: int, k: int|
                0 <= i < ws.push(cur).len() && 0 <= k < ws.push(cur)[i].len() implies !is_ws(
                #[trigger] ws.push(cur)[i][k],
            ) by {
                if i < ws.len() {
                    assert(ws.push(cur)[i] == ws[i]);
                }
            }
        }
    }
}

/// Words hold no white space.
pub proof fn lemma_words_have_no_spaces(s: Seq<char>)
    ensures
        forall|i: int| 0 <= i < words(s).len() ==> !(#[trigger] words(s)[i]).contains(' '),
{
    lemma_words_state_no_ws(s);
    let (ws, cur) = words_state(s);
    assert(is_ws(' '));
    assert forall|i: int| 0 <= i < words(s).len() implies !(#[trigger] words(s)[i]).contains(' ') by {
        if i < ws.len() {
            assert(words(s)[i] == ws[i]);
            if ws[i].contains(' ') {
                let k = choose|k: int| 0 <= k < ws[i].len() && ws[i][k] == ' ';
                assert(!is_ws(words_state(s).0[i][k]));
            }
        } else {
            assert(words(s)[i] == cur);
            if cur.contains(' ') {
                let k = choose|k: int| 0 <= k < cur.len() && cur[k] == ' ';
                assert(!is_ws(words_state(s).1[k]));
            }
        }
    }
}

proof fn lemma_wrap_state_fits(ws: Seq<Seq<char>>, width: nat)
    requires
        forall|i: int| 0 <= i < ws.len() ==> !(#[trigger] ws[i]).contains(' '),
    ensures
        forall|i: int| 0 <= i < wrap_state(ws, width).0.len() ==> fits_or_single(
            #[trigger] wrap_state(ws, width).0[i],
            width,
        ),
        fits_or_single(wrap_state(ws, width).1, width),
    decreases ws.len(),
{
    if ws.len() > 0 {
        let pre = ws.drop_last();
        assert forall|i: int| 0 <= i < pre.len() implies !(#[trigger] pre[i]).contains(' ') by {
            assert(pre[i] == ws[i]);
        }
        lemma_wrap_state_fits(pre, width);
        let (ls, cur) = wrap_state(pre, width);
        let w = ws.last();
        assert(!w.contains(' '));
        let breaks = cur.len() > 0 && cur.len() + 1 + w.len() > width;
        if breaks {
            assert forall|i: int| 0 <= i < ls.push(cur).len() implies fits_or_single(
                #[trigger] ls.push(cur)[i],
                width,
            ) by {
                if i < ls.len() {
                    assert(ls.push(cur)[i] == ls[i]);
                }
            }
            assert(Seq::<char>::empty() + w =~= w);
        } else if cur.len() > 0 {
            assert((cur.push(' ') + w).len() == cur.len() + 1 + w.len());
        } else {
            assert(cur + w =~= w);
        }
    }
}

/// Word wrap keeps each line within the width, except a single word that
/// is longer than the width, which stands alone on its line.
pub proof fn lemma_wrapped_lines_fit(text: Seq<char>, width: nat)
    requires
        width > 0,
        !text.contains('\n'),
    ensures
        forall|i: int| 0 <= i < wrap_text(text, width).len() ==> fits_or_single(
            #[trigger] wrap_text(text, width)[i],
            width,
        ),
{
    lemma_words_have_no_spaces(text);
    lemma_wrap_state_fits(words(text), width);
    let (ls, cur) = wrap_state(words(text), width);
    if cur.len() > 0 {
        assert forall|i: int| 0 <= i < ls.push(cur).len() implies fits_or_single(
            #[trigger] ls.push(cur)[i],
            width,
        ) by {
            if i < ls.len() {
                assert(ls.push(cur)[i] == ls[i]);
            }
        }
    }
}

// ---------------------------------------------------------------------------
// Detail pane frame and file bodies

/// The detail pane's title: the position within the shown lines (capped at
/// their count) when there are lines, else just `Detail`.
pub open spec fn detail_title_seq(position: Option<(usize, usize)>) -> Seq<char> {
    match position {
        Some((current, total)) => if total > 0 {
            " Detail · "@ + decimal_seq((if current < total { current } else { total }) as nat) + "/"@
                + decimal_seq(total as nat) + " "@
        } else {
            " Detail "@
        },
        None => " Detail "@,
    }
}

/// The detail pane's title (see `detail_title_seq`); `position` is the
/// 1-based current line and the line count, for the Code cursor or the
/// preview scroll.
pub fn detail_title(position: Option<(usize, usize)>) -> (r: String)
    ensures
        r@ == detail_title_seq(position),
{
    match position {
        Some((current, total)) => if total > 0 {
            let mut t = lit(" Detail · ");
            extend(&mut t, &decimal((if current < total { current } else { total }) as u64));
            extend(&mut t, &lit("/"));
            extend(&mut t, &decimal(total as u64));
            extend(&mut t, &lit(" "));
            string_of(&t)
        } else {
            String::from_str(" Detail ")
        },
        None => String::from_str(" Detail "),
    }
}

/// A file's content as lines; one empty line for an empty file.
pub open spec fn file_body_view(content: Seq<char>) -> Seq<LineView> {
    if content.len() == 0 {
        seq![plain(Seq::empty())]
    } else {
        lines(content).map_values(|l: Seq<char>| plain(l))
    }
}

/// The lines of a settings, config or schema file (see `file_body_view`).
pub fn file_body_lines(content: &str) -> (r: Vec<StyledLine>)
    ensures
        lines_view(r@) == file_body_view(content@),
{
    let mut out: Vec<StyledLine> = Vec::new();
    if crate::text::char_count(content) == 0 {
        push_plain(&mut out, Vec::new());
        assert(lines_view(out@) =~= file_body_view(content@));
        return out;
    }
    push_text_lines(&mut out, content);
    assert(lines_view(out@) =~= file_body_view(content@));
    out
}

/// The detail of a hook: its event, matcher (`any` when empty) and source
/// file, then the command without its shell wrapper.
pub open spec fn hook_detail_view(hook: HookEntry) -> Seq<LineView> {
    seq![
        seq![("event: "@, Tone::Magenta), (hook.event@, Tone::Plain)],
        seq![
            ("matcher: "@, Tone::Magenta),
            (if hook.matcher@.len() == 0 { "any"@ } else { hook.matcher@ }, Tone::Plain),
        ],
        seq![("source: "@, Tone::Magenta), (hook.source@, Tone::Plain)],
        plain(Seq::empty()),
        plain(unwrap_shell_seq(hook.command@).1),
    ]
}

/// The lines of a hook's detail (see `hook_detail_view`).
pub fn hook_detail_lines(hook: &HookEntry) -> (r: Vec<StyledLine>)
    ensures
        lines_view(r@) == hook_detail_view(*hook),
{
    let (_, command) = unwrap_shell(hook.command.as_str());
    let mut out: Vec<StyledLine> = Vec::new();
    push_line(&mut out, pair_line(String::from_str("event: "), Tone::Magenta, hook.event.clone(), Tone::Plain));
    push_line(
        &mut out,
        pair_line(String::from_str("matcher: "), Tone::Magenta, value_or_any(hook.matcher.as_str()), Tone::Plain),
    );
    push_line(&mut out, pair_line(String::from_str("source: "), Tone::Magenta, hook.source.clone(), Tone::Plain));
    push_plain(&mut out, Vec::new());
    push_line(&mut out, plain_line(command));
    assert(lines_view(out@) =~= hook_detail_view(*hook));
    out
}

// ---------------------------------------------------------------------------
// Drift report

/// The categories of the entries, each once, in order of first appearance.
pub open spec fn categories_of(entries: Seq<DriftEntry>) -> Seq<Seq<char>>
    decreases entries.len(),
{
    if entries.len() == 0 {
        Seq::empty()
    } else {
        let prev = categories_of(entries.drop_last());
        let c = entries.last().category@;
        if prev.contains(c) {
            prev
        } else {
            prev.push(c)
        }
    }
}

/// What the report shows for the changed keys of a drifted frontmatter.
pub open spec fn keys_display(keys: Seq<String>) -> Seq<char> {
    if keys.len() == 0 {
        "drifted"@
    } else {
        join_seqs(keys.map_values(|k: String| k@), ", "@)
    }
}

/// The report lines of one entry: a mark and the name, with a card for
/// drifted frontmatter or body.
pub open spec fn entry_view(e: DriftEntry) -> Seq<LineView> {
    let indent = ("   "@, Tone::Plain);
    let space = (" "@, Tone::Plain);
    match e.status {
        DriftStatus::Identical => seq![seq![indent, ("✓"@, Tone::Green), space, (e.name@, Tone::DarkGray)]],
        DriftStatus::Expected => seq![seq![indent, ("≈"@, Tone::DarkGray), space, (e.name@, Tone::DarkGray)]],
        DriftStatus::LocalOnly => seq![
            seq![
                indent,
                ("●"@, Tone::Cyan),
                space,
                (e.name@, Tone::Plain),
                space,
                ("—"@, Tone::DarkGray),
                space,
                ("local only"@, Tone::Cyan),
            ],
        ],
        DriftStatus::UpstreamOnly => seq![
            seq![
                indent,
                ("○"@, Tone::DarkGray),
                space,
                (e.name@, Tone::DarkGray),
                space,
                ("—"@, Tone::DarkGray),
                space,
                ("upstream only"@, Tone::DarkGray),
            ],
        ],
        _ => {
            let fm = e.status == DriftStatus::FrontmatterOnly || e.status == DriftStatus::Both;
            let body = e.status == DriftStatus::BodyOnly || e.status == DriftStatus::Both;
            seq![
                seq![indent, ("┌"@, Tone::DarkGray), space, (e.name@, Tone::Plain)],
                if fm {
                    seq![
                        indent,
                        ("│"@, Tone::DarkGray),
                        ("  frontmatter  "@, Tone::Plain),
                        ("⚡"@, Tone::Yellow),
                        space,
                        (keys_display(e.changed_keys@), Tone::Yellow),
                    ]
                } else {
                    seq![indent, ("│"@, Tone::DarkGray), ("  frontmatter  "@, Tone::Plain), ("✓"@, Tone::Green)]
                },
                if body {
                    seq![
                        indent,
                        ("│"@, Tone::DarkGray),
                        ("  body         "@, Tone::Plain),
                        ("⚡"@, Tone::Yellow),
                        space,
                        ("drifted"@, Tone::Yellow),
                    ]
                } else {
                    seq![indent, ("│"@, Tone::DarkGray), ("  body         "@, Tone::Plain), ("✓"@, Tone::Green)]
                },
                seq![indent, ("└"@, Tone::DarkGray)],
            ]
        },
    }
}

/// The report lines of one entry (see `entry_view`).
pub fn drift_entry_lines(e: &DriftEntry) -> (r: Vec<StyledLine>)
    ensures
        lines_view(r@) == entry_view(*e),
{
    let mut out: Vec<StyledLine> = Vec::new();
    let mut l = empty_line();
    push_span(&mut l, String::from_str("   "), Tone::Plain);
    match e.status {
        DriftStatus::Identical => {
            push_span(&mut l, String::from_str("✓"), Tone::Green);
            push_span(&mut l, String::from_str(" "), Tone::Plain);
            push_span(&mut l, e.name.clone(), Tone::DarkGray);
            push_line(&mut out, l);
        },
        DriftStatus::Expected => {
            push_span(&mut l, String::from_str("≈"), Tone::DarkGray);
            push_span(&mut l, String::from_str(" "), Tone::Plain);
            push_span(&mut l, e.name.clone(), Tone::DarkGray);
            push_line(&mut out, l);
        },
        DriftStatus::LocalOnly => {
            push_span(&mut l, String::from_str("●"), Tone::Cyan);
            push_span(&mut l, String::from_str(" "), Tone::Plain);
            push_span(&mut l, e.name.clone(), Tone::Plain);
            push_span(&mut l, String::from_str(" "), Tone::Plain);
            push_span(&mut l, String::from_str("—"), Tone::DarkGray);
            push_span(&mut l, String::from_str(" "), Tone::Plain);
            push_span(&mut l, String::from_str("local only"), Tone::Cyan);
            push_line(&mut out, l);
        },
        DriftStatus::UpstreamOnly => {
            push_span(&mut l, String::from_str("○"), Tone::DarkGray);
            push_span(&mut l, String::from_str(" "), Tone::Plain);
            push_span(&mut l, e.name.clone(), Tone::DarkGray);
            push_span(&mut l, String::from_str(" "), Tone::Plain);
            push_span(&mut l, String::from_str("—"), Tone::DarkGray);
            push_span(&mut l, String::from_str(" "), Tone::Plain);
            push_span(&mut l, String::from_str("upstream only"), Tone::DarkGray);
            push_line(&mut out, l);
        },
        _ => {
            let fm = e.status == DriftStatus::FrontmatterOnly || e.status == DriftStatus::Both;
            let body = e.status == DriftStatus::BodyOnly || e.status == DriftStatus::Both;
            push_span(&mut l, String::from_str("┌"), Tone::DarkGray);
            push_span(&mut l, String::from_str(" "), Tone::Plain);
            push_span(&mut l, e.name.clone(), Tone::Plain);
            push_line(&mut out, l);
            let mut f = empty_line();
            push_span(&mut f, String::from_str("   "), Tone::Plain);
            push_span(&mut f, String::from_str("│"), Tone::DarkGray);
            push_span(&mut f, String::from_str("  frontmatter  "), Tone::Plain);
            if fm {
                let keys = if e.changed_keys.len() == 0 {
                    String::from_str("drifted")
                } else {
                    let mut parts: Vec<Vec<char>> = Vec::new();
                    let mut k: usize = 0;
                    while k < e.changed_keys.len()
                        invariant
                            k <= e.changed_keys.len(),
                            seqs_of(parts@) == e.changed_keys@.take(k as int).map_values(|x: String| x@),
                        decreases e.changed_keys.len() - k,
                    {
                        let ghost before = seqs_of(parts@);
                        let piece = chars_of(e.changed_keys[k].as_str());
                        parts.push(piece);
                        assert(seqs_of(parts@) =~= before.push(e.changed_keys@[k as int]@));
                        assert(e.changed_keys@.take(k + 1).map_values(|x: String| x@) =~= e.changed_keys@.take(
                            k as int,
                        ).map_values(|x: String| x@).push(e.changed_keys@[k as int]@));
                        k = k + 1;
                    }
                    assert(e.changed_keys@.take(e.changed_keys.len() as int) =~= e.changed_keys@);
                    string_of(&crate::text::join(&parts, &lit(", ")))
                };
                push_span(&mut f, String::from_str("⚡"), Tone::Yellow);
                push_span(&mut f, String::from_str(" "), Tone::Plain);
                push_span(&mut f, keys, Tone::Yellow);
            } else {
                push_span(&mut f, String::from_str("✓"), Tone::Green);
            }
            push_line(&mut out, f);
            let mut b = empty_line();
            push_span(&mut b, String::from_str("   "), Tone::Plain);
            push_span(&mut b, String::from_str("│"), Tone::DarkGray);
            push_span(&mut b, String::from_str("  body         "), Tone::Plain);
            if body {
                push_span(&mut b, String::from_str("⚡"), Tone::Yellow);
                push_span(&mut b, String::from_str(" "), Tone::Plain);
                push_span(&mut b, String::from_str("drifted"), Tone::Yellow);
            } else {
                push_span(&mut b, String::from_str("✓"), Tone::Green);
            }
            push_line(&mut out, b);
            let mut z = empty_line();
            push_span(&mut z, String::from_str("   "), Tone::Plain);
            push_span(&mut z, String::from_str("└"), Tone::DarkGray);
            push_line(&mut out, z);

        },
    }
    assert(lines_view(out@) =~~= entry_view(*e));
    out
}

/// The report lines of the entries of one category, in order.
pub open spec fn entries_in(entries: Seq<DriftEntry>, category: Seq<char>) -> Seq<LineView>
    decreases entries.len(),
{
    if entries.len() == 0 {
        Seq::empty()
    } else {
        let prev = entries_in(entries.drop_last(), category);
        if entries.last().category@ == category {
            prev + entry_view(entries.last())
        } else {
            prev
        }
    }
}

/// Each category's bold heading followed by its entries.
pub open spec fn category_blocks(categories: Seq<Seq<char>>, entries: Seq<DriftEntry>) -> Seq<LineView>
    decreases categories.len(),
{
    if categories.len() == 0 {
        Seq::empty()
    } else {
        let c = categories.last();
        category_blocks(categories.drop_last(), entries) + seq![seq![(" "@, Tone::Plain), (c, Tone::Bold)]]
            + entries_in(entries, c)
    }
}

/// How many entries have each outcome: identical, drifted, expected,
/// local only, upstream only.
pub open spec fn drift_counts(entries: Seq<DriftEntry>) -> (nat, nat, nat, nat, nat)
    decreases entries.len(),
{
    if entries.len() == 0 {
        (0, 0, 0, 0, 0)
    } else {
        let (a, b, c, d, e) = drift_counts(entries.drop_last());
        match entries.last().status {
            DriftStatus::Identical => (a + 1, b, c, d, e),
            DriftStatus::Expected => (a, b, c + 1, d, e),
            DriftStatus::LocalOnly => (a, b, c, d + 1, e),
            DriftStatus::UpstreamOnly => (a, b, c, d, e + 1),
            _ => (a, b + 1, c, d, e),
        }
    }
}

/// The summary's parts as (mark, tone, text), for the outcomes that occur.
pub open spec fn summary_parts_of(counts: (nat, nat, nat, nat, nat)) -> Seq<(Seq<char>, Tone, Seq<char>)> {
    let (a, b, c, d, e) = counts;
    let p1: Seq<(Seq<char>, Tone, Seq<char>)> = if a > 0 {
        seq![("✓"@, Tone::Green, " "@ + decimal_seq(a) + " identical"@)]
    } else {
        Seq::empty()
    };
    let p2 = if b > 0 { p1.push(("⚡"@, Tone::Yellow, " "@ + decimal_seq(b) + " drifted"@)) } else { p1 };
    let p3 = if c > 0 { p2.push(("≈"@, Tone::DarkGray, " "@ + decimal_seq(c) + " expected"@)) } else { p2 };
    let p4 = if d > 0 { p3.push(("●"@, Tone::Cyan, " "@ + decimal_seq(d) + " local"@)) } else { p3 };
    if e > 0 { p4.push(("○"@, Tone::DarkGray, " "@ + decimal_seq(e) + " upstream"@)) } else { p4 }
}

/// The parts as spans, two spaces apart.
pub open spec fn parts_spans(ps: Seq<(Seq<char>, Tone, Seq<char>)>) -> LineView
    decreases ps.len(),
{
    if ps.len() == 0 {
        Seq::empty()
    } else if ps.len() == 1 {
        seq![(ps[0].0, ps[0].1), (ps[0].2, Tone::Plain)]
    } else {
        let p = ps.last();
        parts_spans(ps.drop_last()) + seq![("  "@, Tone::Plain), (p.0, p.1), (p.2, Tone::Plain)]
    }
}

/// The drift report: a blank line, each category (in order of first
/// appearance) with its entries, the errors, and the summary of outcomes
/// between blank lines.
pub open spec fn drift_report_view(result: DriftResult) -> Seq<LineView> {
    let entries = result.entries@;
    let parts = summary_parts_of(drift_counts(entries));
    let summary = if parts.len() > 0 {
        seq![seq![(" "@, Tone::Plain)] + parts_spans(parts)]
    } else {
        Seq::empty()
    };
    seq![plain(Seq::empty())] + category_blocks(categories_of(entries), entries) + result.errors@.map_values(
        |e: String| seq![("   "@, Tone::Plain), ("✗"@, Tone::Red), (" "@, Tone::Plain), (e@, Tone::Red)],
    ) + seq![plain(Seq::empty())] + summary + seq![plain(Seq::empty())]
}

fn push_all(out: &mut Vec<StyledLine>, more: Vec<StyledLine>)
    ensures
        lines_view(final(out)@) == lines_view(old(out)@) + lines_view(more@),
{
    let mut more = more;
    let ghost a = lines_view(out@);
    let ghost b = lines_view(more@);
    out.append(&mut more);
    assert(lines_view(out@) =~= a + b);
}

/// The drift report as lines (see `drift_report_view`).
pub fn drift_report_lines(result: &DriftResult) -> (r: Vec<StyledLine>)
    ensures
        lines_view(r@) =~~= drift_report_view(*result),
{
    let entries = &result.entries;
    // Categories in order of first appearance.
    let mut cats: Vec<String> = Vec::new();
    let mut i: usize = 0;
    while i < entries.len()
        invariant
            i <= entries.len(),
            views(cats@) == categories_of(entries@.take(i as int)),
        decreases entries.len() - i,
    {
        proof {
            assert(entries@.take(i + 1).drop_last() =~= entries@.take(i as int));
            assert(entries@.take(i + 1).last() == entries@[i as int]);
        }
        if !contains_string(&cats, &chars_of(entries[i].category.as_str())) {
            let ghost before = views(cats@);
            cats.push(entries[i].category.clone());
            assert(views(cats@) =~= before.push(entries@[i as int].category@));
        }
        i = i + 1;
    }
    assert(entries@.take(entries.len() as int) =~= entries@);
    let ghost cv = views(cats@);
    let mut out: Vec<StyledLine> = Vec::new();
    push_plain(&mut out, Vec::new());
    let ghost head = lines_view(out@);
    let mut k: usize = 0;
    while k < cats.len()
        invariant
            k <= cats.len(),
            cv == views(cats@),
            cv == categories_of(entries@),
            lines_view(out@) == head + category_blocks(cv.take(k as int), entries@),
        decreases cats.len() - k,
    {
        proof {
            assert(cv.take(k + 1).drop_last() =~= cv.take(k as int));
            assert(cv.take(k + 1).last() == cats@[k as int]@);
        }
        let ghost before = lines_view(out@);
        let mut h = empty_line();
        push_span(&mut h, String::from_str(" "), Tone::Plain);
        push_span(&mut h, cats[k].clone(), Tone::Bold);
        push_line(&mut out, h);
        let ghost after_head = lines_view(out@);
        let cc = chars_of(cats[k].as_str());
        let mut j: usize = 0;
        while j < entries.len()
            invariant
                j <= entries.len(),
                k < cats.len(),
                cc@ == cats@[k as int]@,
                lines_view(out@) == after_head + entries_in(entries@.take(j as int), cats@[k as int]@),
            decreases entries.len() - j,
        {
            proof {
                assert(entries@.take(j + 1).drop_last() =~= entries@.take(j as int));
                assert(entries@.take(j + 1).last() == entries@[j as int]);
            }
            if crate::text::eq(&chars_of(entries[j].category.as_str()), &cc) {
                let ghost mid = lines_view(out@);
                push_all(&mut out, drift_entry_lines(&entries[j]));
                assert(lines_view(out@) =~= after_head + entries_in(entries@.take(j + 1), cats@[k as int]@));
            }
            j = j + 1;
        }
        assert(entries@.take(entries.len() as int) =~= entries@);
        assert(lines_view(out@) =~~= head + category_blocks(cv.take(k + 1), entries@));
        k = k + 1;
    }
    assert(cv.take(cats.len() as int) =~= cv);
    let ghost blocks = lines_view(out@);
    let mut e: usize = 0;
    while e < result.errors.len()
        invariant
            e <= result.errors.len(),
            lines_view(out@) =~~= blocks + result.errors@.take(e as int).map_values(
                |x: String| seq![("   "@, Tone::Plain), ("✗"@, Tone::Red), (" "@, Tone::Plain), (x@, Tone::Red)],
            ),
        decreases result.errors.len() - e,
    {
        let mut l = empty_line();
        push_span(&mut l, String::from_str("   "), Tone::Plain);
        push_span(&mut l, String::from_str("✗"), Tone::Red);
        push_span(&mut l, String::from_str(" "), Tone::Plain);
        push_span(&mut l, result.errors[e].clone(), Tone::Red);
        push_line(&mut out, l);
        e = e + 1;
    }
    assert(result.errors@.take(result.errors.len() as int) =~= result.errors@);
    push_plain(&mut out, Vec::new());
    // Counts of outcomes.
    let mut a: usize = 0;
    let mut b: usize = 0;
    let mut c: usize = 0;
    let mut d: usize = 0;
    let mut f: usize = 0;
    let mut t: usize = 0;
    while t < entries.len()
        invariant
            t <= entries.len(),
            (a as nat, b as nat, c as nat, d as nat, f as nat) == drift_counts(entries@.take(t as int)),
            a + b + c + d + f == t,
        decreases entries.len() - t,
    {
        proof {
            assert(entries@.take(t + 1).drop_last() =~= entries@.take(t as int));
            assert(entries@.take(t + 1).last() == entries@[t as int]);
        }
        match entries[t].status {
            DriftStatus::Identical => a = a + 1,
            DriftStatus::Expected => c = c + 1,
            DriftStatus::LocalOnly => d = d + 1,
            DriftStatus::UpstreamOnly => f = f + 1,
            _ => b = b + 1,
        }
        t = t + 1;
    }
    assert(entries@.take(entries.len() as int) =~= entries@);
    let ghost parts = summary_parts_of(drift_counts(entries@));
    let mut line = empty_line();
    push_span(&mut line, String::from_str(" "), Tone::Plain);
    let mut any = false;
    let ghost mut done: Seq<(Seq<char>, Tone, Seq<char>)> = Seq::empty();
    let counts: [(usize, &str, Tone, &str); 5] = [
        (a, "✓", Tone::Green, " identical"),
        (b, "⚡", Tone::Yellow, " drifted"),
        (c, "≈", Tone::DarkGray, " expected"),
        (d, "●", Tone::Cyan, " local"),
        (f, "○", Tone::DarkGray, " upstream"),
    ];
    let mut n: usize = 0;
    while n < 5
        invariant
            n <= 5,
            counts@.len() == 5,
            counts@[0].0 == a && counts@[0].1@ == "✓"@ && counts@[0].2 == Tone::Green && counts@[0].3@ == " identical"@,
            counts@[1].0 == b && counts@[1].1@ == "⚡"@ && counts@[1].2 == Tone::Yellow && counts@[1].3@ == " drifted"@,
            counts@[2].0 == c && counts@[2].1@ == "≈"@ && counts@[2].2 == Tone::DarkGray && counts@[2].3@ == " expected"@,
            counts@[3].0 == d && counts@[3].1@ == "●"@ && counts@[3].2 == Tone::Cyan && counts@[3].3@ == " local"@,
            counts@[4].0 == f && counts@[4].1@ == "○"@ && counts@[4].2 == Tone::DarkGray && counts@[4].3@ == " upstream"@,
            any == (done.len() > 0),
            line_view(line) == seq![(" "@, Tone::Plain)] + parts_spans(done),
            done == summary_parts_upto((a as nat, b as nat, c as nat, d as nat, f as nat), n as int),
        decreases 5 - n,
    {
        let (count, mark, tone, label) = counts[n];
        if count > 0 {
            let mut text = lit(" ");
            extend(&mut text, &decimal(count as u64));
            extend(&mut text, &lit(label));
            let ghost before = line_view(line);
            if any {
                push_span(&mut line, String::from_str("  "), Tone::Plain);
            }
            push_span(&mut line, String::from_str(mark), tone);
            push_span(&mut line, string_of(&text), Tone::Plain);
            proof {
                let item = (mark@, tone, text@);
                let nd = done.push(item);
                assert(nd.drop_last() =~= done);
                assert(line_view(line) =~= seq![(" "@, Tone::Plain)] + parts_spans(nd));
                done = nd;
            }
            any = true;
        }
        n = n + 1;
    }
    proof {
        lemma_summary_parts_upto((a as nat, b as nat, c as nat, d as nat, f as nat));
    }
    assert(done =~= parts);
    if any {
        push_line(&mut out, line);
    }
    push_plain(&mut out, Vec::new());
    out
}

proof fn lemma_summary_parts_upto(counts: (nat, nat, nat, nat, nat))
    ensures
        summary_parts_upto(counts, 5) == summary_parts_of(counts),
{
    let u0 = summary_parts_upto(counts, 0);
    let u1 = summary_parts_upto(counts, 1);
    let u2 = summary_parts_upto(counts, 2);
    let u3 = summary_parts_upto(counts, 3);
    let u4 = summary_parts_upto(counts, 4);
    let u5 = summary_parts_upto(counts, 5);
    assert(u0 == Seq::<(Seq<char>, Tone, Seq<char>)>::empty());
    let (a, b, c, d, e) = counts;
    let p1: Seq<(Seq<char>, Tone, Seq<char>)> = if a > 0 {
        seq![("✓"@, Tone::Green, " "@ + decimal_seq(a) + " identical"@)]
    } else {
        Seq::empty()
    };
    assert(u1 =~= p1);
}

/// The first `n` of the summary's parts (see `summary_parts_of`).
pub open spec fn summary_parts_upto(counts: (nat, nat, nat, nat, nat), n: int) -> Seq<(Seq<char>, Tone, Seq<char>)>
    decreases n,
{
    if n <= 0 {
        Seq::empty()
    } else {
        let (a, b, c, d, e) = counts;
        let prev = summary_parts_upto(counts, n - 1);
        let (count, mark, tone, label) = if n == 1 {
            (a, "✓"@, Tone::Green, " identical"@)
        } else if n == 2 {
            (b, "⚡"@, Tone::Yellow, " drifted"@)
        } else if n == 3 {
            (c, "≈"@, Tone::DarkGray, " expected"@)
        } else if n == 4 {
            (d, "●"@, Tone::Cyan, " local"@)
        } else {
            (e, "○"@, Tone::DarkGray, " upstream"@)
        };
        if count > 0 {
            prev.push((mark, tone, " "@ + decimal_seq(count) + label))
        } else {
            prev
        }
    }
}

// ---------------------------------------------------------------------------
// Provenance report

/// One source's row: its name, then all verified or how many of how many.
pub open spec fn source_row(row: (String, usize, usize)) -> LineView {
    let (source, verified, total) = row;
    seq![
        (" "@, Tone::Plain),
        (source@, Tone::Bold),
        (" "@, Tone::Plain),
        ("→"@, Tone::DarkGray),
        (" "@, Tone::Plain),
        if verified == total {
            ("✓ "@ + decimal_seq(total as nat) + " verified"@, Tone::Green)
        } else {
            ("✗ "@ + decimal_seq(verified as nat) + "/"@ + decimal_seq(total as nat) + " verified"@, Tone::Red)
        },
    ]
}

/// The provenance summary of a directory: a note when nothing was found;
/// else one row per source, then (when asked for) the orphans, between
/// blank lines.
pub open spec fn provenance_report_view(summary: ProvenanceSummary, directory: Seq<char>, show_orphans: bool) -> Seq<LineView> {
    if summary.by_source@.len() == 0 && summary.orphans@.len() == 0 {
        seq![plain(Seq::empty()), plain(" No provenance found in "@ + directory), plain(Seq::empty())]
    } else {
        let rows = seq![plain(Seq::empty())] + summary.by_source@.map_values(|r: (String, usize, usize)| source_row(r));
        let with_orphans = if show_orphans && summary.orphans@.len() > 0 {
            rows + seq![
                plain(Seq::empty()),
                seq![
                    (" "@, Tone::Plain),
                    ("orphans"@, Tone::Red),
                    (" "@, Tone::Plain),
                    ("("@ + decimal_seq(summary.orphans@.len()) + " files without provenance)"@, Tone::DarkGray),
                ],
            ] + summary.orphans@.map_values(
                |o: String| seq![("   "@, Tone::Plain), ("•"@, Tone::Red), (" "@ + o@, Tone::Plain)],
            )
        } else {
            rows
        };
        with_orphans.push(plain(Seq::empty()))
    }
}

/// The provenance summary as lines (see `provenance_report_view`).
pub fn provenance_report_lines(summary: &ProvenanceSummary, directory: &str, show_orphans: bool) -> (r: Vec<StyledLine>)
    ensures
        lines_view(r@) =~~= provenance_report_view(*summary, directory@, show_orphans),
{
    let mut out: Vec<StyledLine> = Vec::new();
    if summary.by_source.len() == 0 && summary.orphans.len() == 0 {
        push_plain(&mut out, Vec::new());
        let mut t = lit(" No provenance found in ");
        extend(&mut t, &chars_of(directory));
        push_plain(&mut out, t);
        push_plain(&mut out, Vec::new());
        return out;
    }
    push_plain(&mut out, Vec::new());
    let ghost head = lines_view(out@);
    let mut i: usize = 0;
    while i < summary.by_source.len()
        invariant
            i <= summary.by_source.len(),
            lines_view(out@) =~~= head + summary.by_source@.take(i as int).map_values(
                |r: (String, usize, usize)| source_row(r),
            ),
        decreases summary.by_source.len() - i,
    {
        let (source, verified, total) = &summary.by_source[i];
        let mut l = empty_line();
        push_span(&mut l, String::from_str(" "), Tone::Plain);
        push_span(&mut l, source.clone(), Tone::Bold);
        push_span(&mut l, String::from_str(" "), Tone::Plain);
        push_span(&mut l, String::from_str("→"), Tone::DarkGray);
        push_span(&mut l, String::from_str(" "), Tone::Plain);
        if *verified == *total {
            let mut t = lit("✓ ");
            extend(&mut t, &decimal(*total as u64));
            extend(&mut t, &lit(" verified"));
            push_span(&mut l, string_of(&t), Tone::Green);
        } else {
            let mut t = lit("✗ ");
            extend(&mut t, &decimal(*verified as u64));
            extend(&mut t, &lit("/"));
            extend(&mut t, &decimal(*total as u64));
            extend(&mut t, &lit(" verified"));
            push_span(&mut l, string_of(&t), Tone::Red);
        }
        push_line(&mut out, l);
        i = i + 1;
    }
    assert(summary.by_source@.take(summary.by_source.len() as int) =~= summary.by_source@);
    if show_orphans && summary.orphans.len() > 0 {
        push_plain(&mut out, Vec::new());
        let mut l = empty_line();
        push_span(&mut l, String::from_str(" "), Tone::Plain);
        push_span(&mut l, String::from_str("orphans"), Tone::Red);
        push_span(&mut l, String::from_str(" "), Tone::Plain);
        let mut t = lit("(");
        extend(&mut t, &decimal(summary.orphans.len() as u64));
        extend(&mut t, &lit(" files without provenance)"));
        push_span(&mut l, string_of(&t), Tone::DarkGray);
        push_line(&mut out, l);
        let ghost mid = lines_view(out@);
        let mut k: usize = 0;
        while k < summary.orphans.len()
            invariant
                k <= summary.orphans.len(),
                lines_view(out@) =~~= mid + summary.orphans@.take(k as int).map_values(
                    |o: String| seq![("   "@, Tone::Plain), ("•"@, Tone::Red), (" "@ + o@, Tone::Plain)],
                ),
            decreases summary.orphans.len() - k,
        {
            let mut o = empty_line();
            push_span(&mut o, String::from_str("   "), Tone::Plain);
            push_span(&mut o, String::from_str("•"), Tone::Red);
            let mut t = lit(" ");
            extend(&mut t, &chars_of(summary.orphans[k].as_str()));
            push_span(&mut o, string_of(&t), Tone::Plain);
            push_line(&mut out, o);
            k = k + 1;
        }
        assert(summary.orphans@.take(summary.orphans.len() as int) =~= summary.orphans@);
    }
    push_plain(&mut out, Vec::new());
    out
}

// ---------------------------------------------------------------------------
// Action report

/// The `kind count` parts of a provider's line, two spaces apart.
pub open spec fn kind_spans(kinds: Seq<(String, usize)>) -> LineView
    decreases kinds.len(),
{
    if kinds.len() == 0 {
        Seq::empty()
    } else if kinds.len() == 1 {
        seq![(kinds[0].0@, Tone::DarkGray), (" "@ + decimal_seq(kinds[0].1 as nat), Tone::Plain)]
    } else {
        let k = kinds.last();
        kind_spans(kinds.drop_last()) + seq![
            ("  "@, Tone::Plain),
            (k.0@, Tone::DarkGray),
            (" "@ + decimal_seq(k.1 as nat), Tone::Plain),
        ]
    }
}

/// One skip row: the path's short form, a dash and the reason.
pub open spec fn skip_row(s: SkippedFile) -> LineView {
    seq![
        ("   "@, Tone::Plain),
        ("○"@, Tone::Yellow),
        (" "@, Tone::Plain),
        (relative_tail(s.target@), Tone::DarkGray),
        (" "@, Tone::Plain),
        ("—"@, Tone::DarkGray),
        (" "@, Tone::Plain),
        (reason_label(s.reason), Tone::Yellow),
    ]
}

/// A provider's block: a mark (a cross when an error names it), its name,
/// its counts by kind, and its skips.
pub open spec fn provider_block(g: ProviderGroup, errors: Seq<String>) -> Seq<LineView> {
    let head = seq![
        (" "@, Tone::Plain),
        if mentions_provider(errors, g.provider@) { ("✗"@, Tone::Red) } else { ("✓"@, Tone::Green) },
        (" "@, Tone::Plain),
        (g.provider@, Tone::Bold),
    ];
    let with_kinds = if g.kinds@.len() > 0 {
        seq![head, seq![("   "@, Tone::Plain)] + kind_spans(g.kinds@)]
    } else {
        seq![head]
    };
    with_kinds + g.skips@.map_values(|s: SkippedFile| skip_row(s))
}

/// The blocks of the groups, in order.
pub open spec fn provider_blocks(gs: Seq<ProviderGroup>, errors: Seq<String>) -> Seq<LineView>
    decreases gs.len(),
{
    if gs.len() == 0 {
        Seq::empty()
    } else {
        provider_blocks(gs.drop_last(), errors) + provider_block(gs.last(), errors)
    }
}

/// The summary's parts as (mark, tone, text): deployed with the verb,
/// skipped, errors (singular for one), each only when not zero.
pub open spec fn action_parts(installed: nat, skipped: nat, errors: nat, verb: Seq<char>) -> Seq<(Seq<char>, Tone, Seq<char>)> {
    let a: Seq<(Seq<char>, Tone, Seq<char>)> = if installed > 0 {
        seq![("●"@, Tone::Green, " "@ + decimal_seq(installed) + " "@ + verb)]
    } else {
        Seq::empty()
    };
    let b = if skipped > 0 { a.push(("○"@, Tone::Yellow, " "@ + decimal_seq(skipped) + " skipped"@)) } else { a };
    if errors > 0 {
        b.push(("✗"@, Tone::Red, " "@ + decimal_seq(errors) + " "@ + (if errors == 1 { "error"@ } else { "errors"@ })))
    } else {
        b
    }
}

/// The action report: a blank line, each provider's block (the groups as
/// `group_by_provider` gives them), the errors, the summary (after a blank
/// line, when anything happened), and a blank line.
pub open spec fn action_report_view(r: ActionResult, groups: Seq<ProviderGroup>, verb: Seq<char>) -> Seq<LineView> {
    let parts = action_parts(r.installed@.len(), r.skipped@.len(), r.errors@.len(), verb);
    let summary = if parts.len() > 0 {
        seq![plain(Seq::empty()), seq![(" "@, Tone::Plain)] + parts_spans(parts)]
    } else {
        Seq::empty()
    };
    seq![plain(Seq::empty())] + provider_blocks(groups, r.errors@) + r.errors@.map_values(
        |e: String| seq![("   "@, Tone::Plain), ("✗"@, Tone::Red), (" "@, Tone::Plain), (e@, Tone::Red)],
    ) + summary + seq![plain(Seq::empty())]
}

fn group_block(out: &mut Vec<StyledLine>, g: &ProviderGroup, errors: &Vec<String>)
    ensures
        lines_view(final(out)@) =~~= lines_view(old(out)@) + provider_block(*g, errors@),
{
    let ghost start = lines_view(out@);
    let mut h = empty_line();
    push_span(&mut h, String::from_str(" "), Tone::Plain);
    if provider_has_errors(errors, g.provider.as_str()) {
        push_span(&mut h, String::from_str("✗"), Tone::Red);
    } else {
        push_span(&mut h, String::from_str("✓"), Tone::Green);
    }
    push_span(&mut h, String::from_str(" "), Tone::Plain);
    push_span(&mut h, g.provider.clone(), Tone::Bold);
    push_line(out, h);
    if g.kinds.len() > 0 {
        let mut l = empty_line();
        push_span(&mut l, String::from_str("   "), Tone::Plain);
        let mut k: usize = 0;
        while k < g.kinds.len()
            invariant
                k <= g.kinds.len(),
                line_view(l) =~~= seq![("   "@, Tone::Plain)] + kind_spans(g.kinds@.take(k as int)),
            decreases g.kinds.len() - k,
        {
            proof {
                assert(g.kinds@.take(k + 1).drop_last() =~= g.kinds@.take(k as int));
                assert(g.kinds@.take(k + 1).last() == g.kinds@[k as int]);
            }
            if k > 0 {
                push_span(&mut l, String::from_str("  "), Tone::Plain);
            }
            push_span(&mut l, g.kinds[k].0.clone(), Tone::DarkGray);
            let mut t = lit(" ");
            extend(&mut t, &decimal(g.kinds[k].1 as u64));
            push_span(&mut l, string_of(&t), Tone::Plain);
            proof {
                if k == 0 {
                    assert(g.kinds@.take(1) =~= seq![g.kinds@[0]]);
                }
            }
            k = k + 1;
        }
        assert(g.kinds@.take(g.kinds.len() as int) =~= g.kinds@);
        push_line(out, l);
    }
    let ghost mid = lines_view(out@);
    let mut i: usize = 0;
    while i < g.skips.len()
        invariant
            i <= g.skips.len(),
            lines_view(out@) =~~= mid + g.skips@.take(i as int).map_values(|s: SkippedFile| skip_row(s)),
        decreases g.skips.len() - i,
    {
        let sk = &g.skips[i];
        let mut l = empty_line();
        push_span(&mut l, String::from_str("   "), Tone::Plain);
        push_span(&mut l, String::from_str("○"), Tone::Yellow);
        push_span(&mut l, String::from_str(" "), Tone::Plain);
        push_span(&mut l, extract_relative_path(sk.target.as_str()), Tone::DarkGray);
        push_span(&mut l, String::from_str(" "), Tone::Plain);
        push_span(&mut l, String::from_str("—"), Tone::DarkGray);
        push_span(&mut l, String::from_str(" "), Tone::Plain);
        push_span(&mut l, String::from_str(skip_reason_label(sk.reason)), Tone::Yellow);
        push_line(out, l);
        i = i + 1;
    }
    assert(g.skips@.take(g.skips.len() as int) =~= g.skips@);
}

/// The action report as lines (see `action_report_view`).
pub fn action_report_lines(result: &ActionResult, groups: &[ProviderGroup], verb: &str) -> (r: Vec<StyledLine>)
    ensures
        lines_view(r@) =~~= action_report_view(*result, groups@, verb@),
{
    let mut out: Vec<StyledLine> = Vec::new();
    push_plain(&mut out, Vec::new());
    let ghost head = lines_view(out@);
    let mut i: usize = 0;
    while i < groups.len()
        invariant
            i <= groups.len(),
            lines_view(out@) =~~= head + provider_blocks(groups@.take(i as int), result.errors@),
        decreases groups.len() - i,
    {
        proof {
            assert(groups@.take(i + 1).drop_last() =~= groups@.take(i as int));
            assert(groups@.take(i + 1).last() == groups@[i as int]);
        }
        group_block(&mut out, &groups[i], &result.errors);
        i = i + 1;
    }
    assert(groups@.take(groups.len() as int) =~= groups@);
    let ghost blocks = lines_view(out@);
    let mut e: usize = 0;
    while e < result.errors.len()
        invariant
            e <= result.errors.len(),
            lines_view(out@) =~~= blocks + result.errors@.take(e as int).map_values(
                |x: String| seq![("   "@, Tone::Plain), ("✗"@, Tone::Red), (" "@, Tone::Plain), (x@, Tone::Red)],
            ),
        decreases result.errors.len() - e,
    {
        let mut l = empty_line();
        push_span(&mut l, String::from_str("   "), Tone::Plain);
        push_span(&mut l, String::from_str("✗"), Tone::Red);
        push_span(&mut l, String::from_str(" "), Tone::Plain);
        push_span(&mut l, result.errors[e].clone(), Tone::Red);
        push_line(&mut out, l);
        e = e + 1;
    }
    assert(result.errors@.take(result.errors.len() as int) =~= result.errors@);
    let installed = result.installed.len();
    let skipped = result.skipped.len();
    let errors = result.errors.len();
    if installed > 0 || skipped > 0 || errors > 0 {
        push_plain(&mut out, Vec::new());
        let mut l = empty_line();
        push_span(&mut l, String::from_str(" "), Tone::Plain);
        let ghost mut done: Seq<(Seq<char>, Tone, Seq<char>)> = Seq::empty();
        let mut any = false;
        assert(line_view(l) =~~= seq![(" "@, Tone::Plain)] + parts_spans(done));
        if installed > 0 {
            let mut t = lit(" ");
            extend(&mut t, &decimal(installed as u64));
            extend(&mut t, &lit(" "));
            extend(&mut t, &chars_of(verb));
            push_span(&mut l, String::from_str("●"), Tone::Green);
            push_span(&mut l, string_of(&t), Tone::Plain);
            proof {
                done = done.push(("●"@, Tone::Green, t@));
            }
            assert(line_view(l) =~~= seq![(" "@, Tone::Plain)] + parts_spans(done));
            any = true;
        }
        if skipped > 0 {
            let mut t = lit(" ");
            extend(&mut t, &decimal(skipped as u64));
            extend(&mut t, &lit(" skipped"));
            if any {
                push_span(&mut l, String::from_str("  "), Tone::Plain);
            }
            push_span(&mut l, String::from_str("○"), Tone::Yellow);
            push_span(&mut l, string_of(&t), Tone::Plain);
            proof {
                let nd = done.push(("○"@, Tone::Yellow, t@));
                assert(nd.drop_last() =~= done);
                done = nd;
            }
            assert(line_view(l) =~~= seq![(" "@, Tone::Plain)] + parts_spans(done));
            any = true;
        }
        if errors > 0 {
            let mut t = lit(" ");
            extend(&mut t, &decimal(errors as u64));
            extend(&mut t, &lit(" "));
            extend(&mut t, &lit(if errors == 1 { "error" } else { "errors" }));
            if any {
                push_span(&mut l, String::from_str("  "), Tone::Plain);
            }
            push_span(&mut l, String::from_str("✗"), Tone::Red);
            push_span(&mut l, string_of(&t), Tone::Plain);
            proof {
                let nd = done.push(("✗"@, Tone::Red, t@));
                assert(nd.drop_last() =~= done);
                done = nd;
            }
            assert(line_view(l) =~~= seq![(" "@, Tone::Plain)] + parts_spans(done));
        }
        assert(done =~= action_parts(installed as nat, skipped as nat, errors as nat, verb@));
        assert(line_view(l) =~~= seq![(" "@, Tone::Plain)] + parts_spans(done));
        push_line(&mut out, l);
    }
    push_plain(&mut out, Vec::new());
    out
}

// ---------------------------------------------------------------------------
// Provenance chain of an artifact

/// A labelled field: the key padded to 14 characters in magenta, then the
/// value.
pub open spec fn field_view(key: Seq<char>, value: Seq<char>) -> LineView {
    seq![(pad_right(key, 14), Tone::Magenta), (value, Tone::Plain)]
}

/// The field, when its value is not blank.
pub open spec fn field_if_view(key: Seq<char>, value: Seq<char>) -> Seq<LineView> {
    if trim(value).len() > 0 {
        seq![field_view(key, value)]
    } else {
        Seq::empty()
    }
}

/// A dependency as shown: its name, with its module in brackets when known.
pub open spec fn dep_text(d: DepLink) -> Seq<char> {
    if d.module@.len() == 0 {
        d.name@
    } else {
        d.name@ + " ("@ + d.module@ + ")"@
    }
}

/// The fields of an adoption record: upstream (label and short sha), kind,
/// author, dependencies (as `links` resolves them), transforms, license and
/// who adopted it; the optional ones only when present.
pub open spec fn adoption_fields(a: Adoption, links: Seq<DepLink>) -> Seq<LineView> {
    seq![
        field_view("upstream"@, a.source_label@ + " @ "@ + first_chars(a.source_sha@, 12)),
        field_view("adopted"@, a.kind@),
    ] + field_if_view("author"@, a.author@) + (if a.dependencies@.len() > 0 {
        seq![field_view("depends on"@, join_seqs(links.map_values(|d: DepLink| dep_text(d)), ", "@))]
    } else {
        Seq::empty()
    }) + (if a.transforms@.len() > 0 {
        seq![field_view("transforms"@, join_seqs(a.transforms@.map_values(|t: String| t@), ", "@))]
    } else {
        Seq::empty()
    }) + field_if_view("license"@, a.license@) + field_if_view("adopted by"@, a.adopted_by@)
}

/// The provenance chain of an artifact: the heading, its status and
/// staleness, where it came from (or that it was authored here), its source
/// module, a blank line, the Deployments block of `groups`, and the sidecar
/// warning when there is one.
pub open spec fn provenance_view(
    module: ModuleView,
    artifact: ArtifactView,
    staleness: Seq<char>,
    links: Seq<DepLink>,
    groups: Seq<DeployGroup>,
) -> Seq<LineView> {
    seq![
        one("Provenance"@, Tone::Bold),
        field_view("status"@, status_label(overall_of(artifact.providers@)) + " · "@ + staleness),
    ] + (match artifact.adoption {
        Some(a) => adoption_fields(a, links),
        None => seq![field_view("upstream"@, "authored here"@)],
    }) + seq![field_view("source"@, module.name@), plain(Seq::empty())] + deployment_view(groups) + (if artifact.sidecar_warning@.len()
        > 0 {
        seq![field_view("sidecar"@, artifact.sidecar_warning@)]
    } else {
        Seq::empty()
    })
}

fn field_line(key: &str, value: String) -> (r: StyledLine)
    ensures
        line_view(r) == field_view(key@, value@),
{
    let mut l = empty_line();
    push_span(&mut l, pad_to(key, 14), Tone::Magenta);
    push_span(&mut l, value, Tone::Plain);
    assert(line_view(l) =~= field_view(key@, value@));
    l
}

fn push_field_if(out: &mut Vec<StyledLine>, key: &str, value: &String)
    ensures
        lines_view(final(out)@) == lines_view(old(out)@) + field_if_view(key@, value@),
{
    let t = trim_chars(&chars_of(value.as_str()));
    if t.len() > 0 {
        push_line(out, field_line(key, value.clone()));
        assert(lines_view(out@) =~= lines_view(old(out)@) + field_if_view(key@, value@));
    } else {
        assert(lines_view(out@) =~= lines_view(old(out)@) + field_if_view(key@, value@));
    }
}

fn join_texts(parts: &Vec<String>, sep: &str) -> (r: String)
    ensures
        r@ == join_seqs(parts@.map_values(|x: String| x@), sep@),
{
    let mut pieces: Vec<Vec<char>> = Vec::new();
    let mut k: usize = 0;
    while k < parts.len()
        invariant
            k <= parts.len(),
            seqs_of(pieces@) == parts@.take(k as int).map_values(|x: String| x@),
        decreases parts.len() - k,
    {
        let ghost before = seqs_of(pieces@);
        pieces.push(chars_of(parts[k].as_str()));
        assert(seqs_of(pieces@) =~= before.push(parts@[k as int]@));
        assert(parts@.take(k + 1).map_values(|x: String| x@) =~= parts@.take(k as int).map_values(
            |x: String| x@,
        ).push(parts@[k as int]@));
        k = k + 1;
    }
    assert(parts@.take(parts.len() as int) =~= parts@);
    string_of(&crate::text::join(&pieces, &lit(sep)))
}

fn dep_texts(links: &[DepLink]) -> (r: Vec<String>)
    ensures
        r@.map_values(|x: String| x@) == links@.map_values(|d: DepLink| dep_text(d)),
{
    let mut r: Vec<String> = Vec::new();
    let mut i: usize = 0;
    while i < links.len()
        invariant
            i <= links.len(),
            r@.map_values(|x: String| x@) == links@.take(i as int).map_values(|d: DepLink| dep_text(d)),
        decreases links.len() - i,
    {
        let d = &links[i];
        let t = if crate::text::char_count(d.module.as_str()) == 0 {
            d.name.clone()
        } else {
            let mut c = chars_of(d.name.as_str());
            extend(&mut c, &lit(" ("));
            extend(&mut c, &chars_of(d.module.as_str()));
            extend(&mut c, &lit(")"));
            string_of(&c)
        };
        proof {
            if d.module@.len() > 0 {
                assert(t@ =~= dep_text(*d));
            }
        }
        let ghost before = r@;
        r.push(t);
        assert(r@.map_values(|x: String| x@) =~= before.map_values(|x: String| x@).push(dep_text(links@[i as int])));
        assert(links@.take(i + 1).map_values(|d: DepLink| dep_text(d)) =~= links@.take(i as int).map_values(
            |d: DepLink| dep_text(d),
        ).push(dep_text(links@[i as int])));
        i = i + 1;
    }
    assert(links@.take(links.len() as int) =~= links@);
    r
}

fn adoption_lines(out: &mut Vec<StyledLine>, a: &Adoption, links: &[DepLink])
    ensures
        lines_view(final(out)@) =~~= lines_view(old(out)@) + adoption_fields(*a, links@),
{
    let ghost start = lines_view(out@);
    let mut up = chars_of(a.source_label.as_str());
    extend(&mut up, &lit(" @ "));
    extend(&mut up, &chars_of(first_chars_of(a.source_sha.as_str(), 12).as_str()));
    push_line(out, field_line("upstream", string_of(&up)));
    push_line(out, field_line("adopted", a.kind.clone()));
    let ghost two = lines_view(out@);
    push_field_if(out, "author", &a.author);
    let ghost three = lines_view(out@);
    if a.dependencies.len() > 0 {
        let texts = dep_texts(links);
        push_line(out, field_line("depends on", join_texts(&texts, ", ")));
    }
    let ghost four = lines_view(out@);
    if a.transforms.len() > 0 {
        push_line(out, field_line("transforms", join_texts(&a.transforms, ", ")));
    }
    let ghost five = lines_view(out@);
    push_field_if(out, "license", &a.license);
    push_field_if(out, "adopted by", &a.adopted_by);
    proof {
        let deps: Seq<LineView> = if a.dependencies@.len() > 0 {
            seq![field_view("depends on"@, join_seqs(links@.map_values(|d: DepLink| dep_text(d)), ", "@))]
        } else {
            Seq::empty()
        };
        let trans: Seq<LineView> = if a.transforms@.len() > 0 {
            seq![field_view("transforms"@, join_seqs(a.transforms@.map_values(|t: String| t@), ", "@))]
        } else {
            Seq::empty()
        };
        assert(four =~~= three + deps);
        assert(five =~~= four + trans);
        assert(two =~~= start + seq![
            field_view("upstream"@, a.source_label@ + " @ "@ + first_chars(a.source_sha@, 12)),
            field_view("adopted"@, a.kind@),
        ]);
    }
}

/// The provenance chain of an artifact as lines (see `provenance_view`):
/// `staleness` is the artifact's staleness label, `links` its resolved
/// dependencies and `groups` its deployments grouped by target.
pub fn provenance_chain_lines(
    module: &ModuleView,
    artifact: &ArtifactView,
    staleness: &str,
    links: &[DepLink],
    groups: &[DeployGroup],
) -> (r: Vec<StyledLine>)
    ensures
        lines_view(r@) =~~= provenance_view(*module, *artifact, staleness@, links@, groups@),
{
    let mut out: Vec<StyledLine> = Vec::new();
    push_line(&mut out, span_line(String::from_str("Provenance"), Tone::Bold));
    let mut st = chars_of(artifact.overall_status());
    extend(&mut st, &lit(" · "));
    extend(&mut st, &chars_of(staleness));
    push_line(&mut out, field_line("status", string_of(&st)));
    let ghost head = lines_view(out@);
    match &artifact.adoption {
        Some(a) => {
            adoption_lines(&mut out, a, links);
        },
        None => {
            push_line(&mut out, field_line("upstream", String::from_str("authored here")));
        },
    }
    let ghost mid = lines_view(out@);
    push_line(&mut out, field_line("source", module.name.clone()));
    push_line(&mut out, plain_line(String::new()));
    let ghost before_deploy = lines_view(out@);
    let d = deployment_lines(groups);
    push_all(&mut out, d);
    let ghost after_deploy = lines_view(out@);
    if crate::text::char_count(artifact.sidecar_warning.as_str()) > 0 {
        push_line(&mut out, field_line("sidecar", artifact.sidecar_warning.clone()));
    }
    proof {
        let origin: Seq<LineView> = if artifact.adoption is Some {
            adoption_fields(artifact.adoption->0, links@)
        } else {
            seq![field_view("upstream"@, "authored here"@)]
        };
        assert(mid =~~= head + origin);
        assert(before_deploy =~~= mid + seq![field_view("source"@, module.name@), plain(Seq::empty())]);
        assert(after_deploy =~~= before_deploy + deployment_view(groups@));
    }
    out
}

// ---------------------------------------------------------------------------
// Help overlay

/// A group of key bindings: its title, then (keys, what they do).
pub type BindingGroup = (Seq<char>, Seq<(Seq<char>, Seq<char>)>);

/// The key bindings the help overlay lists, in groups.
pub open spec fn keybinding_groups() -> Seq<BindingGroup> {
    seq![
        (
            "Navigation"@,
            seq![
                ("h/j/k/l"@, "move, drill, and go back"@),
                ("arrows"@, "move, drill, and go back"@),
                ("Tab"@, "next column or detail tab"@),
                ("BackTab"@, "previous column"@),
                ("Enter"@, "drill or expand detail"@),
                ("Esc"@, "back, close overlay, or quit"@),
                ("g/G"@, "top or bottom"@),
                ("PgUp/PgDn"@, "scroll detail"@),
            ],
        ),
        (
            "Sections"@,
            seq![
                ("1"@, "overview"@),
                ("2"@, "skills"@),
                ("3"@, "agents"@),
                ("4"@, "rules"@),
                ("5"@, "repositories"@),
                ("6"@, "ADRs"@),
                ("7"@, "provenance"@),
                ("8"@, "variants"@),
                ("9"@, "search"@),
                ("t"@, "settings"@),
                ("h"@, "hooks"@),
                ("c"@, "config"@),
                ("m"@, "schemas"@),
            ],
        ),
        (
            "Actions"@,
            seq![
                ("/"@, "search"@),
                (":"@, "palette"@),
                ("r"@, "refresh"@),
                ("y"@, "copy install snippet or path"@),
                ("Tab"@, "next detail tab"@),
                ("p c d v f i n"@, "detail tabs"@),
                ("m"@, "comment line (from any detail tab)"@),
                ("Y"@, "copy tuicr comments"@),
                ("o/O"@, "open gitui / jjui on repository"@),
            ],
        ),
        ("Global"@, seq![("?"@, "help"@), ("F1"@, "help"@), ("q"@, "quit"@)]),
    ]
}

/// The view of a binding table.
pub open spec fn bindings_view(t: Seq<(&str, Vec<(&str, &str)>)>) -> Seq<BindingGroup> {
    t.map_values(
        |g: (&str, Vec<(&str, &str)>)| (g.0@, g.1@.map_values(|b: (&str, &str)| (b.0@, b.1@))),
    )
}

/// The key bindings, as a table (see `keybinding_groups`).
pub fn keybindings() -> (r: Vec<(&'static str, Vec<(&'static str, &'static str)>)>)
    ensures
        bindings_view(r@) =~~= keybinding_groups(),
{
    let r = vec![
        (
            "Navigation",
            vec![
                ("h/j/k/l", "move, drill, and go back"),
                ("arrows", "move, drill, and go back"),
                ("Tab", "next column or detail tab"),
                ("BackTab", "previous column"),
                ("Enter", "drill or expand detail"),
                ("Esc", "back, close overlay, or quit"),
                ("g/G", "top or bottom"),
                ("PgUp/PgDn", "scroll detail"),
            ],
        ),
        (
            "Sections",
            vec![
                ("1", "overview"),
                ("2", "skills"),
                ("3", "agents"),
                ("4", "rules"),
                ("5", "repositories"),
                ("6", "ADRs"),
                ("7", "provenance"),
                ("8", "variants"),
                ("9", "search"),
                ("t", "settings"),
                ("h", "hooks"),
                ("c", "config"),
                ("m", "schemas"),
            ],
        ),
        (
            "Actions",
            vec![
                ("/", "search"),
                (":", "palette"),
                ("r", "refresh"),
                ("y", "copy install snippet or path"),
                ("Tab", "next detail tab"),
                ("p c d v f i n", "detail tabs"),
                ("m", "comment line (from any detail tab)"),
                ("Y", "copy tuicr comments"),
                ("o/O", "open gitui / jjui on repository"),
            ],
        ),
        ("Global", vec![("?", "help"), ("F1", "help"), ("q", "quit")]),
    ];
    assert(bindings_view(r@) =~~= keybinding_groups());
    r
}

/// One group as help lines: its title in bold magenta, each binding (keys
/// padded to 12 in bold, then the description dimmed), and a blank line.
pub open spec fn help_group(g: BindingGroup) -> Seq<LineView> {
    seq![one(g.0, Tone::MagentaBold)] + g.1.map_values(
        |b: (Seq<char>, Seq<char>)| seq![(pad_right(b.0, 12), Tone::Bold), (b.1, Tone::DarkGray)],
    ) + seq![plain(Seq::empty())]
}

/// The help lines of the groups at positions `column`, `column + 2`, ...
/// among the first `n` groups.
pub open spec fn help_column_view(groups: Seq<BindingGroup>, column: int, n: int) -> Seq<LineView>
    decreases n,
{
    if n <= 0 {
        Seq::empty()
    } else {
        let prev = help_column_view(groups, column, n - 1);
        if (n - 1) % 2 == column {
            prev + help_group(groups[n - 1])
        } else {
            prev
        }
    }
}

/// The lines of one of the help overlay's two columns: the groups at even
/// positions on the left (column 0), at odd positions on the right.
pub fn help_column_lines(column: usize) -> (r: Vec<StyledLine>)
    ensures
        lines_view(r@) =~~= help_column_view(keybinding_groups(), column as int, 4),
{
    let table = keybindings();
    let ghost groups = keybinding_groups();
    assert(bindings_view(table@).len() == table@.len());
    assert(groups.len() == 4);
    let mut out: Vec<StyledLine> = Vec::new();
    let mut i: usize = 0;
    while i < table.len()
        invariant
            bindings_view(table@) =~~= groups,
            groups == keybinding_groups(),
            i <= table.len(),
            table@.len() == 4,
            lines_view(out@) =~~= help_column_view(groups, column as int, i as int),
        decreases table.len() - i,
    {
        if i % 2 == column {
            let ghost start = lines_view(out@);
            let (title, bindings) = &table[i];
            push_line(&mut out, span_line(String::from_str(title), Tone::MagentaBold));
            let ghost g = groups[i as int];
            let ghost head = lines_view(out@);
            let mut j: usize = 0;
            while j < bindings.len()
                invariant
                    j <= bindings.len(),
                    g.1 =~~= bindings@.map_values(|b: (&str, &str)| (b.0@, b.1@)),
                    lines_view(out@) =~~= head + g.1.take(j as int).map_values(
                        |b: (Seq<char>, Seq<char>)| seq![(pad_right(b.0, 12), Tone::Bold), (b.1, Tone::DarkGray)],
                    ),
                decreases bindings.len() - j,
            {
                let (key, description) = bindings[j];
                let mut l = empty_line();
                push_span(&mut l, pad_to(key, 12), Tone::Bold);
                push_span(&mut l, String::from_str(description), Tone::DarkGray);
                push_line(&mut out, l);
                assert(g.1.take(j + 1) =~= g.1.take(j as int).push(g.1[j as int]));
                j = j + 1;
            }
            assert(g.1.take(bindings.len() as int) =~= g.1);
            push_line(&mut out, plain_line(String::new()));
            assert(lines_view(out@) =~~= start + help_group(g));
        }
        i = i + 1;
    }
    out
}

/// A binding as the footer shows it: the keys, a space, what they do.
pub open spec fn binding_hint(b: (Seq<char>, Seq<char>)) -> Seq<char> {
    b.0 + " "@ + b.1
}

/// The footer's hints outside the detail column are the first eight key
/// bindings of the help overlay.
pub proof fn lemma_hints_are_first_bindings()
    ensures
        navigation_hints() =~= keybinding_groups().map_values(|g: BindingGroup| g.1).flatten().take(8).map_values(
            |b: (Seq<char>, Seq<char>)| binding_hint(b),
        ),
{
    let groups = keybinding_groups().map_values(|g: BindingGroup| g.1);
    assert(groups.flatten() == groups[0] + groups.drop_first().flatten());
    assert(groups[0].len() == 8);
    assert(groups.flatten().take(8) =~= groups[0]);
    reveal_strlit("h/j/k/l move, drill, and go back");
    reveal_strlit("h/j/k/l");
    reveal_strlit(" ");
    reveal_strlit("move, drill, and go back");
    reveal_strlit("arrows move, drill, and go back");
    reveal_strlit("arrows");
    reveal_strlit("Tab next column or detail tab");
    reveal_strlit("Tab");
    reveal_strlit("next column or detail tab");
    reveal_strlit("BackTab previous column");
    reveal_strlit("BackTab");
    reveal_strlit("previous column");
    reveal_strlit("Enter drill or expand detail");
    reveal_strlit("Enter");
    reveal_strlit("drill or expand detail");
    reveal_strlit("Esc back, close overlay, or quit");
    reveal_strlit("Esc");
    reveal_strlit("back, close overlay, or quit");
    reveal_strlit("g/G top or bottom");
    reveal_strlit("g/G");
    reveal_strlit("top or bottom");
    reveal_strlit("PgUp/PgDn scroll detail");
    reveal_strlit("PgUp/PgDn");
    reveal_strlit("scroll detail");
    assert(binding_hint(groups[0][0]) =~= "h/j/k/l move, drill, and go back"@);
    assert(binding_hint(groups[0][1]) =~= "arrows move, drill, and go back"@);
    assert(binding_hint(groups[0][2]) =~= "Tab next column or detail tab"@);
    assert(binding_hint(groups[0][3]) =~= "BackTab previous column"@);
    assert(binding_hint(groups[0][4]) =~= "Enter drill or expand detail"@);
    assert(binding_hint(groups[0][5]) =~= "Esc back, close overlay, or quit"@);
    assert(binding_hint(groups[0][6]) =~= "g/G top or bottom"@);
    assert(binding_hint(groups[0][7]) =~= "PgUp/PgDn scroll detail"@);
    assert(navigation_hints() =~= groups[0].map_values(|b: (Seq<char>, Seq<char>)| binding_hint(b)));
}

// ---------------------------------------------------------------------------
// Overview detail

/// The status block: the heading, the counts, a blank line.
pub open spec fn summary_block(s: StatusSummary) -> Seq<LineView> {
    seq![
        one("Status summary"@, Tone::Bold),
        plain(
            "unchanged "@ + decimal_seq(s.unchanged as nat) + " · stale "@ + decimal_seq(s.stale as nat)
                + " · modified "@ + decimal_seq(s.modified as nat) + " · new "@ + decimal_seq(s.new as nat),
        ),
        plain(Seq::empty()),
    ]
}

/// A matrix cell as text: `kind:count` and the status letter.
pub open spec fn cell_text(c: MatrixCell) -> Seq<char> {
    c.kind@ + ":"@ + decimal_seq(c.count as nat) + status_dot_seq(c.status@)
}

/// A matrix row as text: the module, then its cells, two spaces apart.
pub open spec fn matrix_row_text(r: MatrixRow) -> Seq<char> {
    r.module@ + "  "@ + join_seqs(r.cells@.map_values(|c: MatrixCell| cell_text(c)), "  "@)
}

/// The overview in matrix mode: the status block, the Matrix heading, the
/// columns, one line per row.
pub open spec fn overview_matrix_view(s: StatusSummary, m: MatrixView) -> Seq<LineView> {
    summary_block(s) + seq![
        one("Matrix"@, Tone::Magenta),
        plain("columns: "@ + join_seqs(views(m.cols@), ", "@)),
    ] + m.rows@.map_values(|r: MatrixRow| plain(matrix_row_text(r)))
}

/// A label with a count in brackets.
pub open spec fn counted(label: Seq<char>, n: usize) -> Seq<char> {
    label + " ("@ + decimal_seq(n as nat) + ")"@
}

/// A nested group's lines: its label and count, then each subgroup's,
/// indented.
pub open spec fn nested_group_view(g: NestedGroup) -> Seq<LineView> {
    seq![plain(counted(g.label@, g.count))] + g.subgroups@.map_values(
        |x: NestedSub| plain("  "@ + counted(x.label@, x.count)),
    )
}

/// The lines of the groups, in order.
pub open spec fn nested_groups_view(gs: Seq<NestedGroup>) -> Seq<LineView>
    decreases gs.len(),
{
    if gs.len() == 0 {
        Seq::empty()
    } else {
        nested_groups_view(gs.drop_last()) + nested_group_view(gs.last())
    }
}

/// The overview in nested mode: the status block, the Nested heading, the
/// groups.
pub open spec fn overview_nested_view(s: StatusSummary, gs: Seq<NestedGroup>) -> Seq<LineView> {
    summary_block(s) + seq![one("Nested"@, Tone::Magenta)] + nested_groups_view(gs)
}

fn summary_lines(s: &StatusSummary) -> (r: Vec<StyledLine>)
    ensures
        lines_view(r@) =~~= summary_block(*s),
{
    let mut t = lit("unchanged ");
    extend(&mut t, &decimal(s.unchanged as u64));
    extend(&mut t, &lit(" · stale "));
    extend(&mut t, &decimal(s.stale as u64));
    extend(&mut t, &lit(" · modified "));
    extend(&mut t, &decimal(s.modified as u64));
    extend(&mut t, &lit(" · new "));
    extend(&mut t, &decimal(s.new as u64));
    let mut out: Vec<StyledLine> = Vec::new();
    push_line(&mut out, span_line(String::from_str("Status summary"), Tone::Bold));
    push_line(&mut out, plain_line(string_of(&t)));
    push_line(&mut out, plain_line(String::new()));
    out
}

fn counted_text(label: &String, n: usize) -> (r: Vec<char>)
    ensures
        r@ == counted(label@, n),
{
    let mut t = chars_of(label.as_str());
    extend(&mut t, &lit(" ("));
    extend(&mut t, &decimal(n as u64));
    extend(&mut t, &lit(")"));
    t
}

/// The overview's lines in matrix mode (see `overview_matrix_view`).
pub fn overview_matrix_lines(summary: &StatusSummary, matrix: &MatrixView) -> (r: Vec<StyledLine>)
    ensures
        lines_view(r@) =~~= overview_matrix_view(*summary, *matrix),
{
    let mut out = summary_lines(summary);
    let ghost start = lines_view(out@);
    push_line(&mut out, span_line(String::from_str("Matrix"), Tone::Magenta));
    let mut cols = lit("columns: ");
    extend(&mut cols, &chars_of(join_texts(&matrix.cols, ", ").as_str()));
    assert(matrix.cols@.map_values(|x: String| x@) =~= views(matrix.cols@));
    push_line(&mut out, plain_line(string_of(&cols)));
    let ghost head = lines_view(out@);
    let mut i: usize = 0;
    while i < matrix.rows.len()
        invariant
            i <= matrix.rows.len(),
            lines_view(out@) =~~= head + matrix.rows@.take(i as int).map_values(
                |r: MatrixRow| plain(matrix_row_text(r)),
            ),
        decreases matrix.rows.len() - i,
    {
        let row = &matrix.rows[i];
        let mut cells: Vec<String> = Vec::new();
        let mut k: usize = 0;
        while k < row.cells.len()
            invariant
                k <= row.cells.len(),
                cells@.map_values(|x: String| x@) =~= row.cells@.take(k as int).map_values(
                    |c: MatrixCell| cell_text(c),
                ),
            decreases row.cells.len() - k,
        {
            let c = &row.cells[k];
            let mut t = chars_of(c.kind.as_str());
            extend(&mut t, &lit(":"));
            extend(&mut t, &decimal(c.count as u64));
            extend(&mut t, &lit(status_dot(c.status.as_str())));
            let ghost before = cells@.map_values(|x: String| x@);
            cells.push(string_of(&t));
            assert(cells@.map_values(|x: String| x@) =~= before.push(cell_text(*c)));
            assert(row.cells@.take(k + 1).map_values(|c: MatrixCell| cell_text(c)) =~= row.cells@.take(
                k as int,
            ).map_values(|c: MatrixCell| cell_text(c)).push(cell_text(row.cells@[k as int])));
            k = k + 1;
        }
        assert(row.cells@.take(row.cells.len() as int) =~= row.cells@);
        let mut line = chars_of(row.module.as_str());
        extend(&mut line, &lit("  "));
        extend(&mut line, &chars_of(join_texts(&cells, "  ").as_str()));
        push_line(&mut out, plain_line(string_of(&line)));
        assert(matrix.rows@.take(i + 1) =~= matrix.rows@.take(i as int).push(matrix.rows@[i as int]));
        i = i + 1;
    }
    assert(matrix.rows@.take(matrix.rows.len() as int) =~= matrix.rows@);
    out
}

/// The overview's lines in nested mode (see `overview_nested_view`).
pub fn overview_nested_lines(summary: &StatusSummary, groups: &[NestedGroup]) -> (r: Vec<StyledLine>)
    ensures
        lines_view(r@) =~~= overview_nested_view(*summary, groups@),
{
    let mut out = summary_lines(summary);
    push_line(&mut out, span_line(String::from_str("Nested"), Tone::Magenta));
    let ghost head = lines_view(out@);
    let mut i: usize = 0;
    while i < groups.len()
        invariant
            i <= groups.len(),
            lines_view(out@) =~~= head + nested_groups_view(groups@.take(i as int)),
        decreases groups.len() - i,
    {
        let g = &groups[i];
        let ghost before = lines_view(out@);
        push_line(&mut out, plain_line(string_of(&counted_text(&g.label, g.count))));
        let ghost mid = lines_view(out@);
        let mut k: usize = 0;
        while k < g.subgroups.len()
            invariant
                k <= g.subgroups.len(),
                lines_view(out@) =~~= mid + g.subgroups@.take(k as int).map_values(
                    |x: NestedSub| plain("  "@ + counted(x.label@, x.count)),
                ),
            decreases g.subgroups.len() - k,
        {
            let x = &g.subgroups[k];
            let mut t = lit("  ");
            extend(&mut t, &counted_text(&x.label, x.count));
            push_line(&mut out, plain_line(string_of(&t)));
            assert(g.subgroups@.take(k + 1) =~= g.subgroups@.take(k as int).push(g.subgroups@[k as int]));
            k = k + 1;
        }
        proof {
            assert(g.subgroups@.take(g.subgroups.len() as int) =~= g.subgroups@);
            assert(groups@.take(i + 1).drop_last() =~= groups@.take(i as int));
            assert(groups@.take(i + 1).last() == groups@[i as int]);
            assert(lines_view(out@) =~~= before + nested_group_view(groups@[i as int]));
        }
        i = i + 1;
    }
    assert(groups@.take(groups.len() as int) =~= groups@);
    out
}

} // verus!
