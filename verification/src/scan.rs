//! Text helpers of the deployment scanner: reading flat frontmatter fields,
//! stripping frontmatter for previews, summarising ADRs, and picking apart
//! manifest keys, sidecar lines and git output.

use vstd::prelude::*;
use crate::text::{chars_of, eq, eq_ignore_ascii_case, eq_ignore_case, extend, find, find_seq, has_prefix, is_char, last_char_index, lemma_find_contains, lemma_trim_start_by, lines, lines_of, lit, replace, replace_seq, rfind_char, seqs_of, slice, split_char, split_on, split_once, split_once_seq, starts_with, string_of, strip_prefix, strip_prefix_all, strip_suffix_all, trim, trim_char, trim_chars, trim_end, trim_end_chars, trim_end_matches, trim_matches_char, trim_start, trim_start_by, trim_start_chars, trim_start_matches};
use crate::view::{GitCommit};

verus! {

// ---------------------------------------------------------------------------
// Flat frontmatter

/// The frontmatter block as the scanner reads it: the document starts with
/// `---`, and the block runs up to the first `\n---` after that.
pub open spec fn fm_block(content: Seq<char>) -> Option<Seq<char>> {
    let dash = seq!['-', '-', '-'];
    let close = seq!['\n', '-', '-', '-'];
    if has_prefix(content, dash) {
        match find_seq(content.skip(3), close) {
            Some(end) => Some(content.skip(3).take(end)),
            None => None,
        }
    } else {
        None
    }
}

/// The text after the frontmatter's closing `\n---`, with leading white
/// space removed; the whole content when there is no frontmatter.
pub open spec fn body_after_fm(content: Seq<char>) -> Seq<char> {
    let dash = seq!['-', '-', '-'];
    let close = seq!['\n', '-', '-', '-'];
    if has_prefix(content, dash) {
        match find_seq(content.skip(3), close) {
            Some(end) => trim_start(content.skip(3).skip(end + 4)),
            None => content,
        }
    } else {
        content
    }
}

/// A field value with surrounding white space and then surrounding double
/// and single quotes removed.
pub open spec fn unquote(v: Seq<char>) -> Seq<char> {
    trim_char(trim_char(trim(v), '"'), '\'')
}

/// The value of the first line (trimmed) that starts with `field:`.
pub open spec fn field_in_lines(ls: Seq<Seq<char>>, field: Seq<char>) -> Option<Seq<char>>
    decreases ls.len(),
{
    if ls.len() == 0 {
        None
    } else {
        let key = field.push(':');
        let t = trim(ls[0]);
        if has_prefix(t, key) {
            Some(unquote(t.skip(key.len() as int)))
        } else {
            field_in_lines(ls.drop_first(), field)
        }
    }
}

/// The unquoted value of `field` in the flat frontmatter, or empty.
pub open spec fn frontmatter_field(content: Seq<char>, field: Seq<char>) -> Seq<char> {
    match fm_block(content) {
        Some(fm) => match field_in_lines(lines(fm), field) {
            Some(v) => v,
            None => Seq::empty(),
        },
        None => Seq::empty(),
    }
}

fn unquote_chars(v: &[char]) -> (r: Vec<char>)
    ensures
        r@ == unquote(v@),
{
    let a = trim_chars(v);
    let b = trim_matches_char(&a, '"');
    trim_matches_char(&b, '\'')
}

/// Locates the scanner's frontmatter block: `Some((start, end))` with the
/// block at `content[start..end]` and the closing `\n---` at `end`.
fn fm_bounds(content: &[char]) -> (r: Option<(usize, usize)>)
    ensures
        match r {
            Some((start, end)) => start == 3 && 3 <= end && end + 4 <= content.len() && fm_block(content@)
                == Some(content@.subrange(3, end as int)) && body_after_fm(content@) == trim_start(
                content@.skip(end + 4),
            ),
            None => fm_block(content@) is None && body_after_fm(content@) == content@,
        },
{
    let dash = vec!['-', '-', '-'];
    if !starts_with(content, &dash) {
        return None;
    }
    let rest = slice(content, 3, content.len());
    let close = vec!['\n', '-', '-', '-'];
    assert(rest@ =~= content@.skip(3));
    match find(&rest, &close) {
        Some(end) => {
            proof {
                lemma_find_contains(rest@, close@);
                assert(rest@.take(end as int) =~= content@.subrange(3, end + 3));
                assert(rest@.skip(end + 4) =~= content@.skip(end + 3 + 4));
            }
            Some((3, end + 3))
        },
        None => None,
    }
}

/// The unquoted value of `field` in the document's flat frontmatter, or an
/// empty string when there is no frontmatter or no such field.
pub fn extract_frontmatter_field(content: &str, field: &str) -> (r: String)
    ensures
        r@ == frontmatter_field(content@, field@),
{
    let text = chars_of(content);
    let mut key = chars_of(field);
    key.push(':');
    match fm_bounds(&text) {
        None => String::new(),
        Some((start, end)) => {
            let fm = slice(&text, start, end);
            let ls = lines_of(&fm);
            let ghost lsv = seqs_of(ls@);
            let mut i: usize = 0;
            assert(lsv.skip(0) =~= lsv);
            while i < ls.len()
                invariant
                    i <= ls.len(),
                    lsv == seqs_of(ls@),
                    lsv == lines(fm@),
                    fm_block(content@) == Some(fm@),
                    key@ == field@.push(':'),
                    field_in_lines(lsv.skip(i as int), field@) == field_in_lines(lsv, field@),
                decreases ls.len() - i,
            {
                let t = trim_chars(&ls[i]);
                proof {
                    assert(lsv[i as int] == ls@[i as int]@);
                    assert(lsv.skip(i as int)[0] == lsv[i as int]);
                    assert(lsv.skip(i as int).drop_first() =~= lsv.skip(i + 1));
                }
                match strip_prefix(&t, &key) {
                    Some(v) => {
                        proof {
                            let k = field@.push(':');
                            assert(has_prefix(t@, k));
                            assert(v@ == t@.skip(k.len() as int));
                            assert(field_in_lines(lsv.skip(i as int), field@) == Some(unquote(v@)));
                            assert(fm_block(content@) == Some(fm@));
                        }
                        return string_of(&unquote_chars(&v));
                    },
                    None => {},
                }
                i = i + 1;
            }
            assert(lsv.skip(i as int) =~= Seq::<Seq<char>>::empty());
            String::new()
        },
    }
}

/// The document with its frontmatter block removed and leading white space
/// trimmed; the whole document when there is no frontmatter.
pub fn strip_frontmatter(content: &str) -> (r: String)
    ensures
        r@ == body_after_fm(content@),
{
    let text = chars_of(content);
    match fm_bounds(&text) {
        None => String::from_str(content),
        Some((_start, end)) => {
            let rest = slice(&text, end + 4, text.len());
            assert(rest@ =~= text@.skip(end + 4));
            string_of(&trim_start_chars(&rest))
        },
    }
}

/// One parsed field pair: key and value trimmed, value unquoted; kept only
/// when both are non-empty.
pub open spec fn field_pair(line: Seq<char>) -> Option<(Seq<char>, Seq<char>)> {
    match split_once_seq(trim(line), ':') {
        Some((k, v)) => {
            let key = trim(k);
            let value = unquote(v);
            if key.len() > 0 && value.len() > 0 {
                Some((key, value))
            } else {
                None
            }
        },
        None => None,
    }
}

/// The field pairs of a list of lines, in order.
pub open spec fn field_pairs(ls: Seq<Seq<char>>) -> Seq<(Seq<char>, Seq<char>)>
    decreases ls.len(),
{
    if ls.len() == 0 {
        Seq::empty()
    } else {
        match field_pair(ls.last()) {
            Some(p) => field_pairs(ls.drop_last()).push(p),
            None => field_pairs(ls.drop_last()),
        }
    }
}

/// All flat `key: value` fields of the frontmatter in source order.
pub open spec fn frontmatter_pairs(content: Seq<char>) -> Seq<(Seq<char>, Seq<char>)> {
    match fm_block(content) {
        Some(fm) => field_pairs(lines(fm)),
        None => Seq::empty(),
    }
}

/// The views of a vector of string pairs.
pub open spec fn pair_views(v: Seq<(String, String)>) -> Seq<(Seq<char>, Seq<char>)> {
    Seq::new(v.len(), |i: int| (v[i].0@, v[i].1@))
}

/// Parses flat frontmatter fields, preserving their source order.
pub fn parse_frontmatter(content: &str) -> (r: Vec<(String, String)>)
    ensures
        pair_views(r@) == frontmatter_pairs(content@),
{
    let text = chars_of(content);
    let mut fields: Vec<(String, String)> = Vec::new();
    match fm_bounds(&text) {
        None => {
            assert(pair_views(fields@) =~= Seq::<(Seq<char>, Seq<char>)>::empty());
            fields
        },
        Some((start, end)) => {
            let fm = slice(&text, start, end);
            let ls = lines_of(&fm);
            let ghost lsv = seqs_of(ls@);
            let mut i: usize = 0;
            while i < ls.len()
                invariant
                    i <= ls.len(),
                    lsv == seqs_of(ls@),
                    pair_views(fields@) == field_pairs(lsv.take(i as int)),
                decreases ls.len() - i,
            {
                proof {
                    assert(lsv.take(i + 1).drop_last() =~= lsv.take(i as int));
                    assert(lsv.take(i + 1).last() == lsv[i as int]);
                }
                let t = trim_chars(&ls[i]);
                match split_once(&t, ':') {
                    Some((k, v)) => {
                        let key = trim_chars(&k);
                        let value = unquote_chars(&v);
                        if key.len() > 0 && value.len() > 0 {
                            let ghost old_fields = fields@;
                            fields.push((string_of(&key), string_of(&value)));
                            assert(pair_views(fields@) =~= pair_views(old_fields).push(
                                (key@, value@),
                            ));
                        }
                    },
                    None => {},
                }
                i = i + 1;
            }
            assert(lsv.take(ls.len() as int) =~= lsv);
            fields
        },
    }
}

// ---------------------------------------------------------------------------
// Summaries and prompts

/// The ellipsis appended to truncated text.
pub open spec fn ellipsis() -> Seq<char> {
    seq!['\u{2026}']
}

/// `text` when it has at most `max` characters; otherwise its first `max`
/// characters cut back to the last space (when there is one) and followed
/// by an ellipsis.
pub open spec fn truncate_summary_seq(text: Seq<char>, max: nat) -> Seq<char> {
    if text.len() <= max {
        text
    } else {
        let t = text.take(max as int);
        let i = last_char_index(t, ' ');
        if i >= 0 {
            t.take(i) + ellipsis()
        } else {
            t + ellipsis()
        }
    }
}

/// Truncates a summary at a word boundary (see `truncate_summary_seq`).
pub fn truncate_summary(text: &[char], max: usize) -> (r: Vec<char>)
    ensures
        r@ == truncate_summary_seq(text@, max as nat),
{
    if text.len() <= max {
        return slice(text, 0, text.len());
    }
    let t = slice(text, 0, max);
    assert(t@ =~= text@.take(max as int));
    let mut out = match rfind_char(&t, ' ') {
        Some(i) => slice(&t, 0, i),
        None => t,
    };
    out.push('\u{2026}');
    proof {
        if last_char_index(t@, ' ') >= 0 {
            assert(out@ =~= t@.take(last_char_index(t@, ' ')) + ellipsis());
        } else {
            assert(out@ =~= t@ + ellipsis());
        }
    }
    out
}

/// A heading line whose text, after its `#` marks, is `Context`.
pub open spec fn is_context_heading(line: Seq<char>) -> bool {
    has_prefix(line, seq!['#', '#']) && eq_ignore_case(
        trim(trim_start_by(line, is_char('#'))),
        "context"@,
    )
}

/// Index of the first `## Context` heading, or -1.
pub open spec fn context_index(ls: Seq<Seq<char>>) -> int
    decreases ls.len(),
{
    if ls.len() == 0 {
        -1
    } else if is_context_heading(ls[0]) {
        0
    } else {
        let r = context_index(ls.drop_first());
        if r < 0 {
            -1
        } else {
            r + 1
        }
    }
}

/// The first prose paragraph of `ls`, continuing the paragraph `acc`:
/// trimmed lines joined by single spaces; blank lines and headings are
/// skipped before it starts and end it once it has started.
pub open spec fn paragraph_from(ls: Seq<Seq<char>>, acc: Seq<char>) -> Seq<char>
    decreases ls.len(),
{
    if ls.len() == 0 {
        acc
    } else {
        let t = trim(ls[0]);
        if t.len() == 0 || t[0] == '#' {
            if acc.len() == 0 {
                paragraph_from(ls.drop_first(), acc)
            } else {
                acc
            }
        } else {
            let next = if acc.len() == 0 {
                t
            } else {
                acc + seq![' '] + t
            };
            paragraph_from(ls.drop_first(), next)
        }
    }
}

/// The ADR list preview: the first paragraph after a `## Context` heading
/// (or after the start of the body when there is none), backticks removed,
/// truncated to 260 characters at a word boundary.
pub open spec fn adr_summary_seq(raw: Seq<char>) -> Seq<char> {
    let ls = lines(body_after_fm(raw));
    let ci = context_index(ls);
    let start = if ci >= 0 {
        ci + 1
    } else {
        0
    };
    let p = paragraph_from(ls.skip(start), Seq::empty());
    truncate_summary_seq(replace_seq(p, seq!['`'], Seq::empty()), 260)
}

fn is_context_heading_exec(line: &[char]) -> (b: bool)
    ensures
        b == is_context_heading(line@),
{
    let hh = vec!['#', '#'];
    if !starts_with(line, &hh) {
        return false;
    }
    let mut k: usize = 0;
    while k < line.len() && line[k] == '#'
        invariant
            k <= line.len(),
            forall|j: int| 0 <= j < k ==> line@[j] == '#',
        decreases line.len() - k,
    {
        k = k + 1;
    }
    proof {
        lemma_trim_start_by(line@, is_char('#'), k as int);
        assert(line@.skip(k as int) =~= line@.subrange(k as int, line@.len() as int));
    }
    let rest = slice(line, k, line.len());
    let t = trim_chars(&rest);
    eq_ignore_ascii_case(&t, &lit("context"))
}

/// One-paragraph preview of an ADR for the list view (see `adr_summary_seq`).
pub fn adr_summary(raw: &str) -> (r: String)
    ensures
        r@ == adr_summary_seq(raw@),
{
    let body = strip_frontmatter(raw);
    let body_chars = chars_of(body.as_str());
    let ls = lines_of(&body_chars);
    let ghost lsv = seqs_of(ls@);
    let mut idx: usize = 0;
    assert(lsv.skip(0) =~= lsv);
    while idx < ls.len() && !is_context_heading_exec(&ls[idx])
        invariant
            idx <= ls.len(),
            lsv == seqs_of(ls@),
            context_index(lsv.skip(idx as int)) >= 0 ==> context_index(lsv) == idx
                + context_index(lsv.skip(idx as int)),
            context_index(lsv.skip(idx as int)) < 0 ==> context_index(lsv) < 0,
        decreases ls.len() - idx,
    {
        proof {
            assert(lsv[idx as int] == ls@[idx as int]@);
            assert(lsv.skip(idx as int)[0] == lsv[idx as int]);
            assert(lsv.skip(idx as int).drop_first() =~= lsv.skip(idx + 1));
        }
        idx = idx + 1;
    }
    let start: usize = if idx < ls.len() {
        proof {
            assert(lsv[idx as int] == ls@[idx as int]@);
            assert(lsv.skip(idx as int)[0] == lsv[idx as int]);
            assert(context_index(lsv.skip(idx as int)) == 0);
        }
        idx + 1
    } else {
        proof {
            assert(lsv.skip(idx as int) =~= Seq::<Seq<char>>::empty());
        }
        0
    };
    let mut para: Vec<char> = Vec::new();
    let mut i = start;
    let mut done = false;
    while i < ls.len() && !done
        invariant
            start <= i <= ls.len(),
            lsv == seqs_of(ls@),
            paragraph_from(lsv.skip(i as int), para@) == paragraph_from(
                lsv.skip(start as int),
                Seq::empty(),
            ),
            done ==> paragraph_from(lsv.skip(i as int), para@) == para@,
        decreases ls.len() - i, (if done { 0int } else { 1int }),
    {
        let t = trim_chars(&ls[i]);
        proof {
            assert(lsv[i as int] == ls@[i as int]@);
            assert(lsv.skip(i as int)[0] == lsv[i as int]);
            assert(lsv.skip(i as int).drop_first() =~= lsv.skip(i + 1));
        }
        if t.len() == 0 || t[0] == '#' {
            if para.len() == 0 {
                i = i + 1;
            } else {
                done = true;
            }
        } else {
            let ghost acc = para@;
            if para.len() > 0 {
                para.push(' ');
            }
            extend(&mut para, &t);
            proof {
                if acc.len() == 0 {
                    assert(para@ =~= t@);
                } else {
                    assert(para@ =~= acc + seq![' '] + t@);
                }
            }
            i = i + 1;
        }
    }
    proof {
        if !done {
            assert(lsv.skip(i as int) =~= Seq::<Seq<char>>::empty());
        }
    }
    let tick = vec!['`'];
    let nothing: Vec<char> = Vec::new();
    assert(tick@ =~= seq!['`']);
    assert(nothing@ =~= Seq::<char>::empty());
    let cleaned = replace(&para, &tick, &nothing);
    proof {
        let ci = context_index(lsv);
        assert(lsv == lines(body_after_fm(raw@)));
        assert(start as int == (if ci >= 0 { ci + 1 } else { 0 }));
        assert(para@ == paragraph_from(lsv.skip(start as int), Seq::empty()));
    }
    string_of(&truncate_summary(&cleaned, 260))
}

/// The prompt limit of the history view, in characters.
pub open spec fn prompt_limit() -> nat {
    110
}

/// A prompt line capped at 110 characters: longer lines are cut, stripped
/// of trailing white space and followed by an ellipsis.
pub open spec fn truncate_prompt_seq(line: Seq<char>) -> Seq<char> {
    if line.len() <= prompt_limit() {
        line
    } else {
        trim_end(line.take(prompt_limit() as int)) + ellipsis()
    }
}

/// Caps a prompt teaser at 110 characters (see `truncate_prompt_seq`).
pub fn truncate_prompt(line: &str) -> (r: String)
    ensures
        r@ == truncate_prompt_seq(line@),
{
    let v = chars_of(line);
    if v.len() <= 110 {
        return String::from_str(line);
    }
    let cut = slice(&v, 0, 110);
    assert(cut@ =~= v@.take(110));
    let mut out = trim_end_chars(&cut);
    out.push('\u{2026}');
    string_of(&out)
}

/// The first line of `text` that is not blank, or empty.
pub open spec fn first_nonblank_line(ls: Seq<Seq<char>>) -> Seq<char>
    decreases ls.len(),
{
    if ls.len() == 0 {
        Seq::empty()
    } else if trim(ls[0]).len() != 0 {
        ls[0]
    } else {
        first_nonblank_line(ls.drop_first())
    }
}

fn first_nonblank(text: &[char]) -> (r: Vec<char>)
    ensures
        r@ == first_nonblank_line(lines(text@)),
{
    let ls = lines_of(text);
    let ghost lsv = seqs_of(ls@);
    let mut i: usize = 0;
    assert(lsv.skip(0) =~= lsv);
    while i < ls.len()
        invariant
            i <= ls.len(),
            lsv == seqs_of(ls@),
            lsv == lines(text@),
            first_nonblank_line(lsv.skip(i as int)) == first_nonblank_line(lsv),
        decreases ls.len() - i,
    {
        proof {
            assert(lsv.skip(i as int)[0] == lsv[i as int]);
            assert(lsv.skip(i as int).drop_first() =~= lsv.skip(i + 1));
        }
        let t = trim_chars(&ls[i]);
        if t.len() != 0 {
            return slice(&ls[i], 0, ls[i].len());
        }
        i = i + 1;
    }
    assert(lsv.skip(i as int) =~= Seq::<Seq<char>>::empty());
    Vec::new()
}

/// Opening of a compaction-continuation summary prompt.
pub open spec fn continuation_marker() -> Seq<char> {
    "This session is being continued"@
}

/// Picks the teaser among session prompts, continuing with `fallback`:
/// the first opening line that is not a continuation summary; failing that,
/// the first non-empty opening line.
pub open spec fn pick_prompt(prompts: Seq<Seq<char>>, fallback: Seq<char>) -> Seq<char>
    decreases prompts.len(),
{
    if prompts.len() == 0 {
        truncate_prompt_seq(fallback)
    } else {
        let first = first_nonblank_line(lines(prompts[0]));
        if first.len() == 0 {
            pick_prompt(prompts.drop_first(), fallback)
        } else {
            let fb = if fallback.len() == 0 {
                first
            } else {
                fallback
            };
            if !has_prefix(first, continuation_marker()) {
                truncate_prompt_seq(first)
            } else {
                pick_prompt(prompts.drop_first(), fb)
            }
        }
    }
}

/// The views of a slice of strings.
pub open spec fn string_views(v: Seq<String>) -> Seq<Seq<char>> {
    v.map_values(|s: String| s@)
}

/// One-line intent teaser from a checkpoint's session prompts, given in
/// session order (see `pick_prompt`).
pub fn checkpoint_prompt(prompts: &[String]) -> (r: String)
    ensures
        r@ == pick_prompt(string_views(prompts@), Seq::empty()),
{
    let ghost pv = string_views(prompts@);
    let marker = lit("This session is being continued");
    let mut fallback: Vec<char> = Vec::new();
    let mut i: usize = 0;
    assert(pv.skip(0) =~= pv);
    while i < prompts.len()
        invariant
            i <= prompts.len(),
            pv == string_views(prompts@),
            marker@ == continuation_marker(),
            pick_prompt(pv.skip(i as int), fallback@) == pick_prompt(pv, Seq::empty()),
        decreases prompts.len() - i,
    {
        proof {
            assert(pv.skip(i as int)[0] == prompts@[i as int]@);
            assert(pv.skip(i as int).drop_first() =~= pv.skip(i + 1));
        }
        let text = chars_of(prompts[i].as_str());
        let first = first_nonblank(&text);
        if first.len() == 0 {
            i = i + 1;
            continue;
        }
        if fallback.len() == 0 {
            fallback = slice(&first, 0, first.len());
            assert(fallback@ =~= first@);
        }
        if !starts_with(&first, &marker) {
            return truncate_prompt(string_of(&first).as_str());
        }
        i = i + 1;
    }
    assert(pv.skip(i as int) =~= Seq::<Seq<char>>::empty());
    truncate_prompt(string_of(&fallback).as_str())
}

// ---------------------------------------------------------------------------
// Keys, sources and sidecar lines

/// `.md` and `.toml` suffixes removed, as many times as they end the text.
pub open spec fn strip_md_toml(s: Seq<char>) -> Seq<char> {
    strip_suffix_all(strip_suffix_all(s, ".md"@), ".toml"@)
}

fn strip_md_toml_exec(s: &[char]) -> (r: Vec<char>)
    ensures
        r@ == strip_md_toml(s@),
{
    let a = trim_end_matches(s, &lit(".md"));
    trim_end_matches(&a, &lit(".toml"))
}

/// A skill companion key `skills/<Parent>/<Name>.md` whose stem is not
/// `SKILL`, as `(parent, name)`.
pub open spec fn companion_of_seq(key: Seq<char>) -> Option<(Seq<char>, Seq<char>)> {
    let segs = split_char(key, '/');
    if segs.len() != 3 || segs[0] != "skills"@ {
        None
    } else {
        let stem = strip_md_toml(segs[2]);
        if stem == "SKILL"@ {
            None
        } else {
            Some((segs[1], stem))
        }
    }
}

/// Detects a skill companion file (see `companion_of_seq`).
pub fn companion_of(relative_key: &str) -> (r: Option<(String, String)>)
    ensures
        match r {
            Some((p, n)) => companion_of_seq(relative_key@) == Some((p@, n@)),
            None => companion_of_seq(relative_key@) is None,
        },
{
    let key = chars_of(relative_key);
    let segs = split_on(&key, '/');
    proof {
        assert(seqs_of(segs@).len() == segs@.len());
    }
    if segs.len() != 3 {
        return None;
    }
    proof {
        assert(seqs_of(segs@)[0] == segs@[0]@);
        assert(seqs_of(segs@)[1] == segs@[1]@);
        assert(seqs_of(segs@)[2] == segs@[2]@);
    }
    if !eq(&segs[0], &lit("skills")) {
        return None;
    }
    let stem = strip_md_toml_exec(&segs[2]);
    if eq(&stem, &lit("SKILL")) {
        return None;
    }
    Some((string_of(&segs[1]), string_of(&stem)))
}

/// `(repo_url, "owner/repo")` for an `http(s)://host/owner/repo/...` URL;
/// `(source, source)` for anything else.
pub open spec fn shorten_source_seq(source: Seq<char>) -> (Seq<char>, Seq<char>) {
    let rest = if has_prefix(source, "https://"@) {
        Some(source.skip(8))
    } else if has_prefix(source, "http://"@) {
        Some(source.skip(7))
    } else {
        None
    };
    match rest {
        None => (source, source),
        Some(r) => {
            let segs = split_char(r, '/');
            if segs.len() < 3 {
                (source, source)
            } else {
                (
                    "https://"@ + segs[0] + seq!['/'] + segs[1] + seq!['/'] + segs[2],
                    segs[1] + seq!['/'] + segs[2],
                )
            }
        },
    }
}

/// Shortens a source URL to its repository URL and `owner/repo` label.
pub fn shorten_source(source: &str) -> (r: (String, String))
    ensures
        (r.0@, r.1@) == shorten_source_seq(source@),
{
    let s = chars_of(source);
    let https = lit("https://");
    let http = lit("http://");
    proof {
        reveal_strlit("https://");
        reveal_strlit("http://");
    }
    let rest = if starts_with(&s, &https) {
        slice(&s, 8, s.len())
    } else if starts_with(&s, &http) {
        slice(&s, 7, s.len())
    } else {
        return (String::from_str(source), String::from_str(source));
    };
    proof {
        if has_prefix(s@, "https://"@) {
            assert(rest@ =~= s@.skip(8));
        } else {
            assert(rest@ =~= s@.skip(7));
        }
    }
    let segs = split_on(&rest, '/');
    proof {
        assert(seqs_of(segs@).len() == segs@.len());
    }
    if segs.len() < 3 {
        return (String::from_str(source), String::from_str(source));
    }
    proof {
        assert(seqs_of(segs@)[0] == segs@[0]@);
        assert(seqs_of(segs@)[1] == segs@[1]@);
        assert(seqs_of(segs@)[2] == segs@[2]@);
    }
    let mut url = lit("https://");
    extend(&mut url, &segs[0]);
    url.push('/');
    extend(&mut url, &segs[1]);
    url.push('/');
    extend(&mut url, &segs[2]);
    let mut label = slice(&segs[1], 0, segs[1].len());
    label.push('/');
    extend(&mut label, &segs[2]);
    proof {
        assert(url@ =~= "https://"@ + segs@[0]@ + seq!['/'] + segs@[1]@ + seq!['/'] + segs@[2]@);
        assert(label@ =~= segs@[1]@ + seq!['/'] + segs@[2]@);
    }
    (string_of(&url), string_of(&label))
}

/// The sidecar line with its indentation and list markers removed.
pub open spec fn sidecar_line(line: Seq<char>) -> Seq<char> {
    strip_prefix_all(trim(line), "- "@)
}

/// The first sidecar line that starts with `key`, with the key removed.
pub open spec fn first_keyed(ls: Seq<Seq<char>>, key: Seq<char>) -> Option<Seq<char>>
    decreases ls.len(),
{
    if ls.len() == 0 {
        None
    } else if has_prefix(sidecar_line(ls[0]), key) {
        Some(sidecar_line(ls[0]).skip(key.len() as int))
    } else {
        first_keyed(ls.drop_first(), key)
    }
}

fn first_keyed_exec(text: &[char], key: &[char]) -> (r: Option<Vec<char>>)
    ensures
        match r {
            Some(v) => first_keyed(lines(text@), key@) == Some(v@),
            None => first_keyed(lines(text@), key@) is None,
        },
{
    let ls = lines_of(text);
    let ghost lsv = seqs_of(ls@);
    let dash = lit("- ");
    let mut i: usize = 0;
    assert(lsv.skip(0) =~= lsv);
    while i < ls.len()
        invariant
            i <= ls.len(),
            lsv == seqs_of(ls@),
            lsv == lines(text@),
            dash@ == "- "@,
            first_keyed(lsv.skip(i as int), key@) == first_keyed(lsv, key@),
        decreases ls.len() - i,
    {
        proof {
            assert(lsv[i as int] == ls@[i as int]@);
            assert(lsv.skip(i as int)[0] == lsv[i as int]);
            assert(lsv.skip(i as int).drop_first() =~= lsv.skip(i + 1));
        }
        let t = trim_chars(&ls[i]);
        let line = trim_start_matches(&t, &dash);
        match strip_prefix(&line, key) {
            Some(v) => {
                return Some(v);
            },
            None => {},
        }
        i = i + 1;
    }
    assert(lsv.skip(i as int) =~= Seq::<Seq<char>>::empty());
    None
}

/// The deployed artifact's canonical name from the first `uri:` line of its
/// sidecar: the file stem of the dependency path, or the skill directory
/// name when the file is `SKILL.md`.
pub open spec fn dependency_name_seq(sidecar: Seq<char>) -> Option<Seq<char>> {
    match first_keyed(lines(sidecar), "uri:"@) {
        None => None,
        Some(u) => {
            let path = trim(u);
            let segs = split_char(path, '/');
            let stem = strip_md_toml(segs.last());
            if stem == "SKILL"@ && segs.len() >= 3 {
                Some(segs[segs.len() - 2])
            } else {
                Some(stem)
            }
        },
    }
}

/// Canonical artifact name from a sidecar (see `dependency_name_seq`).
pub fn extract_dependency_uri(sidecar_content: &str) -> (r: Option<String>)
    ensures
        match r {
            Some(v) => dependency_name_seq(sidecar_content@) == Some(v@),
            None => dependency_name_seq(sidecar_content@) is None,
        },
{
    let text = chars_of(sidecar_content);
    let key = lit("uri:");
    match first_keyed_exec(&text, &key) {
        None => None,
        Some(u) => {
            let path = trim_chars(&u);
            let segs = split_on(&path, '/');
            let n = segs.len();
            proof {
                assert(seqs_of(segs@).len() == segs@.len());
                assert(seqs_of(segs@).last() == segs@[n - 1]@);
            }
            let stem = strip_md_toml_exec(&segs[n - 1]);
            if eq(&stem, &lit("SKILL")) && n >= 3 {
                proof {
                    assert(seqs_of(segs@)[n - 2] == segs@[n - 2]@);
                }
                Some(string_of(&segs[n - 2]))
            } else {
                Some(string_of(&stem))
            }
        },
    }
}

/// The first `source:` line of a sidecar (trimmed), with every leading
/// `source:` removed and the rest trimmed.
pub open spec fn source_uri_in(ls: Seq<Seq<char>>) -> Option<Seq<char>>
    decreases ls.len(),
{
    if ls.len() == 0 {
        None
    } else if has_prefix(trim(ls[0]), "source:"@) {
        Some(trim(strip_prefix_all(trim(ls[0]), "source:"@)))
    } else {
        source_uri_in(ls.drop_first())
    }
}

/// The source module URI recorded in a sidecar, if any.
pub fn extract_source_uri(sidecar_content: &str) -> (r: Option<String>)
    ensures
        match r {
            Some(v) => source_uri_in(lines(sidecar_content@)) == Some(v@),
            None => source_uri_in(lines(sidecar_content@)) is None,
        },
{
    let text = chars_of(sidecar_content);
    let ls = lines_of(&text);
    let ghost lsv = seqs_of(ls@);
    let key = lit("source:");
    let mut i: usize = 0;
    assert(lsv.skip(0) =~= lsv);
    while i < ls.len()
        invariant
            i <= ls.len(),
            lsv == seqs_of(ls@),
            lsv == lines(sidecar_content@),
            key@ == "source:"@,
            source_uri_in(lsv.skip(i as int)) == source_uri_in(lsv),
        decreases ls.len() - i,
    {
        proof {
            assert(lsv[i as int] == ls@[i as int]@);
            assert(lsv.skip(i as int)[0] == lsv[i as int]);
            assert(lsv.skip(i as int).drop_first() =~= lsv.skip(i + 1));
        }
        let t = trim_chars(&ls[i]);
        if starts_with(&t, &key) {
            let rest = trim_start_matches(&t, &key);
            return Some(string_of(&trim_chars(&rest)));
        }
        i = i + 1;
    }
    assert(lsv.skip(i as int) =~= Seq::<Seq<char>>::empty());
    None
}

/// The last `/`-separated segment of a source URI without `.git` suffixes.
pub open spec fn module_name_seq(source_uri: Seq<char>) -> Seq<char> {
    strip_suffix_all(split_char(source_uri, '/').last(), ".git"@)
}

/// Module name derived from its source URI.
pub fn module_name_from_source(source_uri: &str) -> (r: String)
    ensures
        r@ == module_name_seq(source_uri@),
{
    let s = chars_of(source_uri);
    let segs = split_on(&s, '/');
    let n = segs.len();
    proof {
        assert(seqs_of(segs@).len() == segs@.len());
        assert(seqs_of(segs@).last() == segs@[n - 1]@);
    }
    string_of(&trim_end_matches(&segs[n - 1], &lit(".git")))
}

/// A manifest key `<kind>/<name>[/...]` with kind `skills`, `agents` or
/// `rules`, as `(kind, name)` with `.md`/`.toml` removed from the name.
pub open spec fn artifact_key_seq(key: Seq<char>) -> Option<(Seq<char>, Seq<char>)> {
    let parts = split_char(key, '/');
    if parts.len() < 2 {
        None
    } else if parts[0] == "skills"@ || parts[0] == "agents"@ || parts[0] == "rules"@ {
        Some((parts[0], strip_md_toml(parts[1])))
    } else {
        None
    }
}

/// Parses a manifest key into kind and artifact name (see
/// `artifact_key_seq`).
pub fn parse_artifact_key(key: &str) -> (r: Option<(String, String)>)
    ensures
        match r {
            Some((k, n)) => artifact_key_seq(key@) == Some((k@, n@)),
            None => artifact_key_seq(key@) is None,
        },
{
    let s = chars_of(key);
    let parts = split_on(&s, '/');
    proof {
        assert(seqs_of(parts@).len() == parts@.len());
    }
    if parts.len() < 2 {
        return None;
    }
    proof {
        assert(seqs_of(parts@)[0] == parts@[0]@);
        assert(seqs_of(parts@)[1] == parts@[1]@);
    }
    if eq(&parts[0], &lit("skills")) || eq(&parts[0], &lit("agents")) || eq(
        &parts[0],
        &lit("rules"),
    ) {
        Some((string_of(&parts[0]), string_of(&strip_md_toml_exec(&parts[1]))))
    } else {
        None
    }
}

/// Piece `i` of `fields`, or empty when there are fewer pieces.
pub open spec fn field_or_empty(fields: Seq<Seq<char>>, i: int) -> Seq<char> {
    if 0 <= i < fields.len() {
        fields[i]
    } else {
        Seq::empty()
    }
}

/// One commit record of `git log` output: NUL-separated sha, subject, date,
/// author and checkpoint trailer; lines with an empty sha are skipped.
pub open spec fn commit_of(line: Seq<char>) -> Option<(Seq<char>, Seq<char>, Seq<char>, Seq<char>, Seq<char>)> {
    let f = split_char(line, '\0');
    if line.len() == 0 || f[0].len() == 0 {
        None
    } else {
        Some((f[0], field_or_empty(f, 1), field_or_empty(f, 2), field_or_empty(f, 3), trim(field_or_empty(f, 4))))
    }
}

/// The commit records of a list of `git log` lines, in order.
pub open spec fn commits_of(ls: Seq<Seq<char>>) -> Seq<(Seq<char>, Seq<char>, Seq<char>, Seq<char>, Seq<char>)>
    decreases ls.len(),
{
    if ls.len() == 0 {
        Seq::empty()
    } else {
        match commit_of(ls.last()) {
            Some(c) => commits_of(ls.drop_last()).push(c),
            None => commits_of(ls.drop_last()),
        }
    }
}

/// The fields of a parsed commit: sha, message, date, author, checkpoint.
pub open spec fn commit_fields(c: GitCommit) -> (Seq<char>, Seq<char>, Seq<char>, Seq<char>, Seq<char>) {
    (c.sha@, c.message@, c.date@, c.author@, c.checkpoint@)
}

fn piece_or_empty(f: &Vec<Vec<char>>, i: usize) -> (r: Vec<char>)
    ensures
        r@ == field_or_empty(seqs_of(f@), i as int),
{
    if i < f.len() {
        slice(&f[i], 0, f[i].len())
    } else {
        Vec::new()
    }
}

/// Parses `git log` records (see `commit_of`); the intent facets
/// (`prompt`, `session_count`) start empty.
pub fn parse_git_log(raw: &str) -> (r: Vec<GitCommit>)
    ensures
        r@.map_values(|c: GitCommit| commit_fields(c)) == commits_of(lines(raw@)),
        forall|i: int| 0 <= i < r@.len() ==> r@[i].prompt@.len() == 0 && r@[i].session_count == 0 && r@[i].jj_change@.len() == 0,
{
    let text = chars_of(raw);
    let ls = lines_of(&text);
    let ghost lsv = seqs_of(ls@);
    let mut out: Vec<GitCommit> = Vec::new();
    let mut i: usize = 0;
    while i < ls.len()
        invariant
            i <= ls.len(),
            lsv == seqs_of(ls@),
            out@.map_values(|c: GitCommit| commit_fields(c)) == commits_of(lsv.take(i as int)),
            forall|k: int| 0 <= k < out@.len() ==> out@[k].prompt@.len() == 0 && out@[k].session_count == 0 && out@[k].jj_change@.len() == 0,
        decreases ls.len() - i,
    {
        proof {
            assert(lsv[i as int] == ls@[i as int]@);
            assert(lsv.take(i + 1).drop_last() =~= lsv.take(i as int));
            assert(lsv.take(i + 1).last() == lsv[i as int]);
        }
        if ls[i].len() > 0 {
            let f = split_on(&ls[i], '\0');
            proof {
                assert(seqs_of(f@)[0] == f@[0]@);
            }
            if f[0].len() > 0 {
                let c = GitCommit {
                    sha: string_of(&f[0]),
                    message: string_of(&piece_or_empty(&f, 1)),
                    date: string_of(&piece_or_empty(&f, 2)),
                    author: string_of(&piece_or_empty(&f, 3)),
                    jj_change: String::new(),
                    checkpoint: string_of(&trim_chars(&piece_or_empty(&f, 4))),
                    prompt: String::new(),
                    session_count: 0,
                };
                let ghost before = out@;
                out.push(c);
                proof {
                    assert(out@.map_values(|c: GitCommit| commit_fields(c)) =~= before.map_values(
                        |c: GitCommit| commit_fields(c),
                    ).push(commit_fields(c)));
                }
            }
        }
        i = i + 1;
    }
    assert(lsv.take(ls.len() as int) =~= lsv);
    out
}

/// The entry names of a `git show <tree>/` listing: the header lines up to
/// the first blank line are skipped, and blank lines are dropped.
pub open spec fn tree_entries(ls: Seq<Seq<char>>, in_header: bool) -> Seq<Seq<char>>
    decreases ls.len(),
{
    if ls.len() == 0 {
        Seq::empty()
    } else if in_header && trim(ls[0]).len() != 0 {
        tree_entries(ls.drop_first(), true)
    } else if trim(ls[0]).len() == 0 {
        tree_entries(ls.drop_first(), false)
    } else {
        seq![ls[0]] + tree_entries(ls.drop_first(), false)
    }
}

/// Lists the entry names of a tree listing (see `tree_entries`).
pub fn tree_entry_names(listing: &str) -> (r: Vec<String>)
    ensures
        string_views(r@) == tree_entries(lines(listing@), true),
{
    let text = chars_of(listing);
    let ls = lines_of(&text);
    let ghost lsv = seqs_of(ls@);
    let mut out: Vec<String> = Vec::new();
    let mut header = true;
    let mut i: usize = 0;
    assert(lsv.skip(0) =~= lsv);
    assert(string_views(out@) =~= Seq::<Seq<char>>::empty());
    while i < ls.len()
        invariant
            i <= ls.len(),
            lsv == seqs_of(ls@),
            lsv == lines(listing@),
            string_views(out@) + tree_entries(lsv.skip(i as int), header) == tree_entries(
                lsv,
                true,
            ),
        decreases ls.len() - i,
    {
        proof {
            assert(lsv[i as int] == ls@[i as int]@);
            assert(lsv.skip(i as int)[0] == lsv[i as int]);
            assert(lsv.skip(i as int).drop_first() =~= lsv.skip(i + 1));
        }
        let t = trim_chars(&ls[i]);
        if t.len() == 0 {
            header = false;
        } else if !header {
            let ghost before = out@;
            out.push(string_of(&ls[i]));
            proof {
                assert(string_views(out@) =~= string_views(before).push(lsv[i as int]));
                assert(string_views(before).push(lsv[i as int]) + tree_entries(
                    lsv.skip(i + 1),
                    false,
                ) =~= string_views(before) + (seq![lsv[i as int]] + tree_entries(
                    lsv.skip(i + 1),
                    false,
                )));
            }
        }
        i = i + 1;
    }
    assert(lsv.skip(i as int) =~= Seq::<Seq<char>>::empty());
    assert(string_views(out@) + Seq::<Seq<char>>::empty() =~= string_views(out@));
    out
}

} // verus!
