//! YAML frontmatter fences: splitting a document into its frontmatter and
//! body, dropping a leading `# Title` heading, and reducing frontmatter to a
//! set of kept fields.

use vstd::prelude::*;
use crate::text::{trim, trim_start, trim_chars, trim_start_chars, lit, lemma_seqs_of_push, char_index, chars_of, eq_ignore_ascii_case, eq_ignore_case, extend, has_prefix, index_of_char_from, join, join_seqs, lines, lines_of, seqs_of, slice, starts_with, string_of};

verus! {

/// The opening fence line of a frontmatter block, with its newline.
pub open spec fn open_fence() -> Seq<char> {
    seq!['-', '-', '-', '\n']
}

/// The fence marker.
pub open spec fn dashes() -> Seq<char> {
    seq!['-', '-', '-']
}

/// A closing fence starts at index `i`: the newline ending the previous
/// line, then `---`, then a newline or the end of the document.
pub open spec fn closing_at(s: Seq<char>, i: int) -> bool {
    &&& 3 <= i
    &&& i + 4 <= s.len()
    &&& s[i] == '\n'
    &&& s.subrange(i + 1, i + 4) == dashes()
    &&& (i + 4 == s.len() || s[i + 4] == '\n')
}

/// The first closing fence.
pub open spec fn is_first_closing(s: Seq<char>, i: int) -> bool {
    closing_at(s, i) && forall|j: int| 3 <= j < i ==> !closing_at(s, j)
}

/// Splits `---\n<yaml>---\n<body>` into `(yaml, body)`. The document must
/// open with a `---` line; the frontmatter ends at the first following line
/// that is exactly `---`. The YAML keeps its final newline; the body starts
/// after the closing fence's newline.
pub open spec fn split_frontmatter_seq(s: Seq<char>) -> Option<(Seq<char>, Seq<char>)> {
    if has_prefix(s, open_fence()) && exists|i: int| is_first_closing(s, i) {
        let i = choose|i: int| is_first_closing(s, i);
        let yaml = if i >= 4 {
            s.subrange(4, i + 1)
        } else {
            Seq::<char>::empty()
        };
        let body = if i + 5 <= s.len() {
            s.skip(i + 5)
        } else {
            Seq::<char>::empty()
        };
        Some((yaml, body))
    } else {
        None
    }
}

proof fn lemma_first_closing_unique(s: Seq<char>, i: int, k: int)
    requires
        is_first_closing(s, i),
        is_first_closing(s, k),
    ensures
        i == k,
{
}

fn closing_fence_at(s: &[char], i: usize) -> (b: bool)
    ensures
        b == closing_at(s@, i as int),
{
    if i < 3 || i > s.len() || s.len() - i < 4 {
        return false;
    }
    let b = s[i] == '\n' && s[i + 1] == '-' && s[i + 2] == '-' && s[i + 3] == '-' && (i + 4
        == s.len() || s[i + 4] == '\n');
    proof {
        if b {
            assert(s@.subrange(i + 1, i + 4) =~= dashes());
        } else if s@[i as int] == '\n' && (i + 4 == s.len() || s@[i + 4] == '\n') {
            let sub = s@.subrange(i + 1, i + 4);
            assert(sub[0] == s@[i + 1] && sub[1] == s@[i + 2] && sub[2] == s@[i + 3]);
        }
    }
    b
}

/// Splits a document into frontmatter YAML and body (see
/// `split_frontmatter_seq`).
pub fn split_frontmatter(s: &[char]) -> (r: Option<(Vec<char>, Vec<char>)>)
    ensures
        match r {
            Some((y, b)) => split_frontmatter_seq(s@) == Some((y@, b@)),
            None => split_frontmatter_seq(s@) is None,
        },
{
    let fence = vec!['-', '-', '-', '\n'];
    assert(fence@ =~= open_fence());
    if !starts_with(s, &fence) {
        return None;
    }
    let mut i: usize = 3;
    while i < s.len()
        invariant
            3 <= i <= s.len(),
            has_prefix(s@, open_fence()),
            forall|j: int| 3 <= j < i ==> !closing_at(s@, j),
        decreases s.len() - i,
    {
        if closing_fence_at(s, i) {
            proof {
                assert(is_first_closing(s@, i as int));
                let k = choose|k: int| is_first_closing(s@, k);
                lemma_first_closing_unique(s@, i as int, k);
            }
            let yaml = if i >= 4 {
                slice(s, 4, i + 1)
            } else {
                Vec::new()
            };
            let body = if s.len() - i >= 5 {
                slice(s, i + 5, s.len())
            } else {
                Vec::new()
            };
            proof {
                if i + 5 <= s.len() {
                    assert(body@ =~= s@.skip(i + 5));
                } else {
                    assert(body@ =~= Seq::<char>::empty());
                }
                if i < 4 {
                    assert(yaml@ =~= Seq::<char>::empty());
                }
            }
            return Some((yaml, body));
        }
        i = i + 1;
    }
    proof {
        assert forall|j: int| !is_first_closing(s@, j) by {
            if is_first_closing(s@, j) {
                assert(j < s@.len());
            }
        }
    }
    None
}

// ---------------------------------------------------------------------------
// Leading heading

/// Index of the first non-empty line, or `ls.len()`.
pub open spec fn first_nonempty(ls: Seq<Seq<char>>) -> int
    decreases ls.len(),
{
    if ls.len() == 0 {
        0
    } else if ls[0].len() != 0 {
        0
    } else {
        1 + first_nonempty(ls.drop_first())
    }
}

proof fn lemma_first_nonempty_is(ls: Seq<Seq<char>>, k: int)
    requires
        0 <= k <= ls.len(),
        forall|j: int| 0 <= j < k ==> ls[j].len() == 0,
        k < ls.len() ==> ls[k].len() != 0,
    ensures
        first_nonempty(ls) == k,
    decreases k,
{
    if k > 0 {
        let t = ls.drop_first();
        assert forall|j: int| 0 <= j < k - 1 implies t[j].len() == 0 by {
            assert(t[j] == ls[j + 1]);
        }
        if k - 1 < t.len() {
            assert(t[k - 1] == ls[k]);
        }
        lemma_first_nonempty_is(t, k - 1);
    }
}

/// `n` newline characters.
pub open spec fn newlines(n: nat) -> Seq<char> {
    Seq::new(n, |_i: int| '\n')
}

/// The heading marker `# `.
pub open spec fn heading_marker() -> Seq<char> {
    seq!['#', ' ']
}

/// Drops a leading `# Title` line when it is the first non-empty line, along
/// with the blank lines before it and one blank line after it. Otherwise the
/// text is returned line by line, rejoined with `\n`.
pub open spec fn strip_heading_seq(text: Seq<char>) -> Seq<char> {
    let ls = lines(text);
    let k = first_nonempty(ls);
    let nl = seq!['\n'];
    if k >= ls.len() {
        join_seqs(ls, nl)
    } else if has_prefix(ls[k], heading_marker()) {
        let rest = join_seqs(ls.skip(k + 1), nl);
        if rest.len() > 0 && rest[0] == '\n' {
            rest.drop_first()
        } else {
            rest
        }
    } else {
        newlines(k as nat) + join_seqs(ls.skip(k), nl)
    }
}

/// Drops a leading `# Title` heading (see `strip_heading_seq`).
pub fn strip_heading(text: &[char]) -> (r: Vec<char>)
    ensures
        r@ == strip_heading_seq(text@),
{
    let ls = lines_of(text);
    let ghost lsv = seqs_of(ls@);
    let mut k: usize = 0;
    while k < ls.len() && ls[k].len() == 0
        invariant
            k <= ls.len(),
            lsv == seqs_of(ls@),
            forall|j: int| 0 <= j < k ==> lsv[j].len() == 0,
        decreases ls.len() - k,
    {
        k = k + 1;
    }
    proof {
        lemma_first_nonempty_is(lsv, k as int);
    }
    let nl = vec!['\n'];
    assert(nl@ =~= seq!['\n']);
    if k >= ls.len() {
        return join(&ls, &nl);
    }
    let marker = vec!['#', ' '];
    assert(marker@ =~= heading_marker());
    let mut tail: Vec<Vec<char>> = Vec::new();
    let mut m: usize = if starts_with(&ls[k], &marker) {
        k + 1
    } else {
        k
    };
    let start = m;
    while m < ls.len()
        invariant
            start <= m <= ls.len(),
            lsv == seqs_of(ls@),
            seqs_of(tail@) == lsv.subrange(start as int, m as int),
        decreases ls.len() - m,
    {
        let piece = slice(&ls[m], 0, ls[m].len());
        assert(piece@ =~= lsv[m as int]);
        proof {
            lemma_seqs_of_push(tail@, piece);
        }
        tail.push(piece);
        m = m + 1;
        assert(seqs_of(tail@) =~= lsv.subrange(start as int, m as int));
    }
    assert(lsv.subrange(start as int, ls.len() as int) =~= lsv.skip(start as int));
    let rest = join(&tail, &nl);
    if start == k + 1 {
        if rest.len() > 0 && rest[0] == '\n' {
            let r = slice(&rest, 1, rest.len());
            assert(r@ =~= rest@.drop_first());
            r
        } else {
            rest
        }
    } else {
        let mut out: Vec<char> = Vec::new();
        let mut j: usize = 0;
        while j < k
            invariant
                j <= k,
                out@ == newlines(j as nat),
            decreases k - j,
        {
            out.push('\n');
            j = j + 1;
            assert(out@ =~= newlines(j as nat));
        }
        extend(&mut out, &rest);
        out
    }
}

// ---------------------------------------------------------------------------
// Keeping selected fields

/// Characters allowed in a frontmatter key: ASCII letters and digits, `_`,
/// `-` and `.`.
pub open spec fn key_char(c: char) -> bool {
    ('a' <= c <= 'z') || ('A' <= c <= 'Z') || ('0' <= c <= '9') || c == '_' || c == '-' || c
        == '.'
}

/// Every character of `k` is a key character.
pub open spec fn valid_key(k: Seq<char>) -> bool {
    forall|i: int| 0 <= i < k.len() ==> key_char(#[trigger] k[i])
}

/// A YAML line survives field reduction: it has a `:`, the text before it
/// is a valid key, and that key equals one of `fields` ignoring ASCII case.
pub open spec fn line_kept(line: Seq<char>, fields: Seq<Seq<char>>) -> bool {
    let ci = char_index(line, ':');
    &&& ci < line.len()
    &&& valid_key(line.take(ci))
    &&& exists|j: int| 0 <= j < fields.len() && eq_ignore_case(line.take(ci), #[trigger] fields[j])
}

/// The lines of `ls` that survive field reduction, in order.
pub open spec fn kept_lines(ls: Seq<Seq<char>>, fields: Seq<Seq<char>>) -> Seq<Seq<char>>
    decreases ls.len(),
{
    if ls.len() == 0 {
        Seq::empty()
    } else if line_kept(ls.last(), fields) {
        kept_lines(ls.drop_last(), fields).push(ls.last())
    } else {
        kept_lines(ls.drop_last(), fields)
    }
}

/// Each line followed by a newline.
pub open spec fn terminated(ls: Seq<Seq<char>>) -> Seq<char>
    decreases ls.len(),
{
    if ls.len() == 0 {
        Seq::empty()
    } else {
        terminated(ls.drop_last()) + ls.last() + seq!['\n']
    }
}

/// Frontmatter reduced to the fields in `fields`: with no fields, or no
/// surviving line, only the body remains; otherwise the surviving lines are
/// kept between fences. In every case the body loses a leading heading, and
/// a document without frontmatter only loses its heading.
pub open spec fn strip_frontmatter_seq(content: Seq<char>, fields: Seq<Seq<char>>) -> Seq<char> {
    match split_frontmatter_seq(content) {
        None => strip_heading_seq(content),
        Some((yaml, body)) => {
            let kept = kept_lines(lines(yaml), fields);
            if fields.len() == 0 || kept.len() == 0 {
                strip_heading_seq(body)
            } else {
                open_fence() + terminated(kept) + open_fence() + strip_heading_seq(body)
            }
        },
    }
}

/// The views of a slice of string slices.
pub open spec fn str_views(v: Seq<&str>) -> Seq<Seq<char>> {
    v.map_values(|f: &str| f@)
}

fn is_key_char(c: char) -> (b: bool)
    ensures
        b == key_char(c),
{
    ('a' <= c && c <= 'z') || ('A' <= c && c <= 'Z') || ('0' <= c && c <= '9') || c == '_' || c
        == '-' || c == '.'
}

fn keeps_line(line: &[char], fields: &Vec<Vec<char>>) -> (b: bool)
    ensures
        b == line_kept(line@, seqs_of(fields@)),
{
    let ci = index_of_char_from(line, ':', 0);
    assert(line@.skip(0) =~= line@);
    if ci >= line.len() {
        return false;
    }
    let key = slice(line, 0, ci);
    assert(key@ =~= line@.take(ci as int));
    let mut i: usize = 0;
    while i < key.len()
        invariant
            i <= key.len(),
            key@ == line@.take(ci as int),
            char_index(line@, ':') == ci,
            forall|j: int| 0 <= j < i ==> key_char(#[trigger] key@[j]),
        decreases key.len() - i,
    {
        if !is_key_char(key[i]) {
            assert(!key_char(key@[i as int]));
            assert(!valid_key(line@.take(ci as int)));
            return false;
        }
        i = i + 1;
    }
    assert(valid_key(key@));
    let ghost fv = seqs_of(fields@);
    let mut f: usize = 0;
    while f < fields.len()
        invariant
            f <= fields.len(),
            fv == seqs_of(fields@),
            key@ == line@.take(ci as int),
            char_index(line@, ':') == ci,
            ci < line@.len(),
            valid_key(line@.take(ci as int)),
            forall|j: int| 0 <= j < f ==> !eq_ignore_case(key@, #[trigger] fv[j]),
        decreases fields.len() - f,
    {
        if eq_ignore_ascii_case(&key, &fields[f]) {
            assert(fv[f as int] == fields@[f as int]@);
            assert(eq_ignore_case(line@.take(ci as int), fv[f as int]));
            return true;
        }
        f = f + 1;
    }
    false
}

/// Reduces frontmatter to the fields listed in `keep_fields` and strips a
/// leading `# Title` heading from the body (see `strip_frontmatter_seq`).
pub fn strip_frontmatter(content: &str, keep_fields: &[&str]) -> (r: String)
    ensures
        r@ == strip_frontmatter_seq(content@, str_views(keep_fields@)),
{
    let text = chars_of(content);
    let mut fields: Vec<Vec<char>> = Vec::new();
    let mut i: usize = 0;
    while i < keep_fields.len()
        invariant
            i <= keep_fields.len(),
            seqs_of(fields@) == str_views(keep_fields@).take(i as int),
        decreases keep_fields.len() - i,
    {
        let fc = chars_of(keep_fields[i]);
        assert(str_views(keep_fields@)[i as int] == keep_fields@[i as int]@);
        proof {
            lemma_seqs_of_push(fields@, fc);
        }
        fields.push(fc);
        i = i + 1;
        assert(seqs_of(fields@) =~= str_views(keep_fields@).take(i as int));
    }
    assert(str_views(keep_fields@).take(keep_fields.len() as int) =~= str_views(keep_fields@));
    match split_frontmatter(&text) {
        None => string_of(&strip_heading(&text)),
        Some((yaml, body)) => {
            let stripped_body = strip_heading(&body);
            if fields.len() == 0 {
                return string_of(&stripped_body);
            }
            let ls = lines_of(&yaml);
            let ghost lsv = seqs_of(ls@);
            let mut kept: Vec<char> = Vec::new();
            let mut any = false;
            let mut j: usize = 0;
            while j < ls.len()
                invariant
                    j <= ls.len(),
                    lsv == seqs_of(ls@),
                    kept@ == terminated(kept_lines(lsv.take(j as int), seqs_of(fields@))),
                    any == (kept_lines(lsv.take(j as int), seqs_of(fields@)).len() > 0),
                decreases ls.len() - j,
            {
                proof {
                    assert(lsv.take(j + 1).drop_last() =~= lsv.take(j as int));
                    assert(lsv.take(j + 1).last() == lsv[j as int]);
                }
                let ghost kl = kept_lines(lsv.take(j as int), seqs_of(fields@));
                if keeps_line(&ls[j], &fields) {
                    extend(&mut kept, &ls[j]);
                    kept.push('\n');
                    any = true;
                    proof {
                        assert(kl.push(lsv[j as int]).drop_last() =~= kl);
                        assert(kl.push(lsv[j as int]).last() == lsv[j as int]);
                        assert(kept@ =~= terminated(kl) + lsv[j as int] + seq!['\n']);
                    }
                }
                j = j + 1;
            }
            assert(lsv.take(ls.len() as int) =~= lsv);
            if !any {
                return string_of(&stripped_body);
            }
            let mut out = vec!['-', '-', '-', '\n'];
            extend(&mut out, &kept);
            extend(&mut out, &vec!['-', '-', '-', '\n']);
            extend(&mut out, &stripped_body);
            assert(out@ =~= open_fence() + kept@ + open_fence() + stripped_body@);
            string_of(&out)
        },
    }
}

// ---------------------------------------------------------------------------
// Replacing one field's value

/// The key of a YAML line: the text before its first `:`, trimmed.
pub open spec fn line_key(line: Seq<char>) -> Option<Seq<char>> {
    let ci = char_index(line, ':');
    if ci < line.len() {
        Some(trim(line.take(ci)))
    } else {
        None
    }
}

/// The line's key is `field`, ignoring ASCII case.
pub open spec fn has_field(line: Seq<char>, field: Seq<char>) -> bool {
    match line_key(line) {
        Some(k) => eq_ignore_case(k, field),
        None => false,
    }
}

/// Index of the first line whose key is `field`, or `ls.len()`.
pub open spec fn field_line(ls: Seq<Seq<char>>, field: Seq<char>) -> int
    decreases ls.len(),
{
    if ls.len() == 0 {
        0
    } else if has_field(ls[0], field) {
        0
    } else {
        1 + field_line(ls.drop_first(), field)
    }
}

/// The text after the line's first `:`.
pub open spec fn after_colon(line: Seq<char>) -> Seq<char> {
    line.skip(char_index(line, ':') + 1)
}

/// The value of a field line: the text after the colon, trimmed.
pub open spec fn field_value(line: Seq<char>) -> Seq<char> {
    trim(after_colon(line))
}

/// The white space between the colon and the value, or one space when
/// there is none.
pub open spec fn field_spacing(line: Seq<char>) -> Seq<char> {
    let a = after_colon(line);
    let sp = a.take(a.len() - trim_start(a).len());
    if sp.len() == 0 {
        seq![' ']
    } else {
        sp
    }
}

/// The field line with its value replaced by `value`.
pub open spec fn replaced_line(line: Seq<char>, value: Seq<char>) -> Seq<char> {
    line.take(char_index(line, ':') + 1) + field_spacing(line) + value
}

/// Where the field is: the frontmatter lines, the body, and the index of
/// the line holding the field; `None` when the document has no frontmatter
/// or no such line.
pub open spec fn field_location(content: Seq<char>, field: Seq<char>) -> Option<(Seq<Seq<char>>, Seq<char>, int)> {
    match split_frontmatter_seq(content) {
        None => None,
        Some((yaml, body)) => {
            let ls = lines(yaml);
            let k = field_line(ls, field);
            if k < ls.len() {
                Some((ls, body, k))
            } else {
                None
            }
        },
    }
}

/// The document with line `k` of its frontmatter holding `value`; the other
/// lines, in order, each end with a newline between the fences.
pub open spec fn with_field(ls: Seq<Seq<char>>, body: Seq<char>, k: int, value: Seq<char>) -> Seq<char> {
    open_fence() + terminated(ls.update(k, replaced_line(ls[k], value))) + open_fence() + body
}

proof fn lemma_field_line(ls: Seq<Seq<char>>, field: Seq<char>)
    ensures
        0 <= field_line(ls, field) <= ls.len(),
        forall|j: int| 0 <= j < field_line(ls, field) ==> !has_field(#[trigger] ls[j], field),
        field_line(ls, field) < ls.len() ==> has_field(ls[field_line(ls, field)], field),
    decreases ls.len(),
{
    if ls.len() > 0 && !has_field(ls[0], field) {
        lemma_field_line(ls.drop_first(), field);
        assert forall|j: int| 0 <= j < field_line(ls, field) implies !has_field(
            #[trigger] ls[j],
            field,
        ) by {
            if j > 0 {
                assert(ls[j] == ls.drop_first()[j - 1]);
            }
        }
    }
}

/// Replaces the value of one frontmatter field with what `mapper` makes of
/// it, keeping comments, order and the spacing after the colon. The key is
/// matched ignoring ASCII case; only its first line changes. A document
/// without frontmatter or without the field comes back unchanged.
pub fn map_field<F: Fn(&str) -> String>(content: &str, target_field: &str, mapper: F) -> (r: String)
    requires
        forall|v: &str| #[trigger] call_requires(mapper, (v,)),
    ensures
        match field_location(content@, target_field@) {
            None => r@ == content@,
            Some((ls, body, k)) => exists|v: &str, m: String|
                v@ == field_value(ls[k]) && call_ensures(mapper, (v,), m) && r@ == with_field(
                    ls,
                    body,
                    k,
                    m@,
                ),
        },
{
    let text = chars_of(content);
    let field = chars_of(target_field);
    match split_frontmatter(&text) {
        None => String::from_str(content),
        Some((yaml, body)) => {
            let ls = lines_of(&yaml);
            let ghost lsv = seqs_of(ls@);
            proof {
                lemma_field_line(lsv, target_field@);
            }
            let mut k: usize = 0;
            let mut found = false;
            while k < ls.len() && !found
                invariant
                    k <= ls.len(),
                    lsv == seqs_of(ls@),
                    field@ == target_field@,
                    forall|j: int| 0 <= j < k ==> !has_field(#[trigger] lsv[j], target_field@),
                    found ==> k < ls.len() && has_field(lsv[k as int], target_field@),
                decreases ls.len() - k, (if found { 0int } else { 1int }),
            {
                let line = &ls[k];
                let ci = index_of_char_from(line, ':', 0);
                assert(line@.skip(0) =~= line@);
                assert(lsv[k as int] == line@);
                if ci < line.len() {
                    let head = slice(line, 0, ci);
                    assert(head@ =~= line@.take(ci as int));
                    let key = trim_chars(&head);
                    if eq_ignore_ascii_case(&key, &field) {
                        found = true;
                    }
                }
                if !found {
                    k = k + 1;
                }
            }
            if !found {
                proof {
                    assert(field_line(lsv, target_field@) == lsv.len());
                }
                return String::from_str(content);
            }
            assert(field_line(lsv, target_field@) == k);
            let line = &ls[k];
            let ci = index_of_char_from(line, ':', 0);
            assert(line@.skip(0) =~= line@);
            let after = slice(line, ci + 1, line.len());
            assert(after@ =~= line@.skip(ci + 1));
            let value = string_of(&trim_chars(&after));
            let mut w: usize = 0;
            while w < after.len() && crate::text::is_whitespace(after[w])
                invariant
                    w <= after.len(),
                    forall|j: int| 0 <= j < w ==> crate::text::is_ws(after@[j]),
                decreases after.len() - w,
            {
                w = w + 1;
            }
            proof {
                crate::text::lemma_trim_start_by(after@, |c: char| crate::text::is_ws(c), w as int);
            }
            let mut spacing = slice(&after, 0, w);
            assert(spacing@ =~= after@.take(after@.len() - trim_start(after@).len()));
            if spacing.len() == 0 {
                spacing.push(' ');
                assert(spacing@ =~= seq![' ']);
            }
            let mapped = mapper(value.as_str());
            let mut new_line = slice(line, 0, ci + 1);
            assert(new_line@ =~= line@.take(ci + 1));
            extend(&mut new_line, &spacing);
            extend(&mut new_line, &chars_of(mapped.as_str()));
            let ghost updated = lsv.update(k as int, new_line@);
            assert(new_line@ == replaced_line(lsv[k as int], mapped@));
            let mut out = vec!['-', '-', '-', '\n'];
            assert(out@ =~= open_fence());
            let mut j: usize = 0;
            while j < ls.len()
                invariant
                    j <= ls.len(),
                    lsv == seqs_of(ls@),
                    k < ls.len(),
                    updated == lsv.update(k as int, new_line@),
                    out@ == open_fence() + terminated(updated.take(j as int)),
                decreases ls.len() - j,
            {
                proof {
                    assert(updated.take(j + 1).drop_last() =~= updated.take(j as int));
                    assert(updated.take(j + 1).last() == updated[j as int]);
                }
                if j == k {
                    extend(&mut out, &new_line);
                } else {
                    assert(updated[j as int] == ls@[j as int]@);
                    extend(&mut out, &ls[j]);
                }
                out.push('\n');
                proof {
                    assert(out@ =~= open_fence() + terminated(updated.take(j + 1)));
                }
                j = j + 1;
            }
            assert(updated.take(ls.len() as int) =~= updated);
            extend(&mut out, &vec!['-', '-', '-', '\n']);
            extend(&mut out, &body);
            let r = string_of(&out);
            assert(r@ =~= with_field(lsv, body@, k as int, mapped@));
            r
        },
    }
}

/// Field reduction keeps only listed fields: every kept line is a line of
/// the block, has a `:`, and its key (the text before the first `:`) equals
/// one of `fields` ignoring ASCII case; and every line whose key is a valid
/// key equal to a listed field is kept.
pub proof fn lemma_reduction_keeps_only_listed_fields(ls: Seq<Seq<char>>, fields: Seq<Seq<char>>)
    ensures
        forall|k: int|
            0 <= k < kept_lines(ls, fields).len() ==> {
                let l = #[trigger] kept_lines(ls, fields)[k];
                &&& ls.contains(l)
                &&& l.contains(':')
                &&& exists|j: int| 0 <= j < fields.len() && eq_ignore_case(l.take(char_index(l, ':')), #[trigger] fields[j])
            },
        forall|i: int|
            0 <= i < ls.len() && ls[i].contains(':') && valid_key(ls[i].take(char_index(ls[i], ':')))
                && (exists|j: int| 0 <= j < fields.len() && eq_ignore_case(ls[i].take(char_index(ls[i], ':')), #[trigger] fields[j]))
                ==> kept_lines(ls, fields).contains(#[trigger] ls[i]),
    decreases ls.len(),
{
    if ls.len() > 0 {
        lemma_reduction_keeps_only_listed_fields(ls.drop_last(), fields);
        let prev = kept_lines(ls.drop_last(), fields);
        let cur = kept_lines(ls, fields);
        crate::text::lemma_char_index(ls.last(), ':');
        assert forall|k: int| 0 <= k < cur.len() implies {
            let l = #[trigger] cur[k];
            &&& ls.contains(l)
            &&& l.contains(':')
            &&& exists|j: int| 0 <= j < fields.len() && eq_ignore_case(l.take(char_index(l, ':')), #[trigger] fields[j])
        } by {
            if k < prev.len() {
                assert(cur[k] == prev[k]);
                let l = prev[k];
                assert(ls.drop_last().contains(l));
                let x = choose|x: int| 0 <= x < ls.drop_last().len() && ls.drop_last()[x] == l;
                assert(ls[x] == l);
            } else {
                assert(cur[k] == ls.last());
                assert(ls[ls.len() - 1] == ls.last());
                crate::text::lemma_char_index(ls.last(), ':');
                assert(ls.last()[char_index(ls.last(), ':')] == ':');
            }
        }
        assert forall|i: int|
            0 <= i < ls.len() && ls[i].contains(':') && valid_key(ls[i].take(char_index(ls[i], ':')))
                && (exists|j: int| 0 <= j < fields.len() && eq_ignore_case(ls[i].take(char_index(ls[i], ':')), #[trigger] fields[j]))
            implies cur.contains(#[trigger] ls[i]) by {
            if i < ls.len() - 1 {
                assert(ls.drop_last()[i] == ls[i]);
                assert(prev.contains(ls[i]));
                let x = choose|x: int| 0 <= x < prev.len() && prev[x] == ls[i];
                assert(cur[x] == prev[x]);
            } else {
                crate::text::lemma_char_index(ls[i], ':');
                assert(line_kept(ls.last(), fields));
                assert(cur[cur.len() - 1] == ls.last());
            }
        }
    }
}

} // verus!
