//! Intra-repository link references of a markdown source: code is removed
//! first, inline `](target)` and reference-style `[label]: target` targets
//! are extracted, and only relative, path-shaped targets are kept,
//! percent-decoded and without repeats. Whether a candidate resolves on disk
//! is decided by the caller; `broken_references` keeps those that do not.

use vstd::prelude::*;
use vstd::utf8::{decode_utf8, valid_utf8};
use crate::text::{
    chars_of, contains_char, has_prefix, index_of_char_from, lines, lines_of, lit, seqs_of,
    slice, starts_with, string_of, char_index, trim_start, trim_start_chars, extend,
};
use crate::paths::{file_name, name_extension, path_file_name, extension_of};
use crate::order::views;

verus! {

// ---------------------------------------------------------------------------
// Removing code

/// An odd number of backticks occurs in `s`.
pub open spec fn odd_ticks(s: Seq<char>) -> bool
    decreases s.len(),
{
    if s.len() == 0 {
        false
    } else if s.last() == '`' {
        !odd_ticks(s.drop_last())
    } else {
        odd_ticks(s.drop_last())
    }
}

/// The text of a line outside inline code spans: the backtick-separated
/// pieces at even positions, joined.
pub open spec fn outside_ticks(s: Seq<char>) -> Seq<char>
    decreases s.len(),
{
    if s.len() == 0 {
        Seq::empty()
    } else {
        let prev = outside_ticks(s.drop_last());
        if s.last() == '`' || odd_ticks(s.drop_last()) {
            prev
        } else {
            prev.push(s.last())
        }
    }
}

/// Drops backtick-delimited inline code from a line (see `outside_ticks`).
pub fn strip_inline_code(line: &[char]) -> (r: Vec<char>)
    ensures
        r@ == outside_ticks(line@),
{
    let mut r: Vec<char> = Vec::new();
    let mut inside = false;
    let mut i: usize = 0;
    while i < line.len()
        invariant
            i <= line.len(),
            r@ == outside_ticks(line@.take(i as int)),
            inside == odd_ticks(line@.take(i as int)),
        decreases line.len() - i,
    {
        proof {
            assert(line@.take(i + 1).drop_last() =~= line@.take(i as int));
            assert(line@.take(i + 1).last() == line@[i as int]);
        }
        let c = line[i];
        if c == '`' {
            inside = !inside;
        } else if !inside {
            r.push(c);
        }
        i = i + 1;
    }
    assert(line@.take(line.len() as int) =~= line@);
    r
}

/// A line that opens or closes a fenced code block.
pub open spec fn is_fence(line: Seq<char>) -> bool {
    has_prefix(trim_start(line), "```"@)
}

/// Whether a fence is open after `ls`, and the text kept so far: each line
/// outside fences without its inline code, followed by a newline.
pub open spec fn code_state(ls: Seq<Seq<char>>) -> (bool, Seq<char>)
    decreases ls.len(),
{
    if ls.len() == 0 {
        (false, Seq::empty())
    } else {
        let (fenced, out) = code_state(ls.drop_last());
        let l = ls.last();
        if is_fence(l) {
            (!fenced, out)
        } else if fenced {
            (fenced, out)
        } else {
            (fenced, out + outside_ticks(l) + seq!['\n'])
        }
    }
}

/// The text with fenced code blocks and inline code spans removed.
pub open spec fn strip_code_seq(text: Seq<char>) -> Seq<char> {
    code_state(lines(text)).1
}

/// Removes fenced code blocks and inline code spans, so that example link
/// syntax in documentation is not taken for a reference.
pub fn strip_code(text: &str) -> (r: String)
    ensures
        r@ == strip_code_seq(text@),
{
    let ls = lines_of(&chars_of(text));
    let ghost sl = seqs_of(ls@);
    let mut out: Vec<char> = Vec::new();
    let mut in_fence = false;
    let mut i: usize = 0;
    let fence = lit("```");
    while i < ls.len()
        invariant
            i <= ls.len(),
            sl == seqs_of(ls@),
            fence@ == "```"@,
            (in_fence, out@) == code_state(sl.take(i as int)),
        decreases ls.len() - i,
    {
        proof {
            assert(sl.take(i + 1).drop_last() =~= sl.take(i as int));
            assert(sl.take(i + 1).last() == ls@[i as int]@);
        }
        let trimmed = trim_start_chars(&ls[i]);
        if starts_with(&trimmed, &fence) {
            in_fence = !in_fence;
        } else if !in_fence {
            let kept = strip_inline_code(&ls[i]);
            extend(&mut out, &kept);
            out.push('\n');
        }
        i = i + 1;
    }
    assert(sl.take(ls.len() as int) =~= sl);
    string_of(&out)
}

// ---------------------------------------------------------------------------
// Link targets

/// The text of capture group 1 of each successive match of `pattern` in
/// `text` (empty where the group took no part), as the `regex` crate finds
/// them; `None` when the pattern does not compile.
pub uninterp spec fn regex_group_one(pattern: Seq<char>, text: Seq<char>) -> Option<Seq<Seq<char>>>;

/// Runs a regular expression through `regex::Regex::new` and
/// `Regex::captures_iter`, collecting capture group 1 of each match.
///
/// Trusted: the result is `regex_group_one` of the pattern and text.
#[verifier::external_body]
fn first_groups(pattern: &str, text: &str) -> (r: Option<Vec<String>>)
    ensures
        match r {
            Some(v) => regex_group_one(pattern@, text@) == Some(views(v@)),
            None => regex_group_one(pattern@, text@) is None,
        },
{
    let re = regex::Regex::new(pattern).ok()?;
    Some(
        re.captures_iter(text).map(
            |c| c.get(1).map_or_else(String::new, |m| m.as_str().to_string()),
        ).collect(),
    )
}

/// The inline link pattern: `](target)` with a target free of `)` and
/// white space.
pub open spec fn inline_link_pattern() -> Seq<char> {
    "\\]\\(([^)\\s]+)\\)"@
}

/// The reference definition pattern: `[label]: target` at a line start.
pub open spec fn reference_definition_pattern() -> Seq<char> {
    "(?m)^\\[[^\\]]+\\]:\\s*(\\S+)"@
}

/// The groups found, or none when the pattern does not compile.
pub open spec fn groups_or_empty(g: Option<Seq<Seq<char>>>) -> Seq<Seq<char>> {
    match g {
        Some(v) => v,
        None => Seq::empty(),
    }
}

/// The inline link targets of `text`, then its reference definitions.
pub open spec fn link_targets_seq(text: Seq<char>) -> Seq<Seq<char>> {
    groups_or_empty(regex_group_one(inline_link_pattern(), text)) + groups_or_empty(
        regex_group_one(reference_definition_pattern(), text),
    )
}

/// Inline `](target)` and reference-style `[label]: target` link targets,
/// in that order (see `link_targets_seq`).
pub fn link_targets(text: &str) -> (r: Vec<String>)
    ensures
        views(r@) == link_targets_seq(text@),
{
    let inline_pattern = "\\]\\(([^)\\s]+)\\)";
    let definition_pattern = "(?m)^\\[[^\\]]+\\]:\\s*(\\S+)";
    let mut r = match first_groups(inline_pattern, text) {
        Some(v) => v,
        None => Vec::new(),
    };
    let mut more = match first_groups(definition_pattern, text) {
        Some(v) => v,
        None => Vec::new(),
    };
    let ghost a = views(r@);
    let ghost b = views(more@);
    r.append(&mut more);
    assert(views(r@) =~= a + b);
    r
}

// ---------------------------------------------------------------------------
// Percent-decoding

/// The value of an ASCII hex digit.
pub open spec fn hex_digit(b: u8) -> Option<u8> {
    if 48 <= b <= 57 {
        Some((b - 48) as u8)
    } else if 97 <= b <= 102 {
        Some((b - 87) as u8)
    } else if 65 <= b <= 70 {
        Some((b - 55) as u8)
    } else {
        None
    }
}

/// The value of an ASCII hex digit (see `hex_digit`).
pub fn hex_value(byte: u8) -> (r: Option<u8>)
    ensures
        r == hex_digit(byte),
{
    if 48 <= byte && byte <= 57 {
        Some(byte - 48)
    } else if 97 <= byte && byte <= 102 {
        Some(byte - 87)
    } else if 65 <= byte && byte <= 70 {
        Some(byte - 55)
    } else {
        None
    }
}

/// The bytes with each `%XX` escape (two hex digits) replaced by the byte
/// it names; a malformed escape stays as it is.
pub open spec fn percent_decode_bytes(b: Seq<u8>) -> Seq<u8>
    decreases b.len(),
{
    if b.len() == 0 {
        Seq::empty()
    } else if b[0] == 37 && 2 < b.len() && hex_digit(b[1]) is Some && hex_digit(b[2]) is Some {
        seq![(hex_digit(b[1]).unwrap() * 16 + hex_digit(b[2]).unwrap()) as u8]
            + percent_decode_bytes(b.skip(3))
    } else {
        seq![b[0]] + percent_decode_bytes(b.skip(1))
    }
}

/// What `String::from_utf8_lossy` makes of a byte sequence: the text it
/// encodes, with each invalid sequence replaced by U+FFFD.
pub uninterp spec fn lossy_utf8(bytes: Seq<u8>) -> Seq<char>;

/// Converts bytes to text through `String::from_utf8_lossy`.
///
/// Trusted: the result is `lossy_utf8` of the bytes, and for valid UTF-8
/// it is the text the bytes encode, as the std documentation states.
#[verifier::external_body]
fn from_utf8_lossy(bytes: &[u8]) -> (s: String)
    ensures
        s@ == lossy_utf8(bytes@),
        valid_utf8(bytes@) ==> s@ == decode_utf8(bytes@),
{
    String::from_utf8_lossy(bytes).into_owned()
}

/// Bytes read as text the way `String::from_utf8_lossy` reads them: valid
/// UTF-8 as the text it encodes, anything else as `lossy_utf8` gives it.
pub open spec fn utf8_text(bytes: Seq<u8>) -> Seq<char> {
    if valid_utf8(bytes) {
        decode_utf8(bytes)
    } else {
        lossy_utf8(bytes)
    }
}

/// The text with its `%XX` escapes decoded (see `percent_decode_bytes`),
/// read back as UTF-8 (see `utf8_text`).
pub open spec fn percent_decode_seq(input: Seq<char>) -> Seq<char> {
    utf8_text(percent_decode_bytes(vstd::utf8::encode_utf8(input)))
}

proof fn lemma_decode_bytes_without_escapes(b: Seq<u8>)
    requires
        forall|i: int| 0 <= i < b.len() ==> b[i] != 37,
    ensures
        percent_decode_bytes(b) == b,
    decreases b.len(),
{
    if b.len() > 0 {
        lemma_decode_bytes_without_escapes(b.skip(1));
        assert(seq![b[0]] + b.skip(1) =~= b);
    }
}

/// ASCII text without a `%` decodes to itself.
pub proof fn lemma_plain_text_decodes_to_itself(s: Seq<char>)
    requires
        vstd::utf8::is_ascii_chars(s),
        !s.contains('%'),
    ensures
        percent_decode_seq(s) == s,
{
    broadcast use vstd::utf8::is_ascii_chars_encode_utf8, vstd::utf8::encode_utf8_valid_utf8, vstd::utf8::encode_utf8_decode_utf8;
    let b = vstd::utf8::encode_utf8(s);
    assert forall|i: int| 0 <= i < b.len() implies b[i] != 37 by {
        assert(s[i] as u8 == b[i]);
        assert(s[i] != '%');
        assert('\0' <= s[i] <= '\u{7f}');
    }
    lemma_decode_bytes_without_escapes(b);
}

/// Decodes `%XX` escapes (`%20` is a space) so that encoded paths match
/// real file names; a malformed escape is left as it is.
pub fn percent_decode(input: &str) -> (r: String)
    ensures
        r@ == percent_decode_seq(input@),
{
    let bytes = input.as_bytes();
    let mut out: Vec<u8> = Vec::new();
    let mut index: usize = 0;
    assert(bytes@.skip(0) =~= bytes@);
    while index < bytes.len()
        invariant
            index <= bytes.len(),
            out@ + percent_decode_bytes(bytes@.skip(index as int)) == percent_decode_bytes(
                bytes@,
            ),
        decreases bytes.len() - index,
    {
        let ghost rest = bytes@.skip(index as int);
        let mut decoded = false;
        if bytes[index] == 37 && bytes.len() > 2 && index < bytes.len() - 2 {
            let high = hex_value(bytes[index + 1]);
            let low = hex_value(bytes[index + 2]);
            match (high, low) {
                (Some(h), Some(l)) => {
                    proof {
                        assert(rest[1] == bytes@[index + 1]);
                        assert(rest[2] == bytes@[index + 2]);
                        assert(rest.skip(3) =~= bytes@.skip(index + 3));
                    }
                    let v: u8 = h * 16 + l;
                    let ghost before = out@;
                    out.push(v);
                    assert(out@ =~= before + seq![v]);
                    index = index + 3;
                    decoded = true;
                },
                _ => {},
            }
        }
        if !decoded {
            proof {
                assert(rest[0] == bytes@[index as int]);
                if rest[0] == 37 && 2 < rest.len() {
                    assert(rest[1] == bytes@[index + 1]);
                    assert(rest[2] == bytes@[index + 2]);
                }
                assert(rest.skip(1) =~= bytes@.skip(index + 1));
            }
            let ghost before = out@;
            out.push(bytes[index]);
            assert(out@ =~= before + seq![bytes@[index as int]]);
            index = index + 1;
        }
    }
    proof {
        assert(bytes@.skip(index as int) =~= Seq::<u8>::empty());
        assert(out@ + Seq::<u8>::empty() =~= out@);
    }
    from_utf8_lossy(out.as_slice())
}

// ---------------------------------------------------------------------------
// Candidate references

/// Target prefixes that are not local file references.
pub open spec fn is_external(target: Seq<char>) -> bool {
    ||| has_prefix(target, "http://"@)
    ||| has_prefix(target, "https://"@)
    ||| has_prefix(target, "mailto:"@)
    ||| has_prefix(target, "tel:"@)
    ||| has_prefix(target, "<"@)
    ||| has_prefix(target, "//"@)
}

/// The path has a file name with a non-empty extension.
pub open spec fn has_extension(p: Seq<char>) -> bool {
    match file_name(p) {
        Some(f) => match name_extension(f) {
            Some(e) => e.len() > 0,
            None => false,
        },
        None => false,
    }
}

/// A link target as a local reference: the part before any `#`, unless it
/// is empty or external, percent-decoded, and kept only when it has a `/`
/// or a file extension.
pub open spec fn normalized_reference(raw: Seq<char>) -> Option<Seq<char>> {
    let target = raw.take(char_index(raw, '#'));
    if target.len() == 0 || is_external(target) {
        None
    } else {
        let decoded = percent_decode_seq(target);
        if !decoded.contains('/') && !has_extension(decoded) {
            None
        } else {
            Some(decoded)
        }
    }
}

/// Keeps relative, path-shaped link targets (see `normalized_reference`).
pub fn normalize_reference(raw: &str) -> (r: Option<String>)
    ensures
        match r {
            Some(s) => normalized_reference(raw@) == Some(s@),
            None => normalized_reference(raw@) is None,
        },
{
    let rc = chars_of(raw);
    let cut = index_of_char_from(&rc, '#', 0);
    assert(rc@.skip(0) =~= rc@);
    let target = slice(&rc, 0, cut);
    assert(target@ =~= rc@.take(char_index(rc@, '#')));
    if target.len() == 0 {
        return None;
    }
    if starts_with(&target, &lit("http://")) || starts_with(&target, &lit("https://"))
        || starts_with(&target, &lit("mailto:")) || starts_with(&target, &lit("tel:"))
        || starts_with(&target, &lit("<")) || starts_with(&target, &lit("//")) {
        return None;
    }
    let ts = string_of(&target);
    let decoded = percent_decode(ts.as_str());
    let dc = chars_of(decoded.as_str());
    let ext = match path_file_name(&dc) {
        Some(f) => match extension_of(&f) {
            Some(e) => e.len() > 0,
            None => false,
        },
        None => false,
    };
    if !contains_char(&dc, '/') && !ext {
        None
    } else {
        Some(decoded)
    }
}

/// The distinct local references among `targets`, in order of first
/// appearance.
pub open spec fn unique_references(targets: Seq<Seq<char>>) -> Seq<Seq<char>>
    decreases targets.len(),
{
    if targets.len() == 0 {
        Seq::empty()
    } else {
        let prev = unique_references(targets.drop_last());
        match normalized_reference(targets.last()) {
            Some(t) => if prev.contains(t) {
                prev
            } else {
                prev.push(t)
            },
            None => prev,
        }
    }
}

/// The local references a markdown source cites, each once, in order:
/// code removed, link targets extracted and normalised.
pub open spec fn reference_candidates_seq(raw_source: Seq<char>) -> Seq<Seq<char>> {
    unique_references(link_targets_seq(strip_code_seq(raw_source)))
}

/// Whether `s` occurs in `v`.
fn contains_string(v: &Vec<String>, s: &String) -> (r: bool)
    ensures
        r == views(v@).contains(s@),
{
    let sc = chars_of(s.as_str());
    let mut i: usize = 0;
    while i < v.len()
        invariant
            i <= v.len(),
            sc@ == s@,
            forall|j: int| 0 <= j < i ==> views(v@)[j] != s@,
        decreases v.len() - i,
    {
        assert(views(v@)[i as int] == v@[i as int]@);
        if crate::text::eq(&chars_of(v[i].as_str()), &sc) {
            assert(views(v@)[i as int] == s@);
            return true;
        }
        i = i + 1;
    }
    false
}

/// The local references cited by a markdown source (see
/// `reference_candidates_seq`); the caller checks which resolve.
pub fn reference_candidates(raw_source: &str) -> (r: Vec<String>)
    ensures
        views(r@) == reference_candidates_seq(raw_source@),
{
    let stripped = strip_code(raw_source);
    let targets = link_targets(stripped.as_str());
    let ghost tv = views(targets@);
    let mut r: Vec<String> = Vec::new();
    let mut i: usize = 0;
    while i < targets.len()
        invariant
            i <= targets.len(),
            tv == views(targets@),
            views(r@) == unique_references(tv.take(i as int)),
        decreases targets.len() - i,
    {
        proof {
            assert(tv.take(i + 1).drop_last() =~= tv.take(i as int));
            assert(tv.take(i + 1).last() == targets@[i as int]@);
        }
        match normalize_reference(targets[i].as_str()) {
            Some(t) => {
                if !contains_string(&r, &t) {
                    let ghost before = views(r@);
                    r.push(t);
                    assert(views(r@) =~= before.push(t@));
                }
            },
            None => {},
        }
        i = i + 1;
    }
    assert(tv.take(targets.len() as int) =~= tv);
    r
}

/// The candidates that do not resolve, in order.
pub open spec fn unresolved(candidates: Seq<Seq<char>>, resolves: Seq<bool>) -> Seq<Seq<char>>
    decreases candidates.len(),
{
    if candidates.len() == 0 || resolves.len() == 0 {
        Seq::empty()
    } else {
        let prev = unresolved(candidates.drop_last(), resolves.drop_last());
        if resolves.last() {
            prev
        } else {
            prev.push(candidates.last())
        }
    }
}

/// The references that no longer resolve: the candidates whose entry in
/// `resolves` (one per candidate, from the disk check) is false.
pub fn broken_references(candidates: &Vec<String>, resolves: &Vec<bool>) -> (r: Vec<String>)
    requires
        candidates.len() == resolves.len(),
    ensures
        views(r@) == unresolved(views(candidates@), resolves@),
{
    let ghost cv = views(candidates@);
    let mut r: Vec<String> = Vec::new();
    let mut i: usize = 0;
    while i < candidates.len()
        invariant
            i <= candidates.len(),
            candidates.len() == resolves.len(),
            cv == views(candidates@),
            views(r@) == unresolved(cv.take(i as int), resolves@.take(i as int)),
        decreases candidates.len() - i,
    {
        proof {
            assert(cv.take(i + 1).drop_last() =~= cv.take(i as int));
            assert(resolves@.take(i + 1).drop_last() =~= resolves@.take(i as int));
            assert(cv.take(i + 1).last() == candidates@[i as int]@);
        }
        if !resolves[i] {
            let ghost before = views(r@);
            r.push(candidates[i].clone());
            assert(views(r@) =~= before.push(candidates@[i as int]@));
        }
        i = i + 1;
    }
    assert(cv.take(candidates.len() as int) =~= cv);
    assert(resolves@.take(candidates.len() as int) =~= resolves@);
    r
}

// ---------------------------------------------------------------------------
// Laws

/// Text outside inline code holds no backtick.
pub proof fn lemma_inline_code_removed(line: Seq<char>)
    ensures
        !outside_ticks(line).contains('`'),
    decreases line.len(),
{
    if line.len() > 0 {
        lemma_inline_code_removed(line.drop_last());
        let prev = outside_ticks(line.drop_last());
        if !(line.last() == '`' || odd_ticks(line.drop_last())) {
            assert forall|i: int| 0 <= i < prev.push(line.last()).len() implies prev.push(
                line.last(),
            )[i] != '`' by {
                if i < prev.len() {
                    assert(prev.push(line.last())[i] == prev[i]);
                    assert(!prev.contains('`'));
                }
            }
        }
    }
}

/// The references a source cites are listed once each.
pub proof fn lemma_candidates_distinct(raw_source: Seq<char>)
    ensures
        reference_candidates_seq(raw_source).no_duplicates(),
{
    lemma_unique_references_distinct(link_targets_seq(strip_code_seq(raw_source)));
}

proof fn lemma_unique_references_distinct(targets: Seq<Seq<char>>)
    ensures
        unique_references(targets).no_duplicates(),
    decreases targets.len(),
{
    if targets.len() > 0 {
        lemma_unique_references_distinct(targets.drop_last());
        let prev = unique_references(targets.drop_last());
        match normalized_reference(targets.last()) {
            Some(t) => if !prev.contains(t) {
                let next = prev.push(t);
                assert forall|i: int, j: int| 0 <= i < next.len() && 0 <= j < next.len() && i != j implies next[i] != next[j] by {
                    if i < prev.len() && j < prev.len() {
                    } else if i == prev.len() {
                        assert(prev[j] == next[j]);
                    } else {
                        assert(prev[i] == next[i]);
                    }
                }
            },
            None => {},
        }
    }
}

} // verus!
