//! Assembly of a module's sources for one provider: kebab-case output
//! names, tool-name remapping, the per-source pipeline and the output
//! layout under `build/<provider>/`.

use vstd::prelude::*;
use crate::text::{ascii_lower, eq, chars_of, extend, join, join_seqs, lit, replace, replace_seq, rsplit_once, rsplit_once_seq, seqs_of, split_char, split_on, split_once, split_once_seq, string_of, strip_prefix, strip_prefix_seq, to_ascii_lower, lemma_seqs_of_push};
use crate::frontmatter::{str_views, strip_frontmatter, strip_frontmatter_seq};
use crate::paths::{components, extension_of, file_name, name_extension, path_components, path_file_name};
use crate::provider::{AssemblyRule, qualifier_matches, qualifier_matches_provider, qualifier_valid, rule_named, validate_qualifier};
use crate::order::views;

verus! {

// ---------------------------------------------------------------------------
// Kebab case

/// An ASCII capital letter.
pub open spec fn is_upper(c: char) -> bool {
    'A' <= c && c <= 'Z'
}

/// An ASCII small letter or digit.
pub open spec fn is_lower_or_digit(c: char) -> bool {
    ('a' <= c && c <= 'z') || ('0' <= c && c <= '9')
}

/// Kebab case: a `-` goes before each capital that follows a small letter
/// or digit, and every letter is lowered (`GameMaster` → `game-master`,
/// `SKILL` → `skill`).
pub open spec fn kebab_seq(s: Seq<char>) -> Seq<char>
    decreases s.len(),
{
    if s.len() == 0 {
        Seq::empty()
    } else {
        let prev = kebab_seq(s.drop_last());
        let c = s.last();
        if is_upper(c) && s.len() >= 2 && is_lower_or_digit(s[s.len() - 2]) {
            prev + seq!['-', ascii_lower(c)]
        } else {
            prev.push(ascii_lower(c))
        }
    }
}

/// Converts a name to kebab case (see `kebab_seq`).
pub fn to_kebab_case(s: &[char]) -> (r: Vec<char>)
    ensures
        r@ == kebab_seq(s@),
{
    let mut r: Vec<char> = Vec::new();
    let mut i: usize = 0;
    while i < s.len()
        invariant
            i <= s.len(),
            r@ == kebab_seq(s@.take(i as int)),
        decreases s.len() - i,
    {
        let c = s[i];
        proof {
            let t = s@.take(i + 1);
            assert(t.drop_last() =~= s@.take(i as int));
            assert(t.last() == c);
            if i >= 1 {
                assert(t[t.len() - 2] == s@[i - 1]);
            }
        }
        if 'A' <= c && c <= 'Z' && i >= 1 && (('a' <= s[i - 1] && s[i - 1] <= 'z') || ('0' <= s[i
            - 1] && s[i - 1] <= '9')) {
            r.push('-');
        }
        r.push(to_ascii_lower(c));
        i = i + 1;
    }
    assert(s@.take(s.len() as int) =~= s@);
    r
}

/// One path segment in kebab case: the stem is converted and the text after
/// the last `.` kept as it is.
pub open spec fn kebab_segment(part: Seq<char>) -> Seq<char> {
    match rsplit_once_seq(part, '.') {
        Some((stem, ext)) => kebab_seq(stem) + seq!['.'] + ext,
        None => kebab_seq(part),
    }
}

/// Every `/`-separated segment of a relative path in kebab case.
pub open spec fn kebab_path(path: Seq<char>) -> Seq<char> {
    join_seqs(split_char(path, '/').map_values(|p: Seq<char>| kebab_segment(p)), seq!['/'])
}

fn kebab_segment_of(part: &[char]) -> (r: Vec<char>)
    ensures
        r@ == kebab_segment(part@),
{
    match rsplit_once(part, '.') {
        Some((stem, ext)) => {
            let mut r = to_kebab_case(&stem);
            r.push('.');
            extend(&mut r, &ext);
            r
        },
        None => to_kebab_case(part),
    }
}

/// Converts each segment of a relative output path to kebab case
/// (`SceneReview/SKILL.md` → `scene-review/skill.md`).
pub fn apply_kebab_case_to_path(path: &str) -> (r: String)
    ensures
        r@ == kebab_path(path@),
{
    let p = chars_of(path);
    let parts = split_on(&p, '/');
    let ghost ps = split_char(path@, '/');
    let mut out: Vec<Vec<char>> = Vec::new();
    let mut i: usize = 0;
    while i < parts.len()
        invariant
            i <= parts.len(),
            seqs_of(parts@) == ps,
            ps == split_char(path@, '/'),
            seqs_of(out@) == ps.take(i as int).map_values(|q: Seq<char>| kebab_segment(q)),
        decreases parts.len() - i,
    {
        let seg = kebab_segment_of(&parts[i]);
        proof {
            lemma_seqs_of_push(out@, seg);
            assert(parts@[i as int]@ == ps[i as int]);
            assert(ps.take(i + 1).map_values(|q: Seq<char>| kebab_segment(q)) =~= ps.take(
                i as int,
            ).map_values(|q: Seq<char>| kebab_segment(q)).push(kebab_segment(ps[i as int])));
        }
        out.push(seg);
        i = i + 1;
    }
    assert(ps.take(parts.len() as int) =~= ps);
    assert(seqs_of(out@) =~= ps.map_values(|q: Seq<char>| kebab_segment(q)));
    let slash = vec!['/'];
    assert(slash@ =~= seq!['/']);
    let joined = join(&out, &slash);
    string_of(&joined)
}

// ---------------------------------------------------------------------------
// Tool remapping

/// Replaces each mapped tool name, one mapping after the other, in the
/// given order.
pub open spec fn remap_seq(text: Seq<char>, mappings: Seq<(String, String)>) -> Seq<char>
    decreases mappings.len(),
{
    if mappings.len() == 0 {
        text
    } else {
        replace_seq(
            remap_seq(text, mappings.drop_last()),
            mappings.last().0@,
            mappings.last().1@,
        )
    }
}

/// Applies tool-name mappings to assembled text (see `remap_seq`).
pub fn remap_tools(text: &str, mappings: &[(String, String)]) -> (r: String)
    ensures
        r@ == remap_seq(text@, mappings@),
{
    let mut out = chars_of(text);
    let mut i: usize = 0;
    while i < mappings.len()
        invariant
            i <= mappings.len(),
            out@ == remap_seq(text@, mappings@.take(i as int)),
        decreases mappings.len() - i,
    {
        proof {
            assert(mappings@.take(i + 1).drop_last() =~= mappings@.take(i as int));
            assert(mappings@.take(i + 1).last() == mappings@[i as int]);
        }
        out = replace(&out, &chars_of(mappings[i].0.as_str()), &chars_of(mappings[i].1.as_str()));
        i = i + 1;
    }
    assert(mappings@.take(mappings.len() as int) =~= mappings@);
    string_of(&out)
}

// ---------------------------------------------------------------------------
// Sources and the per-source pipeline

/// A source file found in a module's `agents/`, `skills/` or `rules/`.
#[derive(Debug, Clone)]
pub struct SourceFile {
    /// Path from the module root, e.g. `rules/MyRule.md`.
    pub relative_path: String,
    /// Full filesystem path.
    pub full_path: String,
    /// Raw file content.
    pub content: String,
    /// `agents`, `skills` or `rules`.
    pub kind: String,
    /// A non-`SKILL.md` file inside a skill directory, copied verbatim.
    pub passthrough: bool,
}

/// A markdown file met while walking a content directory.
#[derive(Debug, Clone)]
pub struct ListedFile {
    pub relative_path: String,
    pub full_path: String,
    pub content: String,
    /// The content kind directory it was found under.
    pub kind: String,
    /// Found inside a skill's own directory (`skills/<Name>/...`).
    pub in_skill_dir: bool,
}

/// The file-name part of a path.
pub open spec fn base_name(path: Seq<char>) -> Seq<char> {
    match file_name(path) {
        Some(n) => n,
        None => Seq::empty(),
    }
}

/// The source a listed file becomes: files inside a skill directory other
/// than `SKILL.md` are passed through unchanged.
pub open spec fn source_for(f: ListedFile, s: SourceFile) -> bool {
    &&& s.relative_path@ == f.relative_path@
    &&& s.full_path@ == f.full_path@
    &&& s.content@ == f.content@
    &&& s.kind@ == f.kind@
    &&& s.passthrough == (f.in_skill_dir && base_name(f.full_path@) != "SKILL.md"@)
}

/// Turns the listed markdown files of a module into assembly sources.
pub fn collect(files: &[ListedFile]) -> (r: Vec<SourceFile>)
    ensures
        r@.len() == files@.len(),
        forall|i: int| 0 <= i < r@.len() ==> source_for(files@[i], #[trigger] r@[i]),
{
    let skill = lit("SKILL.md");
    let mut r: Vec<SourceFile> = Vec::new();
    let mut i: usize = 0;
    while i < files.len()
        invariant
            i <= files.len(),
            skill@ == "SKILL.md"@,
            r@.len() == i,
            forall|j: int| 0 <= j < i ==> source_for(files@[j], #[trigger] r@[j]),
        decreases files.len() - i,
    {
        let f = &files[i];
        let name = match path_file_name(&chars_of(f.full_path.as_str())) {
            Some(n) => n,
            None => Vec::new(),
        };
        let is_skill_file = crate::text::eq(&name, &skill);
        r.push(
            SourceFile {
                relative_path: f.relative_path.clone(),
                full_path: f.full_path.clone(),
                content: f.content.clone(),
                kind: f.kind.clone(),
                passthrough: f.in_skill_dir && !is_skill_file,
            },
        );
        i = i + 1;
    }
    r
}

/// The file-name part of a source path (empty when it has none).
pub fn extract_filename(path: &str) -> (r: String)
    ensures
        r@ == base_name(path@),
{
    match path_file_name(&chars_of(path)) {
        Some(n) => string_of(&n),
        None => String::new(),
    }
}

/// The assembled text of one source for a provider: a passthrough file is
/// copied; otherwise the provider's variant (when there is one) stands in
/// for the source, its frontmatter is reduced to `keep_fields` and the
/// leading heading dropped, and tool names are remapped.
pub open spec fn assembled_seq(
    source: SourceFile,
    variant: Option<Seq<char>>,
    keep_fields: Seq<Seq<char>>,
    mappings: Seq<(String, String)>,
) -> Seq<char> {
    if source.passthrough {
        source.content@
    } else {
        let base = match variant {
            Some(v) => v,
            None => source.content@,
        };
        remap_seq(strip_frontmatter_seq(base, keep_fields), mappings)
    }
}

/// The views of an optional string.
pub open spec fn opt_view(o: Option<String>) -> Option<Seq<char>> {
    match o {
        Some(s) => Some(s@),
        None => None,
    }
}

/// Runs the assembly pipeline on one source (see `assembled_seq`); the
/// provider's variant file, when one exists, is read by the caller.
pub fn assemble_source(
    source: &SourceFile,
    variant_content: Option<String>,
    keep_fields: &[String],
    tool_mappings: &[(String, String)],
) -> (r: String)
    ensures
        r@ == assembled_seq(*source, opt_view(variant_content), views(keep_fields@), tool_mappings@),
{
    if source.passthrough {
        return source.content.clone();
    }
    let base = match variant_content {
        Some(v) => v,
        None => source.content.clone(),
    };
    let mut keep: Vec<&str> = Vec::new();
    let mut i: usize = 0;
    while i < keep_fields.len()
        invariant
            i <= keep_fields.len(),
            keep@.len() == i,
            str_views(keep@) == views(keep_fields@).take(i as int),
        decreases keep_fields.len() - i,
    {
        let ghost before = keep@;
        let f: &str = keep_fields[i].as_str();
        keep.push(f);
        proof {
            assert(keep@ == before.push(f));
            assert(f@ == views(keep_fields@)[i as int]);
            assert forall|j: int| 0 <= j < i + 1 implies str_views(keep@)[j] == views(keep_fields@).take(i + 1)[j] by {
                if j < i {
                    assert(keep@[j] == before[j]);
                }
            }
            assert(str_views(keep@) =~= views(keep_fields@).take(i + 1));
        }
        i = i + 1;
    }
    assert(views(keep_fields@).take(keep_fields.len() as int) =~= views(keep_fields@));
    let stripped = strip_frontmatter(base.as_str(), &keep);
    remap_tools(stripped.as_str(), tool_mappings)
}

// ---------------------------------------------------------------------------
// Output layout

/// The path of a source below its kind directory; for a qualified source
/// (one in a qualifier directory) the qualifier directory is dropped too.
pub open spec fn within_kind(relative: Seq<char>, kind: Seq<char>, qualified: bool) -> Seq<char> {
    let stripped = match strip_prefix_seq(relative, kind.push('/')) {
        Some(rest) => rest,
        None => relative,
    };
    if qualified {
        match split_once_seq(stripped, '/') {
            Some((_, file)) => file,
            None => stripped,
        }
    } else {
        stripped
    }
}

/// The output path of a source below `build/<provider>/<kind>/`, in kebab
/// case when the provider asks for it.
pub open spec fn output_relative_seq(
    relative: Seq<char>,
    kind: Seq<char>,
    qualified: bool,
    kebab: bool,
) -> Seq<char> {
    let w = within_kind(relative, kind, qualified);
    if kebab {
        kebab_path(w)
    } else {
        w
    }
}

/// Computes the output path of a source (see `output_relative_seq`).
pub fn output_relative_path(relative: &str, kind: &str, qualified: bool, kebab: bool) -> (r: String)
    ensures
        r@ == output_relative_seq(relative@, kind@, qualified, kebab),
{
    let rel = chars_of(relative);
    let mut prefix = chars_of(kind);
    prefix.push('/');
    let stripped = match strip_prefix(&rel, &prefix) {
        Some(rest) => rest,
        None => rel,
    };
    let within = if qualified {
        match split_once(&stripped, '/') {
            Some((_, file)) => file,
            None => stripped,
        }
    } else {
        stripped
    };
    let w = string_of(&within);
    if kebab {
        apply_kebab_case_to_path(w.as_str())
    } else {
        w
    }
}

/// The manifest key of an assembled file: `<provider>/<kind>/<path>`.
pub open spec fn manifest_key_seq(provider: Seq<char>, kind: Seq<char>, path: Seq<char>) -> Seq<
    char,
> {
    provider + seq!['/'] + kind + seq!['/'] + path
}

/// Builds a manifest key (see `manifest_key_seq`).
pub fn manifest_key(provider: &str, kind: &str, path: &str) -> (r: String)
    ensures
        r@ == manifest_key_seq(provider@, kind@, path@),
{
    let mut k = chars_of(provider);
    k.push('/');
    extend(&mut k, &chars_of(kind));
    k.push('/');
    extend(&mut k, &chars_of(path));
    string_of(&k)
}

/// The provider's rule list names the kebab-case rule (unknown names are
/// ignored).
pub open spec fn wants_kebab(rule_names: Seq<String>) -> bool {
    exists|i: int|
        0 <= i < rule_names.len() && rule_named(#[trigger] rule_names[i]@) == Some(
            AssemblyRule::KebabCase,
        )
}

/// Whether a provider's assembly rules include kebab case.
pub fn has_kebab_case(rule_names: &[String]) -> (r: bool)
    ensures
        r == wants_kebab(rule_names@),
{
    let mut i: usize = 0;
    while i < rule_names.len()
        invariant
            i <= rule_names.len(),
            forall|j: int|
                0 <= j < i ==> rule_named(#[trigger] rule_names@[j]@) != Some(
                    AssemblyRule::KebabCase,
                ),
        decreases rule_names.len() - i,
    {
        match AssemblyRule::from_name(rule_names[i].as_str()) {
            Ok(AssemblyRule::KebabCase) => {
                return true;
            },
            _ => {},
        }
        i = i + 1;
    }
    false
}

/// A source goes to a provider unless it sits in a qualifier directory that
/// does not match the provider.
pub open spec fn source_applies(
    qualifier: Option<Seq<char>>,
    provider: Seq<char>,
    models: Seq<(String, Vec<String>)>,
) -> bool {
    match qualifier {
        Some(q) => qualifier_matches(q, provider, models),
        None => true,
    }
}

/// Whether a source (with its optional qualifier) is assembled for a
/// provider (see `source_applies`).
pub fn applies_to_provider(
    qualifier: &Option<String>,
    provider_name: &str,
    models: &[(String, Vec<String>)],
) -> (r: bool)
    ensures
        r == source_applies(opt_view(*qualifier), provider_name@, models@),
{
    match qualifier {
        Some(q) => qualifier_matches_provider(q.as_str(), provider_name, models),
        None => true,
    }
}

// ---------------------------------------------------------------------------
// Laws

proof fn lemma_lower_not_upper(c: char)
    ensures
        !is_upper(ascii_lower(c)),
        !is_upper(c) ==> ascii_lower(c) == c,
{
    if is_upper(c) {
        let u = c as u32;
        assert(65 <= u <= 90);
        assert(97 <= u + 32 <= 122);
        assert(((u + 32) as char) as u32 == u + 32);
    }
}

proof fn lemma_kebab_no_upper(s: Seq<char>)
    ensures
        forall|i: int| 0 <= i < kebab_seq(s).len() ==> !is_upper(#[trigger] kebab_seq(s)[i]),
    decreases s.len(),
{
    if s.len() > 0 {
        lemma_kebab_no_upper(s.drop_last());
        lemma_lower_not_upper(s.last());
        let prev = kebab_seq(s.drop_last());
        let k = kebab_seq(s);
        assert forall|i: int| 0 <= i < k.len() implies !is_upper(#[trigger] k[i]) by {
            if i < prev.len() {
                assert(k[i] == prev[i]);
            }
        }
    }
}

proof fn lemma_kebab_fixed(s: Seq<char>)
    requires
        forall|i: int| 0 <= i < s.len() ==> !is_upper(#[trigger] s[i]),
    ensures
        kebab_seq(s) == s,
    decreases s.len(),
{
    if s.len() > 0 {
        let t = s.drop_last();
        assert forall|i: int| 0 <= i < t.len() implies !is_upper(#[trigger] t[i]) by {
            assert(t[i] == s[i]);
        }
        lemma_kebab_fixed(t);
        lemma_lower_not_upper(s.last());
        assert(t.push(s.last()) =~= s);
    }
}

/// Kebab case is idempotent: a kebab-cased name is its own kebab case.
pub proof fn lemma_kebab_idempotent(s: Seq<char>)
    ensures
        kebab_seq(kebab_seq(s)) == kebab_seq(s),
{
    lemma_kebab_no_upper(s);
    lemma_kebab_fixed(kebab_seq(s));
}

// ---------------------------------------------------------------------------
// Which files are sources

/// The directories a module's sources are found under.
pub open spec fn is_content_kind(k: Seq<char>) -> bool {
    k == "agents"@ || k == "skills"@ || k == "rules"@
}

/// Whether an entry of a module (its path from the module root, and
/// whether it is a directory) is a source to assemble, and if so its kind
/// and whether it lies in a skill's own directory. Sources are markdown
/// files (extension `md`) directly under `agents/`, `skills/` or `rules/`;
/// directly inside a skill's directory `skills/<Name>/`; or directly inside
/// a qualifier directory `agents/<q>/` or `rules/<q>/` whose name is a valid
/// qualifier. No directory and nothing deeper is a source.
pub open spec fn source_entry_of(
    relative: Seq<char>,
    is_dir: bool,
    models: Seq<(String, Vec<String>)>,
) -> Option<(Seq<char>, bool)> {
    let c = components(relative);
    if is_dir || c.len() < 2 || c.len() > 3 || !is_content_kind(c[0]) || name_extension(c.last()) != Some(
        "md"@,
    ) {
        None
    } else if c.len() == 2 {
        Some((c[0], false))
    } else if c[0] == "skills"@ {
        Some((c[0], true))
    } else if qualifier_valid(c[1], models) {
        Some((c[0], false))
    } else {
        None
    }
}

/// Decides whether a module entry is a source (see `source_entry_of`),
/// giving its kind and whether it lies in a skill's own directory.
pub fn source_entry(relative: &str, is_dir_entry: bool, models: &[(String, Vec<String>)]) -> (r: Option<(String, bool)>)
    ensures
        match r {
            Some((kind, in_skill_dir)) => source_entry_of(relative@, is_dir_entry, models@) == Some(
                (kind@, in_skill_dir),
            ),
            None => source_entry_of(relative@, is_dir_entry, models@) is None,
        },
{
    if is_dir_entry {
        return None;
    }
    let c = path_components(&chars_of(relative));
    let ghost cv = components(relative@);
    assert(seqs_of(c@) == cv);
    if c.len() < 2 || c.len() > 3 {
        return None;
    }
    assert(c@[0]@ == cv[0]);
    assert(c@[c.len() - 1]@ == cv.last());
    let kind = &c[0];
    if !(eq(kind, &lit("agents")) || eq(kind, &lit("skills")) || eq(kind, &lit("rules"))) {
        return None;
    }
    match extension_of(&c[c.len() - 1]) {
        Some(e) => {
            if !eq(&e, &lit("md")) {
                return None;
            }
        },
        None => {
            return None;
        },
    }
    if c.len() == 2 {
        return Some((string_of(kind), false));
    }
    if eq(kind, &lit("skills")) {
        return Some((string_of(kind), true));
    }
    assert(c@[1]@ == cv[1]);
    match validate_qualifier(string_of(&c[1]).as_str(), models) {
        Ok(()) => Some((string_of(kind), false)),
        Err(_) => None,
    }
}

/// The qualifier directory of an agent or rule source
/// (`<kind>/<qualifier>/File.md`), when its name is a valid qualifier;
/// skills have none.
pub open spec fn qualifier_of_seq(relative: Seq<char>, kind: Seq<char>, models: Seq<(String, Vec<String>)>) -> Option<Seq<char>> {
    if kind == "skills"@ {
        None
    } else {
        match strip_prefix_seq(relative, kind + "/"@) {
            Some(rest) => match split_once_seq(rest, '/') {
                Some((dir, _)) => if qualifier_valid(dir, models) {
                    Some(dir)
                } else {
                    None
                },
                None => None,
            },
            None => None,
        }
    }
}

/// Finds a source's qualifier directory (see `qualifier_of_seq`).
pub fn qualifier_of(relative: &str, kind: &str, models: &[(String, Vec<String>)]) -> (r: Option<String>)
    ensures
        match r {
            Some(q) => qualifier_of_seq(relative@, kind@, models@) == Some(q@),
            None => qualifier_of_seq(relative@, kind@, models@) is None,
        },
{
    let k = chars_of(kind);
    if eq(&k, &lit("skills")) {
        return None;
    }
    let mut prefix = k;
    prefix.push('/');
    assert(prefix@ =~= kind@ + "/"@) by {
        reveal_strlit("/");
    }
    let rest = match strip_prefix(&chars_of(relative), &prefix) {
        Some(rest) => rest,
        None => {
            return None;
        },
    };
    let (dir, _) = match split_once(&rest, '/') {
        Some(parts) => parts,
        None => {
            return None;
        },
    };
    let d = string_of(&dir);
    match validate_qualifier(d.as_str(), models) {
        Ok(()) => Some(d),
        Err(_) => None,
    }
}

/// A source `<kind>/<q>/<file>` in a qualifier directory is written as
/// `<file>`: the qualifier directory is dropped; an unqualified source
/// `<kind>/<path>` is written as `<path>` (before any kebab casing).
pub proof fn lemma_qualifier_directory_dropped(kind: Seq<char>, q: Seq<char>, file: Seq<char>)
    requires
        !q.contains('/'),
    ensures
        output_relative_seq(kind + seq!['/'] + q + seq!['/'] + file, kind, true, false) == file,
        output_relative_seq(kind + seq!['/'] + file, kind, false, false) == file,
{
    let r = kind + seq!['/'] + q + seq!['/'] + file;
    let p = kind.push('/');
    assert(r.take(p.len() as int) =~= p);
    let stripped = r.skip(p.len() as int);
    assert(stripped =~= q + seq!['/'] + file);
    assert forall|j: int| 0 <= j < q.len() implies stripped[j] != '/' by {
        assert(stripped[j] == q[j]);
    }
    crate::text::lemma_char_index_is(stripped, '/', q.len() as int);
    assert(stripped.skip(q.len() as int + 1) =~= file);
    let r2 = kind + seq!['/'] + file;
    assert(r2.take(p.len() as int) =~= p);
    assert(r2.skip(p.len() as int) =~= file);
}

} // verus!
