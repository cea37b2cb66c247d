//! Provenance sidecars of source artifacts as the scanner reads them: the
//! adoption record they describe, the digests they recorded, the state of
//! an ADR, where a source sidecar may live, and the deployed-file status.

use vstd::prelude::*;
use crate::text::{chars_of, contains, contains_seq, eq, extend, lit, string_of, char_count};
use crate::scan::{extract_frontmatter_field, frontmatter_field, shorten_source, shorten_source_seq};
use crate::view::{Variant, Adoption, Adr, ArtifactView, Dependency, GitCommit, StatusSummary};
use crate::digest::{content_sha256, sha256_hex, FileStatus};
use crate::paths::{file_name, join_path, name_stem, parent, path_file_name, path_join, path_parent, file_stem_of};
use crate::order::views;

verus! {

/// The fields of a provenance sidecar the scanner reads; absent fields are
/// empty.
#[derive(Debug, Clone)]
pub struct SidecarRecord {
    pub build_type: String,
    pub source: String,
    pub upstream_url: String,
    pub upstream_commit: String,
    pub transforms_applied: Vec<String>,
    /// `(name, uri, sha256)` of each resolved dependency, in order.
    pub dependencies: Vec<(String, String, String)>,
    /// The subject digests, in order.
    pub subject_shas: Vec<String>,
    pub upstream_author: String,
    pub upstream_license: String,
    pub adopted_by: String,
}

/// How an artifact was obtained, from the build type.
pub open spec fn adoption_kind(build_type: Seq<char>) -> Seq<char> {
    if contains_seq(build_type, "adopt"@) {
        "adopt"@
    } else if contains_seq(build_type, "copy"@) {
        "copy"@
    } else {
        "build"@
    }
}

/// The digest of the first dependency named `upstream`, or empty.
pub open spec fn upstream_sha(deps: Seq<(String, String, String)>) -> Seq<char>
    decreases deps.len(),
{
    if deps.len() == 0 {
        Seq::empty()
    } else if deps[0].0@ == "upstream"@ {
        deps[0].2@
    } else {
        upstream_sha(deps.drop_first())
    }
}

/// The named dependencies other than `upstream`, in order.
pub open spec fn other_dependencies(deps: Seq<(String, String, String)>) -> Seq<(Seq<char>, Seq<char>, Seq<char>)>
    decreases deps.len(),
{
    if deps.len() == 0 {
        Seq::empty()
    } else {
        let prev = other_dependencies(deps.drop_last());
        let d = deps.last();
        if d.0@ != "upstream"@ && d.0@.len() > 0 {
            prev.push((d.0@, d.1@, d.2@))
        } else {
            prev
        }
    }
}

/// The adoption record a sidecar describes: its kind, its source (the
/// upstream URL when given, else the source), the source's short forms, the
/// upstream digest, commit, transforms, attribution and other dependencies.
pub open spec fn adoption_matches(a: Adoption, r: SidecarRecord) -> bool {
    let source = if r.upstream_url@.len() == 0 { r.source@ } else { r.upstream_url@ };
    &&& a.kind@ == adoption_kind(r.build_type@)
    &&& a.source@ == source
    &&& (a.source_repo@, a.source_label@) == shorten_source_seq(source)
    &&& a.source_sha@ == upstream_sha(r.dependencies@)
    &&& a.commit@ == r.upstream_commit@
    &&& views(a.transforms@) == views(r.transforms_applied@)
    &&& a.author@ == r.upstream_author@
    &&& a.license@ == r.upstream_license@
    &&& a.adopted_by@ == r.adopted_by@
    &&& a.dependencies@.map_values(|d: Dependency| (d.name@, d.uri@, d.sha@)) == other_dependencies(r.dependencies@)
}

fn clone_strings(v: &Vec<String>) -> (r: Vec<String>)
    ensures
        views(r@) == views(v@),
{
    let mut r: Vec<String> = Vec::new();
    let mut i: usize = 0;
    while i < v.len()
        invariant
            i <= v.len(),
            views(r@) == views(v@).take(i as int),
        decreases v.len() - i,
    {
        let s = v[i].clone();
        let ghost before = r@;
        r.push(s);
        assert(r@ == before.push(v@[i as int]));
        assert(views(r@) =~= views(before).push(v@[i as int]@));
        assert(views(r@) =~= views(v@).take(i + 1));
        i = i + 1;
    }
    assert(views(v@).take(v.len() as int) =~= views(v@));
    r
}

/// Reads the adoption record of a sidecar (see `adoption_matches`).
pub fn parse_adoption(r: &SidecarRecord) -> (a: Adoption)
    ensures
        adoption_matches(a, *r),
{
    let bt = chars_of(r.build_type.as_str());
    let kind = if contains(&bt, &lit("adopt")) {
        "adopt"
    } else if contains(&bt, &lit("copy")) {
        "copy"
    } else {
        "build"
    };
    let source = if char_count(r.upstream_url.as_str()) == 0 {
        r.source.clone()
    } else {
        r.upstream_url.clone()
    };
    let mut source_sha = String::new();
    let mut i: usize = 0;
    let mut found = false;
    assert(r.dependencies@.skip(0) =~= r.dependencies@);
    while i < r.dependencies.len() && !found
        invariant
            i <= r.dependencies.len(),
            found ==> source_sha@ == upstream_sha(r.dependencies@),
            !found ==> upstream_sha(r.dependencies@.skip(i as int)) == upstream_sha(r.dependencies@),
            !found ==> source_sha@.len() == 0,
        decreases r.dependencies.len() - i, (if found { 0int } else { 1int }),
    {
        proof {
            assert(r.dependencies@.skip(i as int)[0] == r.dependencies@[i as int]);
            assert(r.dependencies@.skip(i as int).drop_first() =~= r.dependencies@.skip(i + 1));
        }
        if eq(&chars_of(r.dependencies[i].0.as_str()), &lit("upstream")) {
            source_sha = r.dependencies[i].2.clone();
            found = true;
        } else {
            i = i + 1;
        }
    }
    proof {
        if !found {
            assert(r.dependencies@.skip(i as int).len() == 0);
            assert(source_sha@ =~= Seq::<char>::empty());
        }
    }
    let mut deps: Vec<Dependency> = Vec::new();
    let mut j: usize = 0;
    while j < r.dependencies.len()
        invariant
            j <= r.dependencies.len(),
            deps@.map_values(|d: Dependency| (d.name@, d.uri@, d.sha@)) == other_dependencies(r.dependencies@.take(j as int)),
        decreases r.dependencies.len() - j,
    {
        proof {
            assert(r.dependencies@.take(j + 1).drop_last() =~= r.dependencies@.take(j as int));
        }
        let name = chars_of(r.dependencies[j].0.as_str());
        if !eq(&name, &lit("upstream")) && name.len() > 0 {
            let d = Dependency {
                name: r.dependencies[j].0.clone(),
                uri: r.dependencies[j].1.clone(),
                sha: r.dependencies[j].2.clone(),
            };
            let ghost before = deps@;
            deps.push(d);
            assert(deps@.map_values(|d: Dependency| (d.name@, d.uri@, d.sha@)) =~= before.map_values(
                |d: Dependency| (d.name@, d.uri@, d.sha@),
            ).push((d.name@, d.uri@, d.sha@)));
        }
        j = j + 1;
    }
    assert(r.dependencies@.take(r.dependencies.len() as int) =~= r.dependencies@);
    let (source_repo, source_label) = shorten_source(source.as_str());
    Adoption {
        kind: String::from_str(kind),
        source,
        source_repo,
        source_label,
        source_sha,
        commit: r.upstream_commit.clone(),
        transforms: clone_strings(&r.transforms_applied),
        author: r.upstream_author.clone(),
        license: r.upstream_license.clone(),
        adopted_by: r.adopted_by.clone(),
        dependencies: deps,
    }
}

/// The adoption record of a source artifact, when its sidecar was found and
/// read.
pub fn read_source_adoption(sidecar: Option<&SidecarRecord>) -> (r: Option<Adoption>)
    ensures
        match sidecar {
            Some(rec) => r matches Some(a) && adoption_matches(a, *rec),
            None => r is None,
        },
{
    match sidecar {
        Some(rec) => Some(parse_adoption(rec)),
        None => None,
    }
}

/// The first subject digest, when it is not empty.
pub open spec fn subject_sha(r: SidecarRecord) -> Option<Seq<char>> {
    if r.subject_shas@.len() > 0 && r.subject_shas@[0]@.len() > 0 {
        Some(r.subject_shas@[0]@)
    } else {
        None
    }
}

/// The digest of the first resolved dependency (the source input at
/// deploy), when it is not empty.
pub open spec fn input_sha(r: SidecarRecord) -> Option<Seq<char>> {
    if r.dependencies@.len() > 0 && r.dependencies@[0].2@.len() > 0 {
        Some(r.dependencies@[0].2@)
    } else {
        None
    }
}

/// The subject digest a sidecar recorded (see `subject_sha`).
pub fn recorded_subject_sha(r: &SidecarRecord) -> (s: Option<String>)
    ensures
        match s {
            Some(x) => subject_sha(*r) == Some(x@),
            None => subject_sha(*r) is None,
        },
{
    if r.subject_shas.len() > 0 && char_count(r.subject_shas[0].as_str()) > 0 {
        Some(r.subject_shas[0].clone())
    } else {
        None
    }
}

/// The source input digest a sidecar recorded (see `input_sha`).
pub fn recorded_input_sha(r: &SidecarRecord) -> (s: Option<String>)
    ensures
        match s {
            Some(x) => input_sha(*r) == Some(x@),
            None => input_sha(*r) is None,
        },
{
    if r.dependencies.len() > 0 && char_count(r.dependencies[0].2.as_str()) > 0 {
        Some(r.dependencies[0].2.clone())
    } else {
        None
    }
}

/// The state of an ADR and the label of where it came from: without a
/// sidecar it is authored; with one it is copied, or modified when its
/// content no longer has the recorded subject digest. A sidecar that could
/// not be read counts as copied from an unknown source.
pub open spec fn adr_state_seq(sidecar: Option<Option<SidecarRecord>>, current: Seq<char>) -> (Seq<char>, Seq<char>) {
    match sidecar {
        None => ("authored"@, Seq::empty()),
        Some(None) => ("copied"@, Seq::empty()),
        Some(Some(r)) => {
            let source = if r.upstream_url@.len() == 0 { r.source@ } else { r.upstream_url@ };
            let modified = match subject_sha(r) {
                Some(s) => sha256_hex(current) != s,
                None => false,
            };
            (if modified { "modified"@ } else { "copied"@ }, shorten_source_seq(source).1)
        },
    }
}

/// Classifies an ADR (see `adr_state_seq`); `sidecar` is `None` without a
/// sidecar file and `Some(None)` for one that could not be parsed.
pub fn adr_state(sidecar: Option<Option<&SidecarRecord>>, current: &str) -> (r: (String, String))
    ensures
        (r.0@, r.1@) == adr_state_seq(
            match sidecar {
                None => None,
                Some(None) => Some(None),
                Some(Some(x)) => Some(Some(*x)),
            },
            current@,
        ),
{
    match sidecar {
        None => (String::from_str("authored"), String::new()),
        Some(None) => (String::from_str("copied"), String::new()),
        Some(Some(rec)) => {
            let adoption = parse_adoption(rec);
            let modified = match recorded_subject_sha(rec) {
                Some(sha) => !eq(
                    &chars_of(content_sha256(current).as_str()),
                    &chars_of(sha.as_str()),
                ),
                None => false,
            };
            let state = if modified {
                String::from_str("modified")
            } else {
                String::from_str("copied")
            };
            (state, adoption.source_label)
        },
    }
}

// ---------------------------------------------------------------------------
// Where a source sidecar lives

/// The places a source artifact's sidecar may be, in order of preference:
/// `<stem>.yaml`, `<file>.yaml`, and for a `SKILL.md` also `<skill dir>.yaml`,
/// all in the `.provenance` directory beside it.
pub open spec fn source_sidecar_candidates_seq(parent_dir: Seq<char>, source_path: Seq<char>) -> Option<Seq<Seq<char>>> {
    match file_name(source_path) {
        None => None,
        Some(f) => {
            let dir = join_path(parent_dir, ".provenance"@);
            let base = seq![join_path(dir, name_stem(f) + ".yaml"@), join_path(dir, f + ".yaml"@)];
            if f == "SKILL.md"@ {
                match parent(source_path) {
                    Some(p) => match file_name(p) {
                        Some(d) => Some(base.push(join_path(dir, d + ".yaml"@))),
                        None => Some(base),
                    },
                    None => Some(base),
                }
            } else {
                Some(base)
            }
        },
    }
}

/// Lists the candidate sidecar paths (see `source_sidecar_candidates_seq`);
/// the first existing one is the sidecar.
pub fn source_sidecar_candidates(parent_dir: &str, source_path: &str) -> (r: Option<Vec<String>>)
    ensures
        match r {
            Some(v) => source_sidecar_candidates_seq(parent_dir@, source_path@) == Some(views(v@)),
            None => source_sidecar_candidates_seq(parent_dir@, source_path@) is None,
        },
{
    let sp = chars_of(source_path);
    let f = match path_file_name(&sp) {
        Some(f) => f,
        None => {
            return None;
        },
    };
    let dir = path_join(&chars_of(parent_dir), &lit(".provenance"));
    let mut a = file_stem_of(&f);
    extend(&mut a, &lit(".yaml"));
    let mut b = f.clone();
    extend(&mut b, &lit(".yaml"));
    let mut out: Vec<String> = Vec::new();
    out.push(string_of(&path_join(&dir, &a)));
    out.push(string_of(&path_join(&dir, &b)));
    assert(views(out@) =~= seq![join_path(dir@, name_stem(f@) + ".yaml"@), join_path(dir@, f@ + ".yaml"@)]);
    if eq(&f, &lit("SKILL.md")) {
        match path_parent(&sp) {
            Some(p) => match path_file_name(&p) {
                Some(d) => {
                    let mut c = d.clone();
                    extend(&mut c, &lit(".yaml"));
                    let ghost before = views(out@);
                    let s = string_of(&path_join(&dir, &c));
                    out.push(s);
                    assert(views(out@) =~= before.push(s@));
                },
                None => {},
            },
            None => {},
        }
    }
    Some(out)
}

/// The warning for a sidecar whose name is not the canonical `<stem>.yaml`
/// of its artifact (empty when it is).
pub open spec fn sidecar_warning_seq(relative_path: Seq<char>, actual_name: Seq<char>) -> Seq<char> {
    let stem = match file_name(relative_path) {
        Some(f) => name_stem(f),
        None => Seq::empty(),
    };
    let canonical = stem + ".yaml"@;
    if actual_name == canonical {
        Seq::empty()
    } else {
        "non-canonical sidecar name '"@ + actual_name + "' (canonical is '"@ + canonical + "')"@
    }
}

/// Warns about a non-canonical sidecar name (see `sidecar_warning_seq`).
pub fn sidecar_name_warning(relative_path: &str, actual_name: &str) -> (r: String)
    ensures
        r@ == sidecar_warning_seq(relative_path@, actual_name@),
{
    let stem = match path_file_name(&chars_of(relative_path)) {
        Some(f) => file_stem_of(&f),
        None => Vec::new(),
    };
    let mut canonical = stem;
    extend(&mut canonical, &lit(".yaml"));
    let actual = chars_of(actual_name);
    if eq(&actual, &canonical) {
        String::new()
    } else {
        let mut w = lit("non-canonical sidecar name '");
        extend(&mut w, &actual);
        extend(&mut w, &lit("' (canonical is '"));
        extend(&mut w, &canonical);
        extend(&mut w, &lit("')"));
        string_of(&w)
    }
}

// ---------------------------------------------------------------------------
// Deployed status

/// The status of a deployed file: missing is new; content with the recorded
/// digest is unchanged, unless its source has moved on since (stale);
/// anything else was modified after deployment.
pub open spec fn deployed_status_seq(content: Option<Seq<char>>, recorded: Seq<char>, source_moved: bool) -> FileStatus {
    match content {
        None => FileStatus::New,
        Some(c) => if sha256_hex(c) == recorded {
            if source_moved {
                FileStatus::Stale
            } else {
                FileStatus::Unchanged
            }
        } else {
            FileStatus::Modified
        },
    }
}

/// Classifies a deployed file (see `deployed_status_seq`).
pub fn deployed_status(content: Option<&str>, recorded: &str, source_moved: bool) -> (r: FileStatus)
    ensures
        r == deployed_status_seq(
            match content {
                Some(c) => Some(c@),
                None => None,
            },
            recorded@,
            source_moved,
        ),
{
    match content {
        None => FileStatus::New,
        Some(c) => if eq(&chars_of(content_sha256(c).as_str()), &chars_of(recorded)) {
            if source_moved {
                FileStatus::Stale
            } else {
                FileStatus::Unchanged
            }
        } else {
            FileStatus::Modified
        },
    }
}

/// Counts one status into a summary (counts saturate at `usize::MAX`).
pub fn tally_status(summary: &mut StatusSummary, status: FileStatus)
    ensures
        final(summary).unchanged == if status == FileStatus::Unchanged && old(summary).unchanged < usize::MAX { (old(summary).unchanged + 1) as usize } else { old(summary).unchanged },
        final(summary).stale == if status == FileStatus::Stale && old(summary).stale < usize::MAX { (old(summary).stale + 1) as usize } else { old(summary).stale },
        final(summary).modified == if status == FileStatus::Modified && old(summary).modified < usize::MAX { (old(summary).modified + 1) as usize } else { old(summary).modified },
        final(summary).new == if status == FileStatus::New && old(summary).new < usize::MAX { (old(summary).new + 1) as usize } else { old(summary).new },
{
    match status {
        FileStatus::Unchanged => summary.unchanged = summary.unchanged.saturating_add(1),
        FileStatus::Stale => summary.stale = summary.stale.saturating_add(1),
        FileStatus::Modified => summary.modified = summary.modified.saturating_add(1),
        FileStatus::New => summary.new = summary.new.saturating_add(1),
    }
}

// ---------------------------------------------------------------------------
// ADR artifacts

/// The content read for an artifact: raw text, body and frontmatter fields.
#[derive(Debug, Clone)]
pub struct SourceContent {
    pub raw: String,
    pub body: String,
    pub metadata: Vec<(String, String)>,
}

/// An ADR shown as an artifact: named by its id, of kind `adr`, in its
/// repository's module, described by its title, with the content, history,
/// adoption and integrity findings gathered for it; ADRs are authored, so it
/// has no providers, companions or variants.
pub fn build_adr_artifact(
    adr: &Adr,
    content: SourceContent,
    sidecar_warning: String,
    git_log: Vec<GitCommit>,
    adoption: Option<Adoption>,
    broken_refs: Vec<String>,
    age_days: Option<i64>,
) -> (r: ArtifactView)
    ensures
        r.name@ == adr.id@,
        r.kind@ == "adr"@,
        r.module@ == adr.repo@,
        r.relative_path@ == adr.relative_path@,
        r.description@ == adr.title@,
        r.content_preview@.len() == 0,
        r.content_body@ == content.body@,
        r.raw_source@ == content.raw@,
        r.metadata@ == content.metadata@,
        r.providers@.len() == 0,
        r.git_log@ == git_log@,
        r.adoption == adoption,
        r.sidecar_warning@ == sidecar_warning@,
        r.broken_refs@ == broken_refs@,
        r.age_days == age_days,
        r.module_tint == 0,
        r.companions@.len() == 0,
        r.variants@.len() == 0,
        r.source_path@ == adr.relative_path@,
        r.vcs is None,
{
    ArtifactView {
        name: adr.id.clone(),
        kind: String::from_str("adr"),
        module: adr.repo.clone(),
        relative_path: adr.relative_path.clone(),
        source_path: adr.relative_path.clone(),
        description: adr.title.clone(),
        content_preview: String::new(),
        content_body: content.body,
        raw_source: content.raw,
        metadata: content.metadata,
        providers: Vec::new(),
        git_log,
        adoption,
        sidecar_warning,
        broken_refs,
        age_days,
        module_tint: 0,
        companions: Vec::new(),
        variants: Vec::new(),
        vcs: None,
    }
}

// ---------------------------------------------------------------------------
// Variants

/// A qualifier override found at `relative_path`: harness-level when
/// `model` is empty, else model-level (`provider/model`); its mode is the
/// `mode` frontmatter field, `replace` when absent.
pub fn variant_from(provider: &str, model: &str, relative_path: String, content: &str) -> (r: Variant)
    ensures
        r.qualifier@ == if model@.len() == 0 { provider@ } else { provider@ + "/"@ + model@ },
        r.provider@ == provider@,
        r.model@ == model@,
        r.relative_path@ == relative_path@,
        r.mode@ == if frontmatter_field(content@, "mode"@).len() == 0 {
            "replace"@
        } else {
            frontmatter_field(content@, "mode"@)
        },
{
    let field = extract_frontmatter_field(content, "mode");
    let mode = if char_count(field.as_str()) == 0 { String::from_str("replace") } else { field };
    let qualifier = if char_count(model) == 0 {
        String::from_str(provider)
    } else {
        let mut q = chars_of(provider);
        extend(&mut q, &lit("/"));
        extend(&mut q, &chars_of(model));
        string_of(&q)
    };
    Variant {
        qualifier,
        provider: String::from_str(provider),
        model: String::from_str(model),
        relative_path,
        mode,
    }
}

/// A deployed artifact is stale when the source input digest recorded at
/// deploy differs from the digest of the source as it is now; without a
/// recorded digest or a readable source it is not.
pub open spec fn stale_seq(recorded_input: Option<Seq<char>>, current_source: Option<Seq<char>>) -> bool {
    match (recorded_input, current_source) {
        (Some(r), Some(c)) => sha256_hex(c) != r,
        _ => false,
    }
}

/// Whether a deployed artifact is stale (see `stale_seq`); the caller reads
/// the sidecar's recorded digest and the current source file.
pub fn is_stale(recorded_input: Option<&str>, current_source: Option<&str>) -> (r: bool)
    ensures
        r == stale_seq(
            match recorded_input {
                Some(x) => Some(x@),
                None => None,
            },
            match current_source {
                Some(x) => Some(x@),
                None => None,
            },
        ),
{
    match (recorded_input, current_source) {
        (Some(recorded), Some(current)) => !eq(
            &chars_of(content_sha256(current).as_str()),
            &chars_of(recorded),
        ),
        _ => false,
    }
}

/// A deployed file edited since deployment (its digest differs from the
/// recorded one) is `Modified`, whatever its source did; `Stale` and
/// `Unchanged` both mean the file still has the recorded digest, and they
/// differ only in whether the source has moved on; a missing file is `New`.
pub proof fn lemma_edited_deployment_is_modified(content: Option<Seq<char>>, recorded: Seq<char>, source_moved: bool)
    ensures
        content is Some && sha256_hex(content->0) != recorded ==> deployed_status_seq(content, recorded, source_moved)
            == FileStatus::Modified,
        deployed_status_seq(content, recorded, source_moved) == FileStatus::Stale ==> source_moved && content is Some
            && sha256_hex(content->0) == recorded,
        deployed_status_seq(content, recorded, source_moved) == FileStatus::Unchanged ==> !source_moved && content is Some
            && sha256_hex(content->0) == recorded,
        (deployed_status_seq(content, recorded, source_moved) == FileStatus::New) == (content is None),
{
}

} // verus!
