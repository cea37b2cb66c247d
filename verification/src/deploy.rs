//! Deployment of assembled files into a provider's target directory: the
//! status of each file against the target and its `.manifest` record, what
//! is copied or skipped, the manifest update, and the files to prune.

use vstd::prelude::*;
use crate::text::{chars_of, eq, extend, has_prefix, lit, starts_with, string_of};
use crate::digest::{content_sha256, sha256_hex, FileStatus, ManifestEntry};
use crate::paths::{file_name, join_path, name_extension, path_file_name, extension_of, path_join, path_starts_with, starts_with_path};
use crate::result::{ActionResult, DeployedFile, SkipReason, SkippedFile};

verus! {

// ---------------------------------------------------------------------------
// The manifest

/// The manifest as a map from key (`<kind>/<path>`) to recorded digest; a
/// later entry for a key wins.
pub open spec fn manifest_map(v: Seq<(String, ManifestEntry)>) -> Map<Seq<char>, Seq<char>>
    decreases v.len(),
{
    if v.len() == 0 {
        Map::empty()
    } else {
        manifest_map(v.drop_last()).insert(v.last().0@, v.last().1.sha256@)
    }
}

proof fn lemma_manifest_update(v: Seq<(String, ManifestEntry)>, i: int, e: (String, ManifestEntry))
    requires
        0 <= i < v.len(),
        v[i].0@ == e.0@,
        forall|j: int| i < j < v.len() ==> (#[trigger] v[j]).0@ != e.0@,
    ensures
        manifest_map(v.update(i, e)) == manifest_map(v).insert(e.0@, e.1.sha256@),
    decreases v.len(),
{
    if i == v.len() - 1 {
        assert(v.update(i, e).drop_last() =~= v.drop_last());
        assert(manifest_map(v.update(i, e)) =~= manifest_map(v).insert(e.0@, e.1.sha256@));
    } else {
        lemma_manifest_update(v.drop_last(), i, e);
        assert(v.update(i, e).drop_last() =~= v.drop_last().update(i, e));
        assert(v.last().0@ != e.0@);
        assert(manifest_map(v.update(i, e)) =~= manifest_map(v).insert(e.0@, e.1.sha256@));
    }
}

proof fn lemma_manifest_absent(v: Seq<(String, ManifestEntry)>, k: Seq<char>)
    requires
        forall|j: int| 0 <= j < v.len() ==> (#[trigger] v[j]).0@ != k,
    ensures
        !manifest_map(v).contains_key(k),
    decreases v.len(),
{
    if v.len() > 0 {
        lemma_manifest_absent(v.drop_last(), k);
    }
}

/// The digest recorded for a key, if any.
pub fn manifest_get(v: &Vec<(String, ManifestEntry)>, key: &[char]) -> (r: Option<String>)
    ensures
        match r {
            Some(s) => manifest_map(v@).contains_key(key@) && manifest_map(v@)[key@] == s@,
            None => !manifest_map(v@).contains_key(key@),
        },
{
    let mut i: usize = v.len();
    while i > 0
        invariant
            i <= v.len(),
            forall|j: int| i <= j < v.len() ==> (#[trigger] v@[j]).0@ != key@,
        decreases i,
    {
        i = i - 1;
        if eq(&chars_of(v[i].0.as_str()), key) {
            proof {
                lemma_manifest_lookup(v@, i as int, key@);
            }
            return Some(v[i].1.sha256.clone());
        }
    }
    proof {
        lemma_manifest_absent(v@, key@);
    }
    None
}

proof fn lemma_manifest_lookup(v: Seq<(String, ManifestEntry)>, i: int, k: Seq<char>)
    requires
        0 <= i < v.len(),
        v[i].0@ == k,
        forall|j: int| i < j < v.len() ==> (#[trigger] v[j]).0@ != k,
    ensures
        manifest_map(v).contains_key(k),
        manifest_map(v)[k] == v[i].1.sha256@,
    decreases v.len(),
{
    if i < v.len() - 1 {
        lemma_manifest_lookup(v.drop_last(), i, k);
    }
}

/// Records a digest for a key: the key's entry is replaced, or a new entry
/// appended.
pub fn manifest_set(v: &mut Vec<(String, ManifestEntry)>, key: String, sha256: String)
    ensures
        manifest_map(final(v)@) == manifest_map(old(v)@).insert(key@, sha256@),
{
    let k = chars_of(key.as_str());
    let mut i: usize = v.len();
    while i > 0
        invariant
            i <= v.len(),
            v@ == old(v)@,
            k@ == key@,
            forall|j: int| i <= j < v.len() ==> (#[trigger] v@[j]).0@ != key@,
        decreases i,
    {
        i = i - 1;
        if eq(&chars_of(v[i].0.as_str()), &k) {
            let e = (key, ManifestEntry { sha256 });
            proof {
                lemma_manifest_update(v@, i as int, e);
            }
            v.set(i, e);
            return;
        }
    }
    let e = (key, ManifestEntry { sha256 });
    v.push(e);
    proof {
        assert(v@.drop_last() =~= old(v)@);
    }
}

// ---------------------------------------------------------------------------
// One file

/// The status of a built file against its target: no target file is new; a
/// target edited since its recorded digest (or unrecorded and different) is
/// modified; a target matching a record that differs from the build is
/// stale; otherwise it is unchanged.
pub open spec fn status_of(
    target_content: Option<Seq<char>>,
    recorded: Option<Seq<char>>,
    build_sha: Seq<char>,
) -> FileStatus {
    match target_content {
        None => FileStatus::New,
        Some(c) => {
            let current = sha256_hex(c);
            match recorded {
                Some(r) => if current != r {
                    FileStatus::Modified
                } else if r == build_sha {
                    FileStatus::Unchanged
                } else {
                    FileStatus::Stale
                },
                None => if current == build_sha {
                    FileStatus::Unchanged
                } else {
                    FileStatus::Modified
                },
            }
        },
    }
}

/// A built file is copied when new or stale, or when modified and forced.
pub open spec fn copies(s: FileStatus, force: bool) -> bool {
    s == FileStatus::New || s == FileStatus::Stale || (s == FileStatus::Modified && force)
}

/// A built file found in `build/<provider>/<kind>/`.
#[derive(Debug, Clone)]
pub struct BuildFile {
    pub kind: String,
    /// The path below the kind directory.
    pub relative: String,
    pub build_path: String,
    pub content: String,
    /// The current target file's content, if it exists.
    pub target_content: Option<String>,
}

/// What deploying one file does.
#[derive(Debug, Clone)]
pub struct FilePlan {
    pub key: String,
    pub build_path: String,
    pub target_path: String,
    pub status: FileStatus,
    /// Whether the build file is copied over the target.
    pub copy: bool,
}

/// Sidecars (`.yaml`) travel with their files and are not deployed as
/// files of their own.
pub open spec fn is_sidecar(build_path: Seq<char>) -> bool {
    match file_name(build_path) {
        Some(f) => name_extension(f) == Some("yaml"@),
        None => false,
    }
}

/// The views of an optional string.
pub open spec fn opt_view(o: Option<String>) -> Option<Seq<char>> {
    match o {
        Some(s) => Some(s@),
        None => None,
    }
}

/// The plan for one file given the manifest so far.
pub open spec fn plan_matches(
    p: FilePlan,
    f: BuildFile,
    m: Map<Seq<char>, Seq<char>>,
    target_base: Seq<char>,
    force: bool,
) -> bool {
    let key = f.kind@ + "/"@ + f.relative@;
    let recorded = if m.contains_key(key) { Some(m[key]) } else { None };
    let s = status_of(opt_view(f.target_content), recorded, sha256_hex(f.content@));
    &&& p.key@ == key
    &&& p.build_path@ == f.build_path@
    &&& p.target_path@ == join_path(join_path(target_base, f.kind@), f.relative@)
    &&& p.status == s
    &&& p.copy == copies(s, force)
}

/// The manifest after deploying one file: the build digest is recorded
/// unless a modified target was left alone.
pub open spec fn manifest_after_one(
    f: BuildFile,
    m: Map<Seq<char>, Seq<char>>,
    force: bool,
) -> Map<Seq<char>, Seq<char>> {
    let key = f.kind@ + "/"@ + f.relative@;
    let recorded = if m.contains_key(key) { Some(m[key]) } else { None };
    let s = status_of(opt_view(f.target_content), recorded, sha256_hex(f.content@));
    if s == FileStatus::Modified && !force {
        m
    } else {
        m.insert(key, sha256_hex(f.content@))
    }
}

/// The files deployed (sidecars left out), in order.
pub open spec fn deployable(files: Seq<BuildFile>) -> Seq<BuildFile>
    decreases files.len(),
{
    if files.len() == 0 {
        Seq::empty()
    } else if is_sidecar(files.last().build_path@) {
        deployable(files.drop_last())
    } else {
        deployable(files.drop_last()).push(files.last())
    }
}

/// The manifest after deploying files in order.
pub open spec fn manifest_after(files: Seq<BuildFile>, m: Map<Seq<char>, Seq<char>>, force: bool) -> Map<
    Seq<char>,
    Seq<char>,
>
    decreases files.len(),
{
    if files.len() == 0 {
        m
    } else {
        manifest_after_one(files.last(), manifest_after(files.drop_last(), m, force), force)
    }
}

fn plan_one(
    f: &BuildFile,
    manifest: &mut Vec<(String, ManifestEntry)>,
    target_base: &str,
    force: bool,
) -> (p: FilePlan)
    ensures
        plan_matches(p, *f, manifest_map(old(manifest)@), target_base@, force),
        manifest_map(final(manifest)@) == manifest_after_one(*f, manifest_map(old(manifest)@), force),
{
    let mut key = chars_of(f.kind.as_str());
    extend(&mut key, &lit("/"));
    extend(&mut key, &chars_of(f.relative.as_str()));
    let kind_dir = path_join(&chars_of(target_base), &chars_of(f.kind.as_str()));
    let target_path = string_of(&path_join(&kind_dir, &chars_of(f.relative.as_str())));
    let build_sha = content_sha256(f.content.as_str());
    let recorded = manifest_get(manifest, &key);
    let status = match &f.target_content {
        None => FileStatus::New,
        Some(c) => {
            let current = chars_of(content_sha256(c.as_str()).as_str());
            match &recorded {
                Some(r) => {
                    let rc = chars_of(r.as_str());
                    if !eq(&current, &rc) {
                        FileStatus::Modified
                    } else if eq(&rc, &chars_of(build_sha.as_str())) {
                        FileStatus::Unchanged
                    } else {
                        FileStatus::Stale
                    }
                },
                None => if eq(&current, &chars_of(build_sha.as_str())) {
                    FileStatus::Unchanged
                } else {
                    FileStatus::Modified
                },
            }
        },
    };
    let copy = match status {
        FileStatus::New | FileStatus::Stale => true,
        FileStatus::Modified => force,
        FileStatus::Unchanged => false,
    };
    let keep_record = !(match status {
        FileStatus::Modified => !force,
        _ => false,
    });
    let key_string = string_of(&key);
    if keep_record {
        manifest_set(manifest, key_string.clone(), build_sha);
    }
    FilePlan { key: key_string, build_path: f.build_path.clone(), target_path, status, copy }
}

fn sidecar_file(build_path: &str) -> (r: bool)
    ensures
        r == is_sidecar(build_path@),
{
    match path_file_name(&chars_of(build_path)) {
        Some(f) => match extension_of(&f) {
            Some(e) => eq(&e, &lit("yaml")),
            None => false,
        },
        None => false,
    }
}

/// Plans the deployment of a provider's built files, in order: sidecars are
/// skipped; each other file gets its status, target path and whether it is
/// copied, and the manifest is updated as each file is handled.
pub fn plan_provider(
    files: &[BuildFile],
    manifest: &mut Vec<(String, ManifestEntry)>,
    target_base: &str,
    force: bool,
) -> (r: Vec<FilePlan>)
    ensures
        r@.len() == deployable(files@).len(),
        forall|i: int|
            0 <= i < r@.len() ==> plan_matches(
                #[trigger] r@[i],
                deployable(files@)[i],
                manifest_after(deployable(files@).take(i), manifest_map(old(manifest)@), force),
                target_base@,
                force,
            ),
        manifest_map(final(manifest)@) == manifest_after(deployable(files@), manifest_map(old(manifest)@), force),
{
    let ghost m0 = manifest_map(manifest@);
    let mut r: Vec<FilePlan> = Vec::new();
    let mut i: usize = 0;
    while i < files.len()
        invariant
            i <= files.len(),
            m0 == manifest_map(old(manifest)@),
            r@.len() == deployable(files@.take(i as int)).len(),
            forall|k: int|
                0 <= k < r@.len() ==> plan_matches(
                    #[trigger] r@[k],
                    deployable(files@.take(i as int))[k],
                    manifest_after(deployable(files@.take(i as int)).take(k), m0, force),
                    target_base@,
                    force,
                ),
            manifest_map(manifest@) == manifest_after(deployable(files@.take(i as int)), m0, force),
        decreases files.len() - i,
    {
        let f = &files[i];
        let ghost pre = deployable(files@.take(i as int));
        proof {
            assert(files@.take(i + 1).drop_last() =~= files@.take(i as int));
            assert(files@.take(i + 1).last() == *f);
        }
        if !sidecar_file(f.build_path.as_str()) {
            let p = plan_one(f, manifest, target_base, force);
            r.push(p);
            proof {
                let post = deployable(files@.take(i + 1));
                assert(post == pre.push(*f));
                assert(post.take(pre.len() as int) =~= pre);
                assert(post.drop_last() =~= pre);
                assert forall|k: int| 0 <= k < r@.len() implies plan_matches(
                    #[trigger] r@[k],
                    post[k],
                    manifest_after(post.take(k), m0, force),
                    target_base@,
                    force,
                ) by {
                    if k < pre.len() {
                        assert(post[k] == pre[k]);
                        assert(post.take(k) =~= pre.take(k));
                    } else {
                        assert(post.take(k) =~= pre);
                    }
                }
            }
        }
        i = i + 1;
    }
    assert(files@.take(files.len() as int) =~= files@);
    r
}

/// A deployed file as (source, target, provider).
pub open spec fn deployed_view(d: DeployedFile) -> (Seq<char>, Seq<char>, Seq<char>) {
    (d.source@, d.target@, d.provider@)
}

/// A skipped file as (target, provider, reason).
pub open spec fn skipped_view(s: SkippedFile) -> (Seq<char>, Seq<char>, SkipReason) {
    (s.target@, s.provider@, s.reason)
}

/// The installed records of the copied plans, in order.
pub open spec fn installed_from(plans: Seq<FilePlan>, provider: Seq<char>) -> Seq<(Seq<char>, Seq<char>, Seq<char>)>
    decreases plans.len(),
{
    if plans.len() == 0 {
        Seq::empty()
    } else {
        let prev = installed_from(plans.drop_last(), provider);
        let p = plans.last();
        if p.copy {
            prev.push((p.build_path@, p.target_path@, provider))
        } else {
            prev
        }
    }
}

/// The skip records of the plans not copied, in order: a modified target
/// was edited by the user, anything else is unchanged.
pub open spec fn skipped_from(plans: Seq<FilePlan>, provider: Seq<char>) -> Seq<(Seq<char>, Seq<char>, SkipReason)>
    decreases plans.len(),
{
    if plans.len() == 0 {
        Seq::empty()
    } else {
        let prev = skipped_from(plans.drop_last(), provider);
        let p = plans.last();
        if p.copy {
            prev
        } else {
            prev.push(
                (
                    p.target_path@,
                    provider,
                    if p.status == FileStatus::Modified {
                        SkipReason::UserModified
                    } else {
                        SkipReason::Unchanged
                    },
                ),
            )
        }
    }
}

/// Turns plans into the action's records: copied files are installed, the
/// others skipped as unchanged or as modified by the user.
pub fn record_plans(plans: &[FilePlan], provider: &str, result: &mut ActionResult)
    ensures
        final(result).errors@ == old(result).errors@,
        final(result).installed@.map_values(|d: DeployedFile| deployed_view(d)) == old(
            result,
        ).installed@.map_values(|d: DeployedFile| deployed_view(d)) + installed_from(plans@, provider@),
        final(result).skipped@.map_values(|s: SkippedFile| skipped_view(s)) == old(
            result,
        ).skipped@.map_values(|s: SkippedFile| skipped_view(s)) + skipped_from(plans@, provider@),
{
    let ghost i0 = result.installed@.map_values(|d: DeployedFile| deployed_view(d));
    let ghost s0 = result.skipped@.map_values(|s: SkippedFile| skipped_view(s));
    let mut i: usize = 0;
    while i < plans.len()
        invariant
            i <= plans.len(),
            result.errors@ == old(result).errors@,
            i0 == old(result).installed@.map_values(|d: DeployedFile| deployed_view(d)),
            s0 == old(result).skipped@.map_values(|s: SkippedFile| skipped_view(s)),
            result.installed@.map_values(|d: DeployedFile| deployed_view(d)) == i0 + installed_from(
                plans@.take(i as int),
                provider@,
            ),
            result.skipped@.map_values(|s: SkippedFile| skipped_view(s)) == s0 + skipped_from(
                plans@.take(i as int),
                provider@,
            ),
        decreases plans.len() - i,
    {
        proof {
            assert(plans@.take(i + 1).drop_last() =~= plans@.take(i as int));
            assert(plans@.take(i + 1).last() == plans@[i as int]);
        }
        let p = &plans[i];
        let ghost ib = result.installed@.map_values(|d: DeployedFile| deployed_view(d));
        let ghost sb = result.skipped@.map_values(|s: SkippedFile| skipped_view(s));
        if p.copy {
            let d = DeployedFile {
                source: p.build_path.clone(),
                target: p.target_path.clone(),
                provider: String::from_str(provider),
            };
            result.installed.push(d);
            assert(result.installed@.map_values(|d: DeployedFile| deployed_view(d)) =~= ib.push(
                deployed_view(d),
            ));
            assert(result.skipped@.map_values(|s: SkippedFile| skipped_view(s)) =~= sb);
        } else {
            let reason = match p.status {
                FileStatus::Modified => SkipReason::UserModified,
                _ => SkipReason::Unchanged,
            };
            let sk = SkippedFile {
                target: p.target_path.clone(),
                provider: String::from_str(provider),
                reason,
            };
            result.skipped.push(sk);
            assert(result.skipped@.map_values(|s: SkippedFile| skipped_view(s)) =~= sb.push(
                skipped_view(sk),
            ));
            assert(result.installed@.map_values(|d: DeployedFile| deployed_view(d)) =~= ib);
        }
        i = i + 1;
    }
    assert(plans@.take(plans.len() as int) =~= plans@);
}

// ---------------------------------------------------------------------------
// Pruning and the target boundary

/// A manifest key under one of the content kinds.
pub open spec fn content_key(k: Seq<char>) -> bool {
    has_prefix(k, "agents/"@) || has_prefix(k, "skills/"@) || has_prefix(k, "rules/"@)
}

/// The manifest keys not deployed this time, under a content kind, in
/// manifest order, each once: the files `--prune` removes.
pub fn stale_keys(manifest: &Vec<(String, ManifestEntry)>, deployed: &[String]) -> (r: Vec<String>)
    ensures
        crate::order::views(r@).no_duplicates(),
        forall|i: int|
            0 <= i < r@.len() ==> content_key(#[trigger] r@[i]@) && !crate::order::views(deployed@).contains(
                r@[i]@,
            ) && manifest_map(manifest@).contains_key(r@[i]@),
        forall|j: int|
            0 <= j < manifest@.len() && content_key(manifest@[j].0@) && !crate::order::views(
                deployed@,
            ).contains(#[trigger] manifest@[j].0@) ==> crate::order::views(r@).contains(manifest@[j].0@),
{
    let mut r: Vec<String> = Vec::new();
    let mut j: usize = 0;
    while j < manifest.len()
        invariant
            j <= manifest.len(),
            crate::order::views(r@).no_duplicates(),
            forall|i: int|
                0 <= i < r@.len() ==> content_key(#[trigger] r@[i]@) && !crate::order::views(
                    deployed@,
                ).contains(r@[i]@) && manifest_map(manifest@).contains_key(r@[i]@),
            forall|x: int|
                0 <= x < j && content_key(manifest@[x].0@) && !crate::order::views(deployed@).contains(
                    #[trigger] manifest@[x].0@,
                ) ==> crate::order::views(r@).contains(manifest@[x].0@),
        decreases manifest.len() - j,
    {
        let k = chars_of(manifest[j].0.as_str());
        let is_content = starts_with(&k, &lit("agents/")) || starts_with(&k, &lit("skills/"))
            || starts_with(&k, &lit("rules/"));
        if is_content && !crate::drift::contains_string(deployed, &k) && !crate::drift::contains_string(&r, &k) {
            proof {
                lemma_manifest_has_key(manifest@, j as int);
            }
            let ghost before = r@;
            r.push(manifest[j].0.clone());
            proof {
                assert(crate::order::views(r@) =~= crate::order::views(before).push(manifest@[j as int].0@));
                assert forall|x: int|
                    0 <= x < j + 1 && content_key(manifest@[x].0@) && !crate::order::views(
                        deployed@,
                    ).contains(#[trigger] manifest@[x].0@) implies crate::order::views(r@).contains(
                    manifest@[x].0@,
                ) by {
                    if x < j {
                        let q = choose|q: int| 0 <= q < crate::order::views(before).len() && crate::order::views(before)[q] == manifest@[x].0@;
                        assert(crate::order::views(r@)[q] == manifest@[x].0@);
                    } else {
                        assert(crate::order::views(r@)[before.len() as int] == manifest@[x].0@);
                    }
                }
            }
        }
        j = j + 1;
    }
    r
}

proof fn lemma_manifest_has_key(v: Seq<(String, ManifestEntry)>, j: int)
    requires
        0 <= j < v.len(),
    ensures
        manifest_map(v).contains_key(v[j].0@),
    decreases v.len(),
{
    if j < v.len() - 1 {
        lemma_manifest_has_key(v.drop_last(), j);
    }
}

/// The error for a target outside the chosen base directory.
pub open spec fn boundary_error(target: Seq<char>, base: Seq<char>) -> Seq<char> {
    "target path escapes base directory: "@ + target + " resolves outside "@ + base
}

/// Checks that a resolved target lies within the resolved base directory
/// (component-wise); otherwise the error names both.
pub fn validate_target_boundary(target_path: &str, resolved_target: &str, resolved_base: &str) -> (r: Result<(), String>)
    ensures
        path_starts_with(resolved_target@, resolved_base@) <==> r is Ok,
        r matches Err(e) ==> e@ == boundary_error(target_path@, resolved_base@),
{
    if starts_with_path(&chars_of(resolved_target), &chars_of(resolved_base)) {
        Ok(())
    } else {
        let mut e = lit("target path escapes base directory: ");
        extend(&mut e, &chars_of(target_path));
        extend(&mut e, &lit(" resolves outside "));
        extend(&mut e, &chars_of(resolved_base));
        Err(string_of(&e))
    }
}

// ---------------------------------------------------------------------------
// Laws

/// Without `force`, a target edited since it was deployed is never
/// overwritten, and its manifest record is left as it was.
pub proof fn lemma_modified_target_kept(
    p: FilePlan,
    f: BuildFile,
    m: Map<Seq<char>, Seq<char>>,
    target_base: Seq<char>,
)
    requires
        plan_matches(p, f, m, target_base, false),
        p.status == FileStatus::Modified,
    ensures
        !p.copy,
        manifest_after_one(f, m, false) == m,
{
}

/// A target that already holds the built content is not copied again unless
/// forced (it is modified only when the manifest recorded another digest),
/// and when unchanged the manifest records the build's digest for it.
pub proof fn lemma_unchanged_not_copied(
    p: FilePlan,
    f: BuildFile,
    m: Map<Seq<char>, Seq<char>>,
    target_base: Seq<char>,
    force: bool,
)
    requires
        plan_matches(p, f, m, target_base, force),
        f.target_content == Some(f.content),
    ensures
        p.status == FileStatus::Unchanged || p.status == FileStatus::Modified,
        !force ==> !p.copy,
        p.status == FileStatus::Unchanged ==> manifest_after_one(f, m, force)[p.key@] == sha256_hex(
            f.content@,
        ),
{
    let key = f.kind@ + "/"@ + f.relative@;
    assert(opt_view(f.target_content) == Some(f.content@));
    if m.contains_key(key) && m[key] != sha256_hex(f.content@) {
        assert(p.status == FileStatus::Modified);
    }
}

/// Deploying is idempotent: once a file has been copied and the manifest
/// updated, planning the same build again, against the copied target and
/// that manifest, finds the file unchanged and copies nothing.
pub proof fn lemma_redeploy_unchanged(
    p: FilePlan,
    f: BuildFile,
    m: Map<Seq<char>, Seq<char>>,
    target_base: Seq<char>,
    force: bool,
    again: FilePlan,
    deployed: BuildFile,
)
    requires
        plan_matches(p, f, m, target_base, force),
        p.copy,
        deployed == (BuildFile { target_content: Some(f.content), ..f }),
        plan_matches(again, deployed, manifest_after_one(f, m, force), target_base, false),
    ensures
        again.status == FileStatus::Unchanged,
        !again.copy,
{
    let key = f.kind@ + "/"@ + f.relative@;
    assert(manifest_after_one(f, m, force).contains_key(key));
    assert(manifest_after_one(f, m, force)[key] == sha256_hex(f.content@));
    assert(opt_view(deployed.target_content) == Some(f.content@));
}

} // verus!
