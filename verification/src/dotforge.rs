//! The `.forge` consumer manifest: which source modules to read and which
//! of their artifacts to take, its validation, and the merge of the files
//! gathered from each source.

use vstd::prelude::*;
use crate::text::{chars_of, eq, extend, lit, string_of};
use crate::assemble::SourceFile;
use crate::order::views;

verus! {

/// The manifest schema version this library understands.
pub const SCHEMA_VERSION: u32 = 1;

/// Where a source module lives.
#[derive(Debug, Clone)]
pub enum Source {
    /// A module on the local disk.
    Local { path: String },
}

/// The artifacts requested from one source, by kind.
#[derive(Debug, Clone)]
pub struct ArtifactList {
    pub skills: Vec<String>,
    pub agents: Vec<String>,
    pub rules: Vec<String>,
}

impl ArtifactList {
    /// Whether nothing is requested.
    pub fn is_empty(&self) -> (r: bool)
        ensures
            r == (self.skills@.len() == 0 && self.agents@.len() == 0 && self.rules@.len() == 0),
    {
        self.skills.is_empty() && self.agents.is_empty() && self.rules.is_empty()
    }
}

/// A parsed `.forge` manifest; sources and artifact lists are keyed by
/// source label, in label order.
#[derive(Debug, Clone)]
pub struct DotForge {
    pub version: u32,
    pub sources: Vec<(String, Source)>,
    pub artifacts: Vec<(String, ArtifactList)>,
}

/// The decimal digits of a number.
pub open spec fn decimal_seq(n: nat) -> Seq<char>
    decreases n,
{
    if n < 10 {
        seq![digit_char(n)]
    } else {
        decimal_seq(n / 10).push(digit_char(n % 10))
    }
}

/// The character of a digit.
pub open spec fn digit_char(d: nat) -> char {
    if d == 0 {
        '0'
    } else if d == 1 {
        '1'
    } else if d == 2 {
        '2'
    } else if d == 3 {
        '3'
    } else if d == 4 {
        '4'
    } else if d == 5 {
        '5'
    } else if d == 6 {
        '6'
    } else if d == 7 {
        '7'
    } else if d == 8 {
        '8'
    } else {
        '9'
    }
}

fn digit_of(d: u64) -> (c: char)
    requires
        d < 10,
    ensures
        c == digit_char(d as nat),
{
    if d == 0 {
        '0'
    } else if d == 1 {
        '1'
    } else if d == 2 {
        '2'
    } else if d == 3 {
        '3'
    } else if d == 4 {
        '4'
    } else if d == 5 {
        '5'
    } else if d == 6 {
        '6'
    } else if d == 7 {
        '7'
    } else if d == 8 {
        '8'
    } else {
        '9'
    }
}

/// Writes a number in decimal.
pub fn decimal(n: u64) -> (r: Vec<char>)
    ensures
        r@ == decimal_seq(n as nat),
    decreases n,
{
    if n < 10 {
        vec![digit_of(n)]
    } else {
        let mut r = decimal(n / 10);
        r.push(digit_of(n % 10));
        r
    }
}

/// The label of the first artifact list (in label order) whose source is
/// not declared.
pub open spec fn first_undeclared(artifacts: Seq<(String, ArtifactList)>, sources: Seq<(String, Source)>) -> Option<Seq<char>>
    decreases artifacts.len(),
{
    if artifacts.len() == 0 {
        None
    } else if !(exists|j: int| 0 <= j < sources.len() && (#[trigger] sources[j]).0@ == artifacts[0].0@) {
        Some(artifacts[0].0@)
    } else {
        first_undeclared(artifacts.drop_first(), sources)
    }
}

/// The error for an unsupported schema version.
pub open spec fn version_error(v: nat) -> Seq<char> {
    ".forge: schema version "@ + decimal_seq(v) + " is not supported (this build only understands version 1)"@
}

/// The error for an artifact list without a source.
pub open spec fn undeclared_error(label: Seq<char>) -> Seq<char> {
    ".forge: artifacts entry '"@ + label + "' has no matching `sources` entry"@
}

fn declared(sources: &Vec<(String, Source)>, label: &[char]) -> (r: bool)
    ensures
        r == exists|j: int| 0 <= j < sources@.len() && (#[trigger] sources@[j]).0@ == label@,
{
    let mut j: usize = 0;
    while j < sources.len()
        invariant
            j <= sources.len(),
            forall|x: int| 0 <= x < j ==> (#[trigger] sources@[x]).0@ != label@,
        decreases sources.len() - j,
    {
        if eq(&chars_of(sources[j].0.as_str()), label) {
            return true;
        }
        j = j + 1;
    }
    false
}

/// Checks a parsed manifest: the schema version must be the supported one,
/// and every artifact list must name a declared source.
pub fn check_manifest(manifest: DotForge) -> (r: Result<DotForge, String>)
    ensures
        manifest.version != SCHEMA_VERSION ==> (r matches Err(e) && e@ == version_error(manifest.version as nat)),
        manifest.version == SCHEMA_VERSION ==> (match first_undeclared(manifest.artifacts@, manifest.sources@) {
            Some(label) => r matches Err(e) && e@ == undeclared_error(label),
            None => r matches Ok(m) && m.version == manifest.version && m.sources@ == manifest.sources@
                && m.artifacts@ == manifest.artifacts@,
        }),
{
    if manifest.version != SCHEMA_VERSION {
        let mut e = lit(".forge: schema version ");
        extend(&mut e, &decimal(manifest.version as u64));
        extend(&mut e, &lit(" is not supported (this build only understands version 1)"));
        return Err(string_of(&e));
    }
    let mut i: usize = 0;
    assert(manifest.artifacts@.skip(0) =~= manifest.artifacts@);
    while i < manifest.artifacts.len()
        invariant
            i <= manifest.artifacts.len(),
            manifest.version == SCHEMA_VERSION,
            first_undeclared(manifest.artifacts@.skip(i as int), manifest.sources@) == first_undeclared(
                manifest.artifacts@,
                manifest.sources@,
            ),
        decreases manifest.artifacts.len() - i,
    {
        proof {
            assert(manifest.artifacts@.skip(i as int)[0] == manifest.artifacts@[i as int]);
            assert(manifest.artifacts@.skip(i as int).drop_first() =~= manifest.artifacts@.skip(i + 1));
        }
        let label = chars_of(manifest.artifacts[i].0.as_str());
        if !declared(&manifest.sources, &label) {
            let mut e = lit(".forge: artifacts entry '");
            extend(&mut e, &label);
            extend(&mut e, &lit("' has no matching `sources` entry"));
            return Err(string_of(&e));
        }
        i = i + 1;
    }
    assert(manifest.artifacts@.skip(i as int).len() == 0);
    Ok(manifest)
}

/// The artifact list a manifest gives for a source label (the first one).
pub open spec fn list_for(artifacts: Seq<(String, ArtifactList)>, label: Seq<char>) -> Option<ArtifactList>
    decreases artifacts.len(),
{
    if artifacts.len() == 0 {
        None
    } else if artifacts[0].0@ == label {
        Some(artifacts[0].1)
    } else {
        list_for(artifacts.drop_first(), label)
    }
}

/// A source is read when its list requests something.
pub open spec fn wanted(a: Option<ArtifactList>) -> bool {
    match a {
        Some(l) => !(l.skills@.len() == 0 && l.agents@.len() == 0 && l.rules@.len() == 0),
        None => false,
    }
}

/// The positions of the sources to read, in label order: those with a
/// non-empty artifact list.
pub open spec fn sources_read(m: DotForge, n: int) -> Seq<int>
    decreases n,
{
    if n <= 0 {
        Seq::empty()
    } else if wanted(list_for(m.artifacts@, m.sources@[n - 1].0@)) {
        sources_read(m, n - 1).push(n - 1)
    } else {
        sources_read(m, n - 1)
    }
}

fn list_of<'a>(artifacts: &'a Vec<(String, ArtifactList)>, label: &[char]) -> (r: Option<&'a ArtifactList>)
    ensures
        match r {
            Some(l) => list_for(artifacts@, label@) == Some(*l),
            None => list_for(artifacts@, label@) is None,
        },
{
    let mut i: usize = 0;
    assert(artifacts@.skip(0) =~= artifacts@);
    while i < artifacts.len()
        invariant
            i <= artifacts.len(),
            list_for(artifacts@.skip(i as int), label@) == list_for(artifacts@, label@),
        decreases artifacts.len() - i,
    {
        proof {
            assert(artifacts@.skip(i as int)[0] == artifacts@[i as int]);
            assert(artifacts@.skip(i as int).drop_first() =~= artifacts@.skip(i + 1));
        }
        if eq(&chars_of(artifacts[i].0.as_str()), label) {
            return Some(&artifacts[i].1);
        }
        i = i + 1;
    }
    assert(artifacts@.skip(i as int).len() == 0);
    None
}

/// The sources to read, with their requested artifacts, in label order:
/// sources without a list, or with an empty one, are skipped.
pub fn sources_to_read<'a>(manifest: &'a DotForge) -> (r: Vec<(usize, &'a ArtifactList)>)
    ensures
        r@.len() == sources_read(*manifest, manifest.sources@.len() as int).len(),
        forall|k: int|
            0 <= k < r@.len() ==> (#[trigger] r@[k]).0 == sources_read(*manifest, manifest.sources@.len() as int)[k]
                && list_for(manifest.artifacts@, manifest.sources@[r@[k].0 as int].0@) == Some(*r@[k].1),
{
    let mut r: Vec<(usize, &'a ArtifactList)> = Vec::new();
    let mut i: usize = 0;
    while i < manifest.sources.len()
        invariant
            i <= manifest.sources.len(),
            r@.len() == sources_read(*manifest, i as int).len(),
            forall|k: int|
                0 <= k < r@.len() ==> (#[trigger] r@[k]).0 == sources_read(*manifest, i as int)[k]
                    && list_for(manifest.artifacts@, manifest.sources@[r@[k].0 as int].0@) == Some(*r@[k].1),
        decreases manifest.sources.len() - i,
    {
        match list_of(&manifest.artifacts, &chars_of(manifest.sources[i].0.as_str())) {
            Some(list) => {
                if !list.is_empty() {
                    r.push((i, list));
                }
            },
            None => {},
        }
        i = i + 1;
    }
    r
}

/// Some earlier file has the same relative path as file `j`.
pub open spec fn repeats(files: Seq<SourceFile>, j: int) -> bool {
    exists|i: int| 0 <= i < j && (#[trigger] files[i]).relative_path@ == files[j].relative_path@
}

/// The first file whose path was already requested.
pub open spec fn first_repeat(files: Seq<SourceFile>) -> Option<int> {
    if exists|j: int| 0 <= j < files.len() && repeats(files, j) {
        Some(choose|j: int| 0 <= j < files.len() && repeats(files, j) && forall|k: int| 0 <= k < j ==> !repeats(files, k))
    } else {
        None
    }
}

/// Accepts the files gathered from the sources, in order, unless one path
/// was requested from two sources: then the first repeated path is
/// reported.
pub fn resolve_sources(files: Vec<SourceFile>) -> (r: Result<Vec<SourceFile>, String>)
    ensures
        match first_repeat(files@) {
            None => r matches Ok(v) && v@ == files@,
            Some(j) => r matches Err(e) && e@ == ".forge: artifact "@ + files@[j].relative_path@ + " requested from more than one source"@,
        },
{
    let mut j: usize = 0;
    while j < files.len()
        invariant
            j <= files.len(),
            forall|k: int| 0 <= k < j ==> !repeats(files@, k),
        decreases files.len() - j,
    {
        let p = chars_of(files[j].relative_path.as_str());
        let mut i: usize = 0;
        while i < j
            invariant
                i <= j < files.len(),
                p@ == files@[j as int].relative_path@,
                forall|k: int| 0 <= k < j ==> !repeats(files@, k),
                forall|x: int| 0 <= x < i ==> (#[trigger] files@[x]).relative_path@ != p@,
            decreases j - i,
        {
            if eq(&chars_of(files[i].relative_path.as_str()), &p) {
                proof {
                    assert(repeats(files@, j as int));
                    lemma_first_repeat_is(files@, j as int);
                }
                let mut e = lit(".forge: artifact ");
                extend(&mut e, &p);
                extend(&mut e, &lit(" requested from more than one source"));
                return Err(string_of(&e));
            }
            i = i + 1;
        }
        proof {
            assert(!repeats(files@, j as int));
        }
        j = j + 1;
    }
    proof {
        lemma_no_repeat(files@);
    }
    Ok(files)
}

proof fn lemma_first_repeat_is(files: Seq<SourceFile>, j: int)
    requires
        0 <= j < files.len(),
        repeats(files, j),
        forall|k: int| 0 <= k < j ==> !repeats(files, k),
    ensures
        first_repeat(files) == Some(j),
{
    let c = choose|c: int| 0 <= c < files.len() && repeats(files, c) && forall|k: int| 0 <= k < c ==> !repeats(files, k);
    if c > j {
        assert(!repeats(files, j));
    }
}

proof fn lemma_no_repeat(files: Seq<SourceFile>)
    requires
        forall|k: int| 0 <= k < files.len() ==> !repeats(files, k),
    ensures
        first_repeat(files) is None,
{
}

/// The error for a declared source whose path could not be resolved.
pub open spec fn missing_source_message(label: Seq<char>, resolved: Seq<char>, reason: Seq<char>) -> Seq<char> {
    ".forge: source '"@ + label + "' path "@ + resolved + " does not exist: "@ + reason
}

/// The error for a declared source directory without `module.yaml`.
pub open spec fn no_module_message(label: Seq<char>, canonical: Seq<char>) -> Seq<char> {
    ".forge: source '"@ + label + "' at "@ + canonical + " has no module.yaml"@
}

/// Checks where a declared source lies: `canonical` is the canonical form
/// of its `resolved` path, or why that failed, and `has_module_yaml` whether
/// that directory holds a `module.yaml`. Every declared source is checked,
/// whether artifacts are requested from it or not.
pub fn check_source(
    label: &str,
    resolved: &str,
    canonical: Result<String, String>,
    has_module_yaml: bool,
) -> (r: Result<String, String>)
    ensures
        match canonical {
            Err(reason) => r matches Err(e) && e@ == missing_source_message(label@, resolved@, reason@),
            Ok(c) => if has_module_yaml {
                r matches Ok(d) && d@ == c@
            } else {
                r matches Err(e) && e@ == no_module_message(label@, c@)
            },
        },
{
    match canonical {
        Err(reason) => {
            let mut m = lit(".forge: source '");
            extend(&mut m, &chars_of(label));
            extend(&mut m, &lit("' path "));
            extend(&mut m, &chars_of(resolved));
            extend(&mut m, &lit(" does not exist: "));
            extend(&mut m, &chars_of(reason.as_str()));
            Err(string_of(&m))
        },
        Ok(c) => {
            if has_module_yaml {
                Ok(c)
            } else {
                let mut m = lit(".forge: source '");
                extend(&mut m, &chars_of(label));
                extend(&mut m, &lit("' at "));
                extend(&mut m, &chars_of(c.as_str()));
                extend(&mut m, &lit(" has no module.yaml"));
                Err(string_of(&m))
            }
        },
    }
}

} // verus!
