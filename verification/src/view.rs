//! The dashboard data model: modules, their artifacts, deployment status,
//! provenance records, ADRs and git history, as the scanner assembles them
//! and the dashboard and terminal views read them.

use vstd::prelude::*;
use crate::text::{chars_of, contains, contains_seq, lines, lines_of, lit, seqs_of};
use crate::vcs::VcsState;
use crate::order::Named;
pub use crate::digest::FileStatus;

verus! {

/// The status of an artifact in one provider's deployment.
#[derive(Debug, Clone)]
pub struct ProviderStatus {
    pub status: FileStatus,
    pub fingerprint: Option<String>,
}

/// A harness- or model-qualified override of a base artifact.
#[derive(Debug, Clone)]
pub struct Variant {
    pub qualifier: String,
    pub provider: String,
    pub model: String,
    pub relative_path: String,
    pub mode: String,
}

/// A companion file folded under its parent skill.
#[derive(Debug, Clone)]
pub struct Companion {
    pub name: String,
    pub relative_path: String,
    pub description: String,
    pub content_body: String,
    pub raw_source: String,
}

/// A resolved dependency recorded in an adoption sidecar.
#[derive(Debug, Clone)]
pub struct Dependency {
    pub name: String,
    pub uri: String,
    pub sha: String,
}

/// Where an adopted or copied artifact came from.
#[derive(Debug, Clone)]
pub struct Adoption {
    pub kind: String,
    pub source: String,
    pub source_repo: String,
    pub source_label: String,
    pub source_sha: String,
    pub commit: String,
    pub transforms: Vec<String>,
    pub author: String,
    pub license: String,
    pub adopted_by: String,
    pub dependencies: Vec<Dependency>,
}

/// One commit touching an artifact.
#[derive(Debug, Clone)]
pub struct GitCommit {
    pub sha: String,
    pub message: String,
    pub date: String,
    pub author: String,
    /// The jj change id of the commit, when the repository is colocated.
    pub jj_change: String,
    pub checkpoint: String,
    pub prompt: String,
    pub session_count: usize,
}

/// One artifact (skill, agent, rule or ADR) with everything the views show.
#[derive(Debug, Clone)]
pub struct ArtifactView {
    pub name: String,
    pub kind: String,
    pub module: String,
    pub relative_path: String,
    /// The path of the source file in its repository, when it differs from
    /// `relative_path` (empty otherwise).
    pub source_path: String,
    pub description: String,
    pub content_preview: String,
    pub content_body: String,
    pub raw_source: String,
    pub metadata: Vec<(String, String)>,
    /// Per-provider deployment status, ordered by provider name.
    pub providers: Vec<(String, ProviderStatus)>,
    pub git_log: Vec<GitCommit>,
    pub adoption: Option<Adoption>,
    pub sidecar_warning: String,
    pub broken_refs: Vec<String>,
    pub age_days: Option<i64>,
    pub module_tint: usize,
    pub companions: Vec<Companion>,
    pub variants: Vec<Variant>,
    /// Version-control state of the artifact's repository, when local.
    pub vcs: Option<VcsState>,
}

impl Default for ArtifactView {
    /// An artifact with every field empty.
    fn default() -> (r: ArtifactView)
        ensures
            r.name@.len() == 0 && r.kind@.len() == 0 && r.module@.len() == 0,
            r.relative_path@.len() == 0 && r.description@.len() == 0 && r.source_path@.len() == 0,
            r.content_preview@.len() == 0 && r.content_body@.len() == 0,
            r.raw_source@.len() == 0 && r.sidecar_warning@.len() == 0,
            r.metadata@.len() == 0 && r.providers@.len() == 0 && r.git_log@.len() == 0,
            r.adoption is None && r.age_days is None && r.module_tint == 0,
            r.broken_refs@.len() == 0 && r.companions@.len() == 0 && r.variants@.len() == 0,
            r.vcs is None,
    {
        ArtifactView {
            name: String::new(),
            kind: String::new(),
            module: String::new(),
            relative_path: String::new(),
            source_path: String::new(),
            description: String::new(),
            content_preview: String::new(),
            content_body: String::new(),
            raw_source: String::new(),
            metadata: Vec::new(),
            providers: Vec::new(),
            git_log: Vec::new(),
            adoption: None,
            sidecar_warning: String::new(),
            broken_refs: Vec::new(),
            age_days: None,
            module_tint: 0,
            companions: Vec::new(),
            variants: Vec::new(),
            vcs: None,
        }
    }
}

/// A source module and its artifacts.
#[derive(Debug, Clone)]
pub struct ModuleView {
    pub name: String,
    pub version: String,
    pub description: String,
    pub source_uri: String,
    pub is_target: bool,
    /// Where the module's repository is checked out locally, if anywhere.
    pub local_path: Option<String>,
    pub vcs: Option<VcsState>,
    /// Recent commits of the module's repository.
    pub git_log: Vec<GitCommit>,
    pub artifacts: Vec<ArtifactView>,
}

/// Counts of deployed files by status.
#[derive(Debug, Clone, Copy, Default)]
pub struct StatusSummary {
    pub unchanged: usize,
    pub stale: usize,
    pub modified: usize,
    pub new: usize,
}

/// One deployed file's provenance check.
#[derive(Debug, Clone)]
pub struct ProvenanceArtifact {
    pub deployed_path: String,
    pub source_path: String,
    pub harness: String,
    pub target: String,
    pub verified: bool,
    pub deployed_sha: String,
    pub expected_sha: String,
    pub input_sha: String,
}

/// Provenance records grouped by source module.
#[derive(Debug, Clone)]
pub struct ProvenanceView {
    pub source_uri: String,
    pub verified: usize,
    pub total: usize,
    pub orphans: Vec<String>,
    pub artifacts: Vec<ProvenanceArtifact>,
}

/// An architecture decision record.
#[derive(Debug, Clone)]
pub struct Adr {
    pub id: String,
    pub title: String,
    pub status: String,
    pub repo: String,
    pub source_uri: String,
    pub relative_path: String,
    pub state: String,
    pub source: String,
    pub summary: String,
}

/// Everything the dashboard shows.
#[derive(Debug, Clone)]
pub struct DashboardView {
    pub modules: Vec<ModuleView>,
    pub summary: StatusSummary,
    pub provenance: Vec<ProvenanceView>,
    pub adrs: Vec<Adr>,
}

/// Deployments of one artifact at one target location.
#[derive(Debug, Clone)]
pub struct DeployGroup {
    pub target: String,
    pub verified: usize,
    pub total: usize,
    pub harnesses: Vec<DeployHarness>,
}

/// One harness's deployed copy inside a deploy group.
#[derive(Debug, Clone)]
pub struct DeployHarness {
    pub harness: String,
    pub deployed_path: String,
    pub deployed_dir: String,
    pub verified: bool,
}

/// The lowercase form of a text, as `str::to_lowercase` maps it (Unicode
/// lowercase mapping, character by character, with the final-sigma rule).
pub uninterp spec fn unicode_lowercase(s: Seq<char>) -> Seq<char>;

/// Lowercases a text with `str::to_lowercase`.
///
/// Trusted: the result is `unicode_lowercase` of the text.
#[verifier::external_body]
pub fn lowercase(s: &str) -> (r: String)
    ensures
        r@ == unicode_lowercase(s@),
{
    s.to_lowercase()
}

/// An artifact matches a (lowercased) search query when its lowercased
/// name, description or relative path contains it.
pub open spec fn matches_query_seq(a: ArtifactView, query_lower: Seq<char>) -> bool {
    contains_seq(unicode_lowercase(a.name@), query_lower) || contains_seq(
        unicode_lowercase(a.description@),
        query_lower,
    ) || contains_seq(unicode_lowercase(a.relative_path@), query_lower)
}

/// The kinds shown in kind-ordered views.
pub open spec fn kind_order() -> Seq<Seq<char>> {
    seq!["skills"@, "agents"@, "rules"@]
}

/// The kinds shown in kind-ordered views, in display order.
pub fn kind_order_vec() -> (r: Vec<Vec<char>>)
    ensures
        seqs_of(r@) == kind_order(),
{
    let r = vec![lit("skills"), lit("agents"), lit("rules")];
    assert(seqs_of(r@) =~= kind_order());
    r
}

/// The attention level of an artifact, from most to least urgent.
#[derive(Debug, Clone, Copy, PartialEq, Eq, Structural)]
pub enum OverallStatus {
    Modified,
    Stale,
    New,
    Source,
    Healthy,
}

/// The overall status of an artifact given its providers' statuses: a
/// source-only artifact (no provider) is `source`; otherwise the most urgent
/// provider status wins (`modified`, then `stale`, then `new`), else `ok`.
pub open spec fn overall_of(ps: Seq<(String, ProviderStatus)>) -> OverallStatus {
    if ps.len() == 0 {
        OverallStatus::Source
    } else if exists|i: int| 0 <= i < ps.len() && ps[i].1.status == FileStatus::Modified {
        OverallStatus::Modified
    } else if exists|i: int| 0 <= i < ps.len() && ps[i].1.status == FileStatus::Stale {
        OverallStatus::Stale
    } else if exists|i: int| 0 <= i < ps.len() && ps[i].1.status == FileStatus::New {
        OverallStatus::New
    } else {
        OverallStatus::Healthy
    }
}

/// Display label of an overall status.
pub open spec fn status_label(s: OverallStatus) -> Seq<char> {
    match s {
        OverallStatus::Modified => "modified"@,
        OverallStatus::Stale => "stale"@,
        OverallStatus::New => "new"@,
        OverallStatus::Source => "source"@,
        OverallStatus::Healthy => "ok"@,
    }
}

impl OverallStatus {
    /// The status label (`modified`, `stale`, `new`, `source`, `ok`).
    pub fn label(self) -> (r: &'static str)
        ensures
            r@ == status_label(self),
    {
        match self {
            OverallStatus::Modified => "modified",
            OverallStatus::Stale => "stale",
            OverallStatus::New => "new",
            OverallStatus::Source => "source",
            OverallStatus::Healthy => "ok",
        }
    }
}

/// Number of lines of a text (`str::lines().count()`).
pub open spec fn line_count(s: Seq<char>) -> nat {
    lines(s).len()
}

/// Line count of each companion's raw source, summed.
pub open spec fn companion_lines(cs: Seq<Companion>) -> nat
    decreases cs.len(),
{
    if cs.len() == 0 {
        0
    } else {
        companion_lines(cs.drop_last()) + line_count(cs.last().raw_source@)
    }
}

/// Total size of an artifact in lines: its own raw source plus the raw
/// sources of its companion files.
pub open spec fn total_lines_of(a: ArtifactView) -> nat {
    line_count(a.raw_source@) + companion_lines(a.companions@)
}

/// Staleness ranking: broken references, then modified, then stale.
pub open spec fn staleness_rank_of(a: ArtifactView) -> int {
    if a.broken_refs@.len() > 0 {
        3
    } else if overall_of(a.providers@) == OverallStatus::Modified {
        2
    } else if overall_of(a.providers@) == OverallStatus::Stale {
        1
    } else {
        0
    }
}

/// The date of the newest commit, or empty.
pub open spec fn latest_date_of(a: ArtifactView) -> Seq<char> {
    if a.git_log@.len() > 0 {
        a.git_log@[0].date@
    } else {
        Seq::empty()
    }
}

/// Number of lines of a string.
pub fn count_lines(s: &str) -> (n: usize)
    ensures
        n == line_count(s@),
{
    let v = chars_of(s);
    let ls = lines_of(&v);
    assert(seqs_of(ls@).len() == ls@.len());
    ls.len()
}

impl ArtifactView {
    /// The overall deployment status (see `overall_of`).
    pub fn overall(&self) -> (r: OverallStatus)
        ensures
            r == overall_of(self.providers@),
    {
        if self.providers.len() == 0 {
            return OverallStatus::Source;
        }
        let mut has_modified = false;
        let mut has_stale = false;
        let mut has_new = false;
        let mut i: usize = 0;
        while i < self.providers.len()
            invariant
                i <= self.providers.len(),
                has_modified == exists|j: int|
                    0 <= j < i && self.providers@[j].1.status == FileStatus::Modified,
                has_stale == exists|j: int|
                    0 <= j < i && self.providers@[j].1.status == FileStatus::Stale,
                has_new == exists|j: int|
                    0 <= j < i && self.providers@[j].1.status == FileStatus::New,
            decreases self.providers.len() - i,
        {
            match self.providers[i].1.status {
                FileStatus::Modified => {
                    has_modified = true;
                },
                FileStatus::Stale => {
                    has_stale = true;
                },
                FileStatus::New => {
                    has_new = true;
                },
                FileStatus::Unchanged => {},
            }
            i = i + 1;
        }
        if has_modified {
            OverallStatus::Modified
        } else if has_stale {
            OverallStatus::Stale
        } else if has_new {
            OverallStatus::New
        } else {
            OverallStatus::Healthy
        }
    }

    /// The overall status label (`modified`, `stale`, `new`, `source`, `ok`).
    pub fn overall_status(&self) -> (r: &'static str)
        ensures
            r@ == status_label(overall_of(self.providers@)),
    {
        self.overall().label()
    }

    /// Whether any intra-repo reference is broken.
    pub fn has_broken_refs(&self) -> (r: bool)
        ensures
            r == (self.broken_refs@.len() > 0),
    {
        self.broken_refs.len() > 0
    }

    /// Lines of the raw source plus those of all companion files; saturates
    /// at `usize::MAX`.
    pub fn total_lines(&self) -> (n: usize)
        ensures
            n == saturated_total(*self),
    {
        let mut total = count_lines(self.raw_source.as_str());
        let mut i: usize = 0;
        while i < self.companions.len()
            invariant
                i <= self.companions.len(),
                total == min_usize(
                    (line_count(self.raw_source@) + companion_lines(self.companions@.take(i as int))) as int,
                ),
            decreases self.companions.len() - i,
        {
            proof {
                assert(self.companions@.take(i + 1).drop_last() =~= self.companions@.take(
                    i as int,
                ));
                assert(self.companions@.take(i + 1).last() == self.companions@[i as int]);
            }
            let n = count_lines(self.companions[i].raw_source.as_str());
            total = total.saturating_add(n);
            i = i + 1;
        }
        assert(self.companions@.take(self.companions.len() as int) =~= self.companions@);
        total
    }

    /// Whether the artifact matches a lowercased query (see
    /// `matches_query_seq`).
    pub fn matches_query(&self, query_lower: &str) -> (r: bool)
        ensures
            r == matches_query_seq(*self, query_lower@),
    {
        let q = chars_of(query_lower);
        contains(&chars_of(lowercase(self.name.as_str()).as_str()), &q) || contains(
            &chars_of(lowercase(self.description.as_str()).as_str()),
            &q,
        ) || contains(&chars_of(lowercase(self.relative_path.as_str()).as_str()), &q)
    }

    /// Staleness ranking (see `staleness_rank_of`).
    pub fn staleness_rank(&self) -> (r: u8)
        ensures
            r as int == staleness_rank_of(*self),
    {
        if self.broken_refs.len() > 0 {
            3
        } else {
            match self.overall() {
                OverallStatus::Modified => 2,
                OverallStatus::Stale => 1,
                _ => 0,
            }
        }
    }

    /// The date of the newest commit, or empty.
    pub fn latest_commit_date(&self) -> (r: &str)
        ensures
            r@ == latest_date_of(*self),
    {
        if self.git_log.len() > 0 {
            self.git_log[0].date.as_str()
        } else {
            proof {
                reveal_strlit("");
            }
            ""
        }
    }
}

/// A count capped at `usize::MAX`.
pub open spec fn min_usize(n: int) -> int {
    if n <= usize::MAX {
        n
    } else {
        usize::MAX as int
    }
}

/// The total line count of an artifact, capped at `usize::MAX`.
pub open spec fn saturated_total(a: ArtifactView) -> int {
    min_usize(total_lines_of(a) as int)
}

impl Named for ArtifactView {
    open spec fn name_of(self) -> Seq<char> {
        self.name@
    }

    fn name_chars(&self) -> (r: Vec<char>) {
        chars_of(self.name.as_str())
    }
}

impl Named for Companion {
    open spec fn name_of(self) -> Seq<char> {
        self.name@
    }

    fn name_chars(&self) -> (r: Vec<char>) {
        chars_of(self.name.as_str())
    }
}

impl Named for ProvenanceArtifact {
    /// Deployment records are ordered by harness.
    open spec fn name_of(self) -> Seq<char> {
        self.harness@
    }

    fn name_chars(&self) -> (r: Vec<char>) {
        chars_of(self.harness.as_str())
    }
}

} // verus!
