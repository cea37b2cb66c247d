//! The page models the dashboard renders: what each page is given to show.
//! Rendering itself happens outside the library.

use vstd::prelude::*;
use crate::view::{ArtifactView, DashboardView, DeployGroup, ModuleView};
use crate::dashboard::{MatrixView, NestedGroup};
use crate::web::{ConfigFile, DepLink, FileCardGroup, HarnessHooks, IntegrityProblem};

verus! {

/// The state the dashboard serves from: the scanned view and what was
/// gathered with it.
#[derive(Debug, Clone)]
pub struct DashboardState {
    pub view: DashboardView,
    /// Provider names with their deployment targets, by name.
    pub provider_targets: Vec<(String, String)>,
    pub settings_filenames: Vec<String>,
    /// Local checkouts of module repositories: source URI and directory.
    pub local_repos: Vec<(String, String)>,
    pub version: String,
    pub binary_hash: String,
    pub scanned_at: String,
}

/// The status and search bar shared by the card views.
pub struct ChromeTemplate<'a> {
    pub view: &'a DashboardView,
    pub scanned_at: &'a str,
}

/// The overview page.
pub struct OverviewTemplate<'a> {
    pub tab: &'a str,
    pub version: &'a str,
    pub view: &'a DashboardView,
    pub scanned_at: &'a str,
    pub layout: &'a str,
    pub primary: &'a str,
    pub density: &'a str,
    pub nested: Vec<NestedGroup<'a>>,
    pub matrix: Option<MatrixView>,
}

/// The decision records page.
pub struct AdrsTemplate<'a> {
    pub tab: &'a str,
    pub version: &'a str,
    pub view: &'a DashboardView,
}

/// The repositories page.
pub struct ModulesTemplate<'a> {
    pub tab: &'a str,
    pub version: &'a str,
    pub view: &'a DashboardView,
    pub selected_module: &'a str,
    pub detail: Option<&'a ModuleView>,
}

/// One repository's detail panel.
pub struct ModuleDetailTemplate<'a> {
    pub module: &'a ModuleView,
}

/// One artifact's page.
pub struct ArtifactDetailTemplate<'a> {
    pub tab: &'a str,
    pub version: &'a str,
    pub binary_hash: &'a str,
    pub artifact: &'a ArtifactView,
    pub module_name: &'a str,
    pub module_source_uri: &'a str,
    pub deploy_groups: Vec<DeployGroup>,
    pub provenance_raw: String,
    pub diff_deployed: String,
    pub diff_source_at_deploy: String,
    pub dep_links: Vec<DepLink>,
    pub schema_applies: String,
}

/// The search results fragment.
pub struct SearchResultsTemplate<'a> {
    pub groups: Vec<(String, Vec<&'a ArtifactView>)>,
    pub page: usize,
    pub total_pages: usize,
    pub total: usize,
    pub query: &'a str,
    pub kind: &'a str,
    pub module: &'a str,
    pub status: &'a str,
    pub sort: &'a str,
}

/// The full search page.
pub struct SearchPageTemplate<'a> {
    pub tab: &'a str,
    pub version: &'a str,
    pub view: &'a DashboardView,
    pub scanned_at: &'a str,
    pub groups: Vec<(String, Vec<&'a ArtifactView>)>,
    pub query: &'a str,
    pub kind: &'a str,
    pub page: usize,
    pub total_pages: usize,
    pub total: usize,
    pub module: &'a str,
    pub status: &'a str,
    pub sort: &'a str,
}

/// The provenance page.
pub struct ProvenanceTemplate<'a> {
    pub tab: &'a str,
    pub version: &'a str,
    pub verified: usize,
    pub total: usize,
    pub stale: usize,
    pub modified: usize,
    pub drift: usize,
    pub orphans: usize,
    pub broken: usize,
    pub problems: Vec<IntegrityProblem>,
}

/// A deployed file's page.
pub struct DeployedTemplate<'a> {
    pub tab: &'a str,
    pub version: &'a str,
    pub harness: &'a str,
    pub path: &'a str,
    pub exists: bool,
    pub content_body: String,
    pub raw_source: String,
    pub source: String,
}

/// A page listing files.
pub struct FilesTemplate<'a> {
    pub tab: &'a str,
    pub title: &'a str,
    pub blurb: &'a str,
    pub version: &'a str,
    pub files: Vec<ConfigFile>,
}

/// A page of file cards.
pub struct FileGridTemplate<'a> {
    pub tab: &'a str,
    pub title: &'a str,
    pub blurb: &'a str,
    pub version: &'a str,
    pub groups: Vec<FileCardGroup>,
}

/// One hook's page.
pub struct HookDetailTemplate<'a> {
    pub tab: &'a str,
    pub version: &'a str,
    pub harness: String,
    pub event: String,
    pub matcher: String,
    pub source: String,
    /// The shell wrapper stripped for highlighting, empty if none.
    pub wrapper: String,
    pub command: String,
}

/// The hooks page.
pub struct HooksTemplate<'a> {
    pub tab: &'a str,
    pub version: &'a str,
    pub groups: Vec<HarnessHooks>,
}

} // verus!
