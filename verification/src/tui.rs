//! The state and decisions of the terminal browser: sections and detail
//! tabs, column widths, the command palette, and the selection logic of its
//! panes. Drawing and key decoding happen outside the library; keys reach
//! the panes as `PaneKey` values.

use vstd::prelude::*;
use crate::text::{char_count, chars_of, eq, extend, lit, split_once_seq, string_of, trim, trim_chars, trim_end_matches, strip_suffix_all, is_whitespace, is_ws, push_char, ends_with, has_suffix};
use crate::view::{Adr, ArtifactView, Companion, DashboardView, GitCommit, ModuleView, ProvenanceArtifact, ProvenanceView, matches_query_seq, lowercase, unicode_lowercase};
use crate::vcs::VcsState;
use crate::nav::ListTarget;
use crate::view::{Adoption, DeployGroup};
use crate::web::{ConfigFile, HarnessFiles, HarnessHooks, HookEntry, SchemaGroup, entry_refs, group_deployments, group_matches, resolve_dep_links, skill_module, targets_in, DepLink};
use crate::lines::{lines_view, overview_matrix_lines, overview_matrix_view, overview_nested_lines, overview_nested_view, provenance_chain_lines, provenance_view, StyledLine};
use crate::dashboard::{artifact_total, build_matrix, build_nested, groups_by_kind, matrix_of, MatrixView, NestedGroup};
use crate::scan::{body_after_fm, frontmatter_pairs, pair_views, parse_frontmatter, strip_frontmatter as scan_strip_frontmatter};

verus! {

/// Which Miller column has focus.
#[derive(Debug, Clone, Copy, PartialEq, Eq, Structural)]
pub enum ColumnFocus {
    Sections,
    List,
    Detail,
}

/// The sections of the browser, in display order.
#[derive(Debug, Clone, Copy, PartialEq, Eq, Structural)]
pub enum Section {
    Overview,
    Skills,
    Agents,
    Rules,
    Repositories,
    Adrs,
    Provenance,
    Variants,
    Search,
    Settings,
    Hooks,
    Config,
    Schemas,
}

/// Number of sections.
pub const SECTION_COUNT: usize = 13;

/// The section at a display position.
pub open spec fn section_at(i: int) -> Section {
    if i == 0 {
        Section::Overview
    } else if i == 1 {
        Section::Skills
    } else if i == 2 {
        Section::Agents
    } else if i == 3 {
        Section::Rules
    } else if i == 4 {
        Section::Repositories
    } else if i == 5 {
        Section::Adrs
    } else if i == 6 {
        Section::Provenance
    } else if i == 7 {
        Section::Variants
    } else if i == 8 {
        Section::Search
    } else if i == 9 {
        Section::Settings
    } else if i == 10 {
        Section::Hooks
    } else if i == 11 {
        Section::Config
    } else {
        Section::Schemas
    }
}

/// The display position of a section.
pub open spec fn section_index(s: Section) -> int {
    match s {
        Section::Overview => 0,
        Section::Skills => 1,
        Section::Agents => 2,
        Section::Rules => 3,
        Section::Repositories => 4,
        Section::Adrs => 5,
        Section::Provenance => 6,
        Section::Variants => 7,
        Section::Search => 8,
        Section::Settings => 9,
        Section::Hooks => 10,
        Section::Config => 11,
        Section::Schemas => 12,
    }
}

/// The name a section is shown under.
pub open spec fn section_label(s: Section) -> Seq<char> {
    match s {
        Section::Overview => "Overview"@,
        Section::Skills => "Skills"@,
        Section::Agents => "Agents"@,
        Section::Rules => "Rules"@,
        Section::Repositories => "Repositories"@,
        Section::Adrs => "ADRs"@,
        Section::Provenance => "Provenance"@,
        Section::Variants => "Variants"@,
        Section::Search => "Search"@,
        Section::Settings => "Settings"@,
        Section::Hooks => "Hooks"@,
        Section::Config => "Config"@,
        Section::Schemas => "Schemas"@,
    }
}

/// The section a palette name or alias selects.
pub open spec fn section_named(name: Seq<char>) -> Option<Section> {
    if name == "overview"@ || name == "o"@ {
        Some(Section::Overview)
    } else if name == "skills"@ || name == "skill"@ || name == "s"@ {
        Some(Section::Skills)
    } else if name == "agents"@ || name == "agent"@ || name == "a"@ {
        Some(Section::Agents)
    } else if name == "rules"@ || name == "rule"@ {
        Some(Section::Rules)
    } else if name == "repos"@ || name == "repositories"@ || name == "repository"@ {
        Some(Section::Repositories)
    } else if name == "adrs"@ || name == "adr"@ {
        Some(Section::Adrs)
    } else if name == "provenance"@ || name == "integrity"@ {
        Some(Section::Provenance)
    } else if name == "variants"@ || name == "variant"@ {
        Some(Section::Variants)
    } else if name == "search"@ || name == "find"@ {
        Some(Section::Search)
    } else if name == "settings"@ || name == "setting"@ {
        Some(Section::Settings)
    } else if name == "hooks"@ || name == "hook"@ {
        Some(Section::Hooks)
    } else if name == "config"@ || name == "configuration"@ {
        Some(Section::Config)
    } else if name == "schemas"@ || name == "schema"@ || name == "manifests"@ || name == "manifest"@ {
        Some(Section::Schemas)
    } else {
        None
    }
}

/// The key that reaches a section from the sections column.
pub open spec fn shortcut_of(s: Section) -> char {
    match s {
        Section::Overview => '1',
        Section::Skills => '2',
        Section::Agents => '3',
        Section::Rules => '4',
        Section::Repositories => '5',
        Section::Adrs => '6',
        Section::Provenance => '7',
        Section::Variants => '8',
        Section::Search => '9',
        Section::Settings => 't',
        Section::Hooks => 'h',
        Section::Config => 'c',
        Section::Schemas => 'm',
    }
}

/// The section a shortcut key reaches (letters in either case).
pub open spec fn section_for_key(c: char) -> Option<Section> {
    if c == '1' {
        Some(Section::Overview)
    } else if c == '2' {
        Some(Section::Skills)
    } else if c == '3' {
        Some(Section::Agents)
    } else if c == '4' {
        Some(Section::Rules)
    } else if c == '5' {
        Some(Section::Repositories)
    } else if c == '6' {
        Some(Section::Adrs)
    } else if c == '7' {
        Some(Section::Provenance)
    } else if c == '8' {
        Some(Section::Variants)
    } else if c == '9' {
        Some(Section::Search)
    } else if c == 't' || c == 'T' {
        Some(Section::Settings)
    } else if c == 'h' || c == 'H' {
        Some(Section::Hooks)
    } else if c == 'c' || c == 'C' {
        Some(Section::Config)
    } else if c == 'm' || c == 'M' {
        Some(Section::Schemas)
    } else {
        None
    }
}

fn is_word(n: &[char], w: &str) -> (b: bool)
    ensures
        b == (n@ == w@),
{
    eq(n, &chars_of(w))
}

impl Section {
    /// The section's display position.
    pub fn index(self) -> (r: usize)
        ensures
            r == section_index(self),
    {
        match self {
            Section::Overview => 0,
            Section::Skills => 1,
            Section::Agents => 2,
            Section::Rules => 3,
            Section::Repositories => 4,
            Section::Adrs => 5,
            Section::Provenance => 6,
            Section::Variants => 7,
            Section::Search => 8,
            Section::Settings => 9,
            Section::Hooks => 10,
            Section::Config => 11,
            Section::Schemas => 12,
        }
    }

    /// The name the section is shown under.
    pub fn label(self) -> (r: &'static str)
        ensures
            r@ == section_label(self),
    {
        match self {
            Section::Overview => "Overview",
            Section::Skills => "Skills",
            Section::Agents => "Agents",
            Section::Rules => "Rules",
            Section::Repositories => "Repositories",
            Section::Adrs => "ADRs",
            Section::Provenance => "Provenance",
            Section::Variants => "Variants",
            Section::Search => "Search",
            Section::Settings => "Settings",
            Section::Hooks => "Hooks",
            Section::Config => "Config",
            Section::Schemas => "Schemas",
        }
    }

    /// The section at a position; positions past the end give the last.
    pub fn from_index(index: usize) -> (r: Section)
        ensures
            r == section_at(if index < SECTION_COUNT { index as int } else { SECTION_COUNT - 1 }),
    {
        let i = if index < SECTION_COUNT {
            index
        } else {
            SECTION_COUNT - 1
        };
        if i == 0 {
            Section::Overview
        } else if i == 1 {
            Section::Skills
        } else if i == 2 {
            Section::Agents
        } else if i == 3 {
            Section::Rules
        } else if i == 4 {
            Section::Repositories
        } else if i == 5 {
            Section::Adrs
        } else if i == 6 {
            Section::Provenance
        } else if i == 7 {
            Section::Variants
        } else if i == 8 {
            Section::Search
        } else if i == 9 {
            Section::Settings
        } else if i == 10 {
            Section::Hooks
        } else if i == 11 {
            Section::Config
        } else {
            Section::Schemas
        }
    }

    /// The section a palette name or alias selects (see `section_named`).
    pub fn from_name(name: &str) -> (r: Option<Section>)
        ensures
            r == section_named(name@),
    {
        let n = chars_of(name);
        if is_word(&n, "overview") || is_word(&n, "o") {
            Some(Section::Overview)
        } else if is_word(&n, "skills") || is_word(&n, "skill") || is_word(&n, "s") {
            Some(Section::Skills)
        } else if is_word(&n, "agents") || is_word(&n, "agent") || is_word(&n, "a") {
            Some(Section::Agents)
        } else if is_word(&n, "rules") || is_word(&n, "rule") {
            Some(Section::Rules)
        } else if is_word(&n, "repos") || is_word(&n, "repositories") || is_word(&n, "repository") {
            Some(Section::Repositories)
        } else if is_word(&n, "adrs") || is_word(&n, "adr") {
            Some(Section::Adrs)
        } else if is_word(&n, "provenance") || is_word(&n, "integrity") {
            Some(Section::Provenance)
        } else if is_word(&n, "variants") || is_word(&n, "variant") {
            Some(Section::Variants)
        } else if is_word(&n, "search") || is_word(&n, "find") {
            Some(Section::Search)
        } else if is_word(&n, "settings") || is_word(&n, "setting") {
            Some(Section::Settings)
        } else if is_word(&n, "hooks") || is_word(&n, "hook") {
            Some(Section::Hooks)
        } else if is_word(&n, "config") || is_word(&n, "configuration") {
            Some(Section::Config)
        } else if is_word(&n, "schemas") || is_word(&n, "schema") || is_word(&n, "manifests") || is_word(&n, "manifest") {
            Some(Section::Schemas)
        } else {
            None
        }
    }

    /// The shortcut key shown as the section's row prefix.
    pub fn shortcut_label(self) -> (r: char)
        ensures
            r == shortcut_of(self),
    {
        match self {
            Section::Overview => '1',
            Section::Skills => '2',
            Section::Agents => '3',
            Section::Rules => '4',
            Section::Repositories => '5',
            Section::Adrs => '6',
            Section::Provenance => '7',
            Section::Variants => '8',
            Section::Search => '9',
            Section::Settings => 't',
            Section::Hooks => 'h',
            Section::Config => 'c',
            Section::Schemas => 'm',
        }
    }

    /// The section a shortcut key reaches (see `section_for_key`).
    pub fn from_shortcut(character: char) -> (r: Option<Section>)
        ensures
            r == section_for_key(character),
    {
        match character {
            '1' => Some(Section::Overview),
            '2' => Some(Section::Skills),
            '3' => Some(Section::Agents),
            '4' => Some(Section::Rules),
            '5' => Some(Section::Repositories),
            '6' => Some(Section::Adrs),
            '7' => Some(Section::Provenance),
            '8' => Some(Section::Variants),
            '9' => Some(Section::Search),
            't' | 'T' => Some(Section::Settings),
            'h' | 'H' => Some(Section::Hooks),
            'c' | 'C' => Some(Section::Config),
            'm' | 'M' => Some(Section::Schemas),
            _ => None,
        }
    }
}

/// Every section's advertised shortcut reaches it, and positions and
/// sections correspond one to one.
pub proof fn lemma_sections_consistent(s: Section)
    ensures
        section_for_key(shortcut_of(s)) == Some(s),
        section_at(section_index(s)) == s,
        0 <= section_index(s) < SECTION_COUNT,
{
}

/// The tabs of the detail pane, in display order.
#[derive(Debug, Clone, Copy, PartialEq, Eq, Structural)]
pub enum DetailTab {
    Preview,
    Code,
    Diff,
    Provenance,
    Frontmatter,
    History,
    Companions,
}

/// Number of detail tabs.
pub const DETAIL_TAB_COUNT: usize = 7;

/// The tab at a display position.
pub open spec fn tab_at(i: int) -> DetailTab {
    if i == 0 {
        DetailTab::Preview
    } else if i == 1 {
        DetailTab::Code
    } else if i == 2 {
        DetailTab::Diff
    } else if i == 3 {
        DetailTab::Provenance
    } else if i == 4 {
        DetailTab::Frontmatter
    } else if i == 5 {
        DetailTab::History
    } else {
        DetailTab::Companions
    }
}

/// The name a tab is shown under.
pub open spec fn tab_label(t: DetailTab) -> Seq<char> {
    match t {
        DetailTab::Preview => "Preview"@,
        DetailTab::Code => "Code"@,
        DetailTab::Diff => "Diff"@,
        DetailTab::Provenance => "Provenance"@,
        DetailTab::Frontmatter => "Frontmatter"@,
        DetailTab::History => "History"@,
        DetailTab::Companions => "Companions"@,
    }
}

impl DetailTab {
    /// The name the tab is shown under.
    pub fn label(self) -> (r: &'static str)
        ensures
            r@ == tab_label(self),
    {
        match self {
            DetailTab::Preview => "Preview",
            DetailTab::Code => "Code",
            DetailTab::Diff => "Diff",
            DetailTab::Provenance => "Provenance",
            DetailTab::Frontmatter => "Frontmatter",
            DetailTab::History => "History",
            DetailTab::Companions => "Companions",
        }
    }

    /// The tab at a position; positions past the end give the last.
    pub fn from_index(index: usize) -> (r: DetailTab)
        ensures
            r == tab_at(if index < DETAIL_TAB_COUNT { index as int } else { DETAIL_TAB_COUNT - 1 }),
    {
        let i = if index < DETAIL_TAB_COUNT {
            index
        } else {
            DETAIL_TAB_COUNT - 1
        };
        if i == 0 {
            DetailTab::Preview
        } else if i == 1 {
            DetailTab::Code
        } else if i == 2 {
            DetailTab::Diff
        } else if i == 3 {
            DetailTab::Provenance
        } else if i == 4 {
            DetailTab::Frontmatter
        } else if i == 5 {
            DetailTab::History
        } else {
            DetailTab::Companions
        }
    }
}

/// Display width of the tabs before position `k` in the tab bar: each tab
/// takes one space and its label.
pub open spec fn tabs_width(k: int) -> int
    decreases k,
{
    if k <= 0 {
        0
    } else {
        tabs_width(k - 1) + 1 + tab_label(tab_at(k - 1)).len()
    }
}

/// The tab under a column of the tab bar: the first tab whose span (the
/// space before it included) reaches past the column.
pub open spec fn tab_under(column: int) -> Option<DetailTab> {
    tab_under_from(0, column)
}

/// The first tab from position `k` on whose span reaches past the column.
pub open spec fn tab_under_from(k: int, column: int) -> Option<DetailTab>
    decreases DETAIL_TAB_COUNT - k,
{
    if k < 0 || k >= DETAIL_TAB_COUNT {
        None
    } else if column < tabs_width(k + 1) {
        Some(tab_at(k))
    } else {
        tab_under_from(k + 1, column)
    }
}

/// Maps a column of the tab bar to its tab (see `tab_under`).
pub fn tab_at_column(column: u16) -> (r: Option<DetailTab>)
    ensures
        r == tab_under(column as int),
{
    let mut cursor: u16 = 0;
    let mut k: usize = 0;
    while k < DETAIL_TAB_COUNT
        invariant
            k <= DETAIL_TAB_COUNT,
            cursor as int == tabs_width(k as int),
            column as int >= tabs_width(k as int),
            cursor <= 100,
            tab_under(column as int) == tab_under_from(k as int, column as int),
        decreases DETAIL_TAB_COUNT - k,
    {
        proof {
            reveal_strlit("Preview");
            reveal_strlit("Code");
            reveal_strlit("Diff");
            reveal_strlit("Provenance");
            reveal_strlit("Frontmatter");
            reveal_strlit("History");
            reveal_strlit("Companions");
            reveal_with_fuel(tabs_width, 8);
        }
        let tab = DetailTab::from_index(k);
        let width = char_count(tab.label());
        assert(width <= 11);
        let end = cursor + 1 + width as u16;
        if column < end {
            return Some(tab);
        }
        cursor = end;
        k = k + 1;
    }
    None
}

/// The kinds of review comments, cycled in this order.
#[derive(Debug, Clone, Copy, PartialEq, Eq, Structural)]
pub enum CommentKind {
    Issue,
    Note,
    Suggestion,
    Praise,
}

/// The kind after `k` in the cycle.
pub open spec fn next_kind(k: CommentKind) -> CommentKind {
    match k {
        CommentKind::Issue => CommentKind::Note,
        CommentKind::Note => CommentKind::Suggestion,
        CommentKind::Suggestion => CommentKind::Praise,
        CommentKind::Praise => CommentKind::Issue,
    }
}

impl CommentKind {
    /// The next kind in the cycle Issue → Note → Suggestion → Praise → Issue.
    pub fn next(self) -> (r: CommentKind)
        ensures
            r == next_kind(self),
    {
        match self {
            CommentKind::Issue => CommentKind::Note,
            CommentKind::Note => CommentKind::Suggestion,
            CommentKind::Suggestion => CommentKind::Praise,
            CommentKind::Praise => CommentKind::Issue,
        }
    }

    /// The tag written before a comment.
    pub fn label(self) -> (r: &'static str)
        ensures
            r@ == match self {
                CommentKind::Issue => "ISSUE"@,
                CommentKind::Note => "NOTE"@,
                CommentKind::Suggestion => "SUGGESTION"@,
                CommentKind::Praise => "PRAISE"@,
            },
    {
        match self {
            CommentKind::Issue => "ISSUE",
            CommentKind::Note => "NOTE",
            CommentKind::Suggestion => "SUGGESTION",
            CommentKind::Praise => "PRAISE",
        }
    }
}

/// Cycling through the comment kinds returns to the start after four steps
/// and visits every kind on the way.
pub proof fn lemma_comment_cycle(k: CommentKind)
    ensures
        next_kind(next_kind(next_kind(next_kind(k)))) == k,
        next_kind(k) != k,
{
}

// ---------------------------------------------------------------------------
// Column widths

/// Widths of the two left columns; the detail pane takes the rest.
#[derive(Debug, Clone, Copy, PartialEq, Eq, Structural)]
pub struct MillerColumnWidths {
    pub left: u16,
    pub middle: u16,
}

pub const LEFT_MIN_WIDTH: u16 = 14;
pub const LEFT_MAX_WIDTH: u16 = 20;
pub const MIDDLE_MIN_WIDTH: u16 = 24;
pub const MIDDLE_MAX_WIDTH: u16 = 40;
pub const MIN_DETAIL_WIDTH: u16 = 20;

/// The narrowest layout.
pub fn default_column_widths() -> (r: MillerColumnWidths)
    ensures
        r.left == LEFT_MIN_WIDTH,
        r.middle == MIDDLE_MIN_WIDTH,
{
    MillerColumnWidths { left: LEFT_MIN_WIDTH, middle: MIDDLE_MIN_WIDTH }
}

/// A count as a `u16`, saturating.
pub fn usize_to_u16(value: usize) -> (r: u16)
    ensures
        r == if value <= u16::MAX { value as u16 } else { u16::MAX },
{
    if value <= 65535 {
        value as u16
    } else {
        65535
    }
}

/// `v` clamped to `[lo, hi]`.
pub open spec fn clamp(v: int, lo: int, hi: int) -> int {
    if v < lo {
        lo
    } else if v > hi {
        hi
    } else {
        v
    }
}

/// The longest label among some, in characters (0 for none).
pub open spec fn max_len(labels: Seq<Seq<char>>) -> nat
    decreases labels.len(),
{
    if labels.len() == 0 {
        0
    } else {
        let m = max_len(labels.drop_last());
        if labels.last().len() > m {
            labels.last().len()
        } else {
            m
        }
    }
}

/// Column widths fitted to the labels shown: the sections column to the
/// longest section name plus six, the list column to the longest row label
/// plus eight, each clamped to its bounds.
pub fn column_widths_for_rows(labels: &[String]) -> (r: MillerColumnWidths)
    ensures
        r.left as int == clamp(18int, LEFT_MIN_WIDTH as int, LEFT_MAX_WIDTH as int),
        r.middle as int == clamp(
            if max_len(crate::order::views(labels@)) + 8 <= u16::MAX { (max_len(crate::order::views(labels@)) + 8) as int } else { u16::MAX as int },
            MIDDLE_MIN_WIDTH as int,
            MIDDLE_MAX_WIDTH as int,
        ),
{
    // "Repositories" is the longest section name.
    let section_label_width: usize = 12;
    let l = usize_to_u16(section_label_width + 6);
    let left = if l < LEFT_MIN_WIDTH {
        LEFT_MIN_WIDTH
    } else if l > LEFT_MAX_WIDTH {
        LEFT_MAX_WIDTH
    } else {
        l
    };
    let mut widest: usize = 0;
    let mut i: usize = 0;
    while i < labels.len()
        invariant
            i <= labels.len(),
            widest == max_len(crate::order::views(labels@).take(i as int)),
        decreases labels.len() - i,
    {
        proof {
            let t = crate::order::views(labels@).take(i + 1);
            assert(t.drop_last() =~= crate::order::views(labels@).take(i as int));
        }
        let n = char_count(labels[i].as_str());
        if n > widest {
            widest = n;
        }
        i = i + 1;
    }
    assert(crate::order::views(labels@).take(labels.len() as int) =~= crate::order::views(labels@));
    let m = usize_to_u16(widest.saturating_add(8));
    let middle = if m < MIDDLE_MIN_WIDTH {
        MIDDLE_MIN_WIDTH
    } else if m > MIDDLE_MAX_WIDTH {
        MIDDLE_MAX_WIDTH
    } else {
        m
    };
    MillerColumnWidths { left, middle }
}

/// `a - b`, or 0 when `b` is larger.
pub open spec fn sat_sub(a: int, b: int) -> int {
    if a >= b {
        a - b
    } else {
        0
    }
}

/// Fits the two left columns into a terminal width: when they and the
/// minimum detail width fit, nothing changes; otherwise the overflow is
/// taken from the list column first, then from the sections column.
pub open spec fn fitted(total: int, left: int, middle: int) -> (int, int) {
    let required = left + middle + MIN_DETAIL_WIDTH;
    if required <= total {
        (left, middle)
    } else {
        let overflow = required - total;
        let middle_cut = if middle < overflow { middle } else { overflow };
        let rest = overflow - middle_cut;
        let left_cut = if left < rest { left } else { rest };
        (left - left_cut, middle - middle_cut)
    }
}

/// Fits the columns into `total_width` (see `fitted`; sums saturate at
/// `u16::MAX`).
pub fn fit_miller_widths(total_width: u16, desired: MillerColumnWidths) -> (r: MillerColumnWidths)
    ensures
        desired.left + desired.middle + MIN_DETAIL_WIDTH <= u16::MAX ==> (r.left as int, r.middle as int)
            == fitted(total_width as int, desired.left as int, desired.middle as int),
        r.left <= desired.left,
        r.middle <= desired.middle,
{
    let mut left = desired.left;
    let mut middle = desired.middle;
    let required = left.saturating_add(middle).saturating_add(MIN_DETAIL_WIDTH);
    if required <= total_width {
        return MillerColumnWidths { left, middle };
    }
    let mut overflow = required - total_width;
    let middle_cut = if middle < overflow {
        middle
    } else {
        overflow
    };
    middle = middle - middle_cut;
    overflow = overflow - middle_cut;
    let left_cut = if left < overflow {
        left
    } else {
        overflow
    };
    left = left - left_cut;
    MillerColumnWidths { left, middle }
}

/// When the terminal is wide enough for the minimum detail pane, the fitted
/// columns leave exactly that much or more for it.
pub proof fn lemma_fit_leaves_detail_room(total: int, left: int, middle: int)
    requires
        0 <= left,
        0 <= middle,
        total >= MIN_DETAIL_WIDTH,
    ensures
        fitted(total, left, middle).0 + fitted(total, left, middle).1 + MIN_DETAIL_WIDTH <= total,
        0 <= fitted(total, left, middle).0 <= left,
        0 <= fitted(total, left, middle).1 <= middle,
{
}

// ---------------------------------------------------------------------------
// Small labels

/// The status letter of a row: `M` modified, `!` stale, `?` new, else `·`.
pub open spec fn status_dot_seq(status: Seq<char>) -> Seq<char> {
    if status == "modified"@ {
        "M"@
    } else if status == "stale"@ {
        "!"@
    } else if status == "new"@ {
        "?"@
    } else {
        "·"@
    }
}

/// The status letter of a row (see `status_dot_seq`).
pub fn status_dot(status: &str) -> (r: &'static str)
    ensures
        r@ == status_dot_seq(status@),
{
    let s = chars_of(status);
    if eq(&s, &lit("modified")) {
        "M"
    } else if eq(&s, &lit("stale")) {
        "!"
    } else if eq(&s, &lit("new")) {
        "?"
    } else {
        "·"
    }
}

/// A filter value, or `any` when it is empty.
pub fn value_or_any(value: &str) -> (r: String)
    ensures
        r@ == if value@.len() == 0 { "any"@ } else { value@ },
{
    if char_count(value) == 0 {
        String::from_str("any")
    } else {
        String::from_str(value)
    }
}

/// A repository URI without its `.git` suffixes.
pub fn canonical_source(source: &str) -> (r: String)
    ensures
        r@ == strip_suffix_all(source@, ".git"@),
{
    string_of(&trim_end_matches(&chars_of(source), &lit(".git")))
}

/// The key under which a detail view is cached: the tab, the module and
/// the path, so artifacts sharing a path in different modules differ.
pub open spec fn detail_key_seq(tab: DetailTab, module: Seq<char>, path: Seq<char>) -> Seq<char> {
    tab_label(tab) + ":"@ + module + ":"@ + path
}

/// Builds a detail cache key (see `detail_key_seq`).
pub fn detail_cache_key(tab: DetailTab, module: &str, path: &str) -> (r: String)
    ensures
        r@ == detail_key_seq(tab, module@, path@),
{
    let mut k = chars_of(tab.label());
    extend(&mut k, &lit(":"));
    extend(&mut k, &chars_of(module));
    extend(&mut k, &lit(":"));
    extend(&mut k, &chars_of(path));
    string_of(&k)
}

// ---------------------------------------------------------------------------
// Command palette

/// A command typed into the palette.
#[derive(Debug, Clone, PartialEq, Eq)]
pub enum PaletteCommand {
    Refresh,
    Quit,
    Find(String),
    Empty,
    Unknown(String),
}

/// Whether a key was used.
#[derive(Debug, Clone, Copy, PartialEq, Eq, Structural)]
pub enum Outcome {
    Handled,
    Ignored,
}

/// A key as the panes see it.
#[derive(Debug, Clone, Copy, PartialEq, Eq, Structural)]
pub enum PaneKey {
    Down,
    Up,
    Backspace,
    /// A character typed without modifiers other than shift.
    Char(char),
    Other,
}

/// The command's verb and the text after it: the trimmed input split at
/// its first white space.
pub open spec fn verb_and_rest(trimmed: Seq<char>) -> (Seq<char>, Seq<char>) {
    let k = crate::vcs::ws_index(trimmed);
    if k < trimmed.len() {
        (trimmed.take(k), trim(trimmed.skip(k + 1)))
    } else {
        (trimmed, Seq::empty())
    }
}

/// A palette command with its text as plain characters.
pub enum CommandMeaning {
    Refresh,
    Quit,
    Find(Seq<char>),
    Empty,
    Unknown(Seq<char>),
}

/// What palette input means: nothing, `r`/`refresh`, `q`/`quit`,
/// `find <text>`, or an unknown verb.
pub open spec fn command_of(input: Seq<char>) -> CommandMeaning {
    let t = trim(input);
    if t.len() == 0 {
        CommandMeaning::Empty
    } else {
        let (verb, rest) = verb_and_rest(t);
        if verb == "r"@ || verb == "refresh"@ {
            CommandMeaning::Refresh
        } else if verb == "q"@ || verb == "quit"@ {
            CommandMeaning::Quit
        } else if verb == "find"@ {
            CommandMeaning::Find(rest)
        } else {
            CommandMeaning::Unknown(verb)
        }
    }
}

/// The meaning of a command value.
pub open spec fn command_view(c: PaletteCommand) -> CommandMeaning {
    match c {
        PaletteCommand::Refresh => CommandMeaning::Refresh,
        PaletteCommand::Quit => CommandMeaning::Quit,
        PaletteCommand::Find(s) => CommandMeaning::Find(s@),
        PaletteCommand::Empty => CommandMeaning::Empty,
        PaletteCommand::Unknown(s) => CommandMeaning::Unknown(s@),
    }
}

/// The command palette: its input line and whether it is open.
#[derive(Debug, Clone)]
pub struct Palette {
    input: String,
    open: bool,
}

impl Palette {
    /// The palette's typed text.
    pub closed spec fn input_view(&self) -> Seq<char> {
        self.input@
    }

    /// Whether the palette is open.
    pub closed spec fn is_open_spec(&self) -> bool {
        self.open
    }

    /// A closed palette with no input.
    pub fn new() -> (r: Palette)
        ensures
            !r.is_open_spec(),
            r.input_view().len() == 0,
    {
        Palette { input: String::new(), open: false }
    }

    /// Whether the palette is open.
    pub fn is_open(&self) -> (r: bool)
        ensures
            r == self.is_open_spec(),
    {
        self.open
    }

    /// Opens the palette with empty input.
    pub fn open(&mut self)
        ensures
            final(self).is_open_spec(),
            final(self).input_view().len() == 0,
    {
        self.open = true;
        self.input = String::new();
    }

    /// Closes the palette and clears its input.
    pub fn close(&mut self)
        ensures
            !final(self).is_open_spec(),
            final(self).input_view().len() == 0,
    {
        self.open = false;
        self.input = String::new();
    }

    /// Applies a key to the input: backspace deletes the last character, a
    /// typed character is appended; other keys are ignored.
    pub fn on_key(&mut self, key: PaneKey) -> (r: Outcome)
        ensures
            final(self).is_open_spec() == old(self).is_open_spec(),
            match key {
                PaneKey::Backspace => r == Outcome::Handled && final(self).input_view() == if old(self).input_view().len() > 0 {
                    old(self).input_view().drop_last()
                } else {
                    old(self).input_view()
                },
                PaneKey::Char(c) => r == Outcome::Handled && final(self).input_view() == old(self).input_view().push(c),
                _ => r == Outcome::Ignored && final(self).input_view() == old(self).input_view(),
            },
    {
        match key {
            PaneKey::Backspace => {
                let mut v = chars_of(self.input.as_str());
                if v.len() > 0 {
                    v.pop();
                }
                self.input = string_of(&v);
                Outcome::Handled
            },
            PaneKey::Char(c) => {
                push_char(&mut self.input, c);
                Outcome::Handled
            },
            _ => Outcome::Ignored,
        }
    }

    /// Parses the input as a command and closes the palette.
    pub fn take_command(&mut self) -> (r: PaletteCommand)
        ensures
            command_view(r) == command_of(old(self).input_view()),
            !final(self).is_open_spec(),
            final(self).input_view().len() == 0,
    {
        let command = Palette::parse_command(self.input.as_str());
        self.close();
        command
    }

    /// Parses palette input (see `command_of`).
    pub fn parse_command(input: &str) -> (r: PaletteCommand)
        ensures
            command_view(r) == command_of(input@),
    {
        let t = trim_chars(&chars_of(input));
        if t.len() == 0 {
            return PaletteCommand::Empty;
        }
        let mut k: usize = 0;
        while k < t.len() && !is_whitespace(t[k])
            invariant
                k <= t.len(),
                forall|j: int| 0 <= j < k ==> !is_ws(#[trigger] t@[j]),
            decreases t.len() - k,
        {
            k = k + 1;
        }
        proof {
            crate::vcs::lemma_ws_index_is(t@, k as int);
        }
        let verb = crate::text::slice(&t, 0, k);
        let rest = if k < t.len() {
            trim_chars(&crate::text::slice(&t, k + 1, t.len()))
        } else {
            Vec::new()
        };
        assert(verb@ =~= verb_and_rest(t@).0);
        assert(rest@ =~= verb_and_rest(t@).1);
        if eq(&verb, &lit("r")) || eq(&verb, &lit("refresh")) {
            PaletteCommand::Refresh
        } else if eq(&verb, &lit("q")) || eq(&verb, &lit("quit")) {
            PaletteCommand::Quit
        } else if eq(&verb, &lit("find")) {
            PaletteCommand::Find(string_of(&rest))
        } else {
            PaletteCommand::Unknown(string_of(&verb))
        }
    }
}

// ---------------------------------------------------------------------------
// Panes

/// Every artifact, module by module, in order.
pub open spec fn all_artifacts(modules: Seq<ModuleView>) -> Seq<ArtifactView>
    decreases modules.len(),
{
    if modules.len() == 0 {
        Seq::empty()
    } else {
        all_artifacts(modules.drop_last()) + modules.last().artifacts@
    }
}

/// A count capped at `usize::MAX`.
pub open spec fn capped(n: int) -> int {
    if n <= usize::MAX {
        n
    } else {
        usize::MAX as int
    }
}

/// A selection kept inside a list of `len` rows: 0 for an empty list, the
/// last row when it ran past the end.
pub open spec fn clamped(selected: int, len: int) -> int {
    if len == 0 {
        0
    } else if selected >= len {
        len - 1
    } else {
        selected
    }
}

fn artifact_count(modules: &Vec<ModuleView>) -> (r: usize)
    ensures
        r == capped(all_artifacts(modules@).len() as int),
{
    let mut total: usize = 0;
    let mut m: usize = 0;
    while m < modules.len()
        invariant
            m <= modules.len(),
            total == capped(all_artifacts(modules@.take(m as int)).len() as int),
        decreases modules.len() - m,
    {
        proof {
            assert(modules@.take(m + 1).drop_last() =~= modules@.take(m as int));
        }
        total = total.saturating_add(modules[m].artifacts.len());
        m = m + 1;
    }
    assert(modules@.take(modules.len() as int) =~= modules@);
    total
}

/// Replacing the view keeps the selection inside the new view's artifacts:
/// none selected beyond position 0 when there are none, else the old
/// position or the last artifact, whichever comes first; so an artifact is
/// selected whenever there is one. (The count is that of artifacts held in
/// memory, so it fits in `usize`.)
pub proof fn lemma_set_view_keeps_selection_inside(before: int, view: DashboardView, after: int)
    requires
        before >= 0,
        all_artifacts(view.modules@).len() <= usize::MAX,
        after == clamped(before, capped(all_artifacts(view.modules@).len() as int)),
    ensures
        all_artifacts(view.modules@).len() == 0 ==> after == 0,
        all_artifacts(view.modules@).len() > 0 ==> after == (if before < all_artifacts(view.modules@).len() {
            before
        } else {
            all_artifacts(view.modules@).len() - 1
        }),
        all_artifacts(view.modules@).len() > 0 ==> 0 <= after < all_artifacts(view.modules@).len(),
{
}

/// The browsing pane over all artifacts.
#[derive(Debug, Clone)]
pub struct ArtifactsPane {
    view: DashboardView,
    selected: usize,
    focused: bool,
}

impl ArtifactsPane {
    /// The view shown.
    pub closed spec fn view_of(&self) -> DashboardView {
        self.view
    }

    /// The selected position among all artifacts.
    pub closed spec fn selected_index(&self) -> int {
        self.selected as int
    }

    /// Whether the pane has focus.
    pub closed spec fn is_focused(&self) -> bool {
        self.focused
    }

    /// A pane on a view with the first artifact selected, unfocused.
    pub fn new(view: DashboardView) -> (r: ArtifactsPane)
        ensures
            r.view_of() == view,
            r.selected_index() == 0,
            !r.is_focused(),
    {
        ArtifactsPane { view, selected: 0, focused: false }
    }

    /// Replaces the view, keeping the selection inside it.
    pub fn set_view(&mut self, view: DashboardView)
        ensures
            final(self).view_of() == view,
            final(self).selected_index() == clamped(
                old(self).selected_index(),
                capped(all_artifacts(view.modules@).len() as int),
            ),
            final(self).is_focused() == old(self).is_focused(),
    {
        self.view = view;
        let len = artifact_count(&self.view.modules);
        if len == 0 {
            self.selected = 0;
        } else if self.selected >= len {
            self.selected = len - 1;
        }
    }

    /// Gives or takes focus.
    pub fn set_focused(&mut self, focused: bool)
        ensures
            final(self).is_focused() == focused,
            final(self).view_of() == old(self).view_of(),
            final(self).selected_index() == old(self).selected_index(),
    {
        self.focused = focused;
    }

    /// The selected artifact, if the selection is inside the list.
    pub fn selected_artifact(&self) -> (r: Option<&ArtifactView>)
        ensures
            match r {
                Some(a) => 0 <= self.selected_index() < all_artifacts(self.view_of().modules@).len()
                    && *a == all_artifacts(self.view_of().modules@)[self.selected_index()],
                None => self.selected_index() >= all_artifacts(self.view_of().modules@).len(),
            },
    {
        let mut skipped: usize = 0;
        let mut m: usize = 0;
        while m < self.view.modules.len()
            invariant
                m <= self.view.modules.len(),
                skipped as int == all_artifacts(self.view.modules@.take(m as int)).len(),
                skipped <= self.selected,
            decreases self.view.modules.len() - m,
        {
            proof {
                assert(self.view.modules@.take(m + 1).drop_last() =~= self.view.modules@.take(m as int));
                lemma_all_artifacts_prefix(self.view.modules@, m + 1);
            }
            let n = self.view.modules[m].artifacts.len();
            if self.selected - skipped < n {
                let j = self.selected - skipped;
                proof {
                    let pre = all_artifacts(self.view.modules@.take(m as int));
                    assert(all_artifacts(self.view.modules@.take(m + 1)) =~= pre + self.view.modules@[m as int].artifacts@);
                    lemma_all_artifacts_prefix(self.view.modules@, m + 1);
                }
                return Some(&self.view.modules[m].artifacts[j]);
            }
            skipped = skipped + n;
            m = m + 1;
        }
        assert(self.view.modules@.take(self.view.modules.len() as int) =~= self.view.modules@);
        None
    }

    /// Moves the selection by a key: down and up move one row within the
    /// list; other keys are ignored.
    pub fn on_key(&mut self, key: PaneKey) -> (r: Outcome)
        ensures
            final(self).view_of() == old(self).view_of(),
            final(self).is_focused() == old(self).is_focused(),
            match key {
                PaneKey::Down => r == Outcome::Handled && final(self).selected_index() == if old(self).selected_index() + 1
                    < capped(all_artifacts(old(self).view_of().modules@).len() as int) {
                    old(self).selected_index() + 1
                } else {
                    old(self).selected_index()
                },
                PaneKey::Up => r == Outcome::Handled && final(self).selected_index() == if old(self).selected_index() > 0 {
                    old(self).selected_index() - 1
                } else {
                    0
                },
                _ => r == Outcome::Ignored && final(self).selected_index() == old(self).selected_index(),
            },
    {
        match key {
            PaneKey::Down => {
                let len = artifact_count(&self.view.modules);
                if self.selected < len && self.selected + 1 < len {
                    self.selected = self.selected + 1;
                }
                Outcome::Handled
            },
            PaneKey::Up => {
                if self.selected > 0 {
                    self.selected = self.selected - 1;
                }
                Outcome::Handled
            },
            _ => Outcome::Ignored,
        }
    }
}

proof fn lemma_all_artifacts_prefix(modules: Seq<ModuleView>, m: int)
    requires
        0 <= m <= modules.len(),
    ensures
        all_artifacts(modules) == all_artifacts(modules.take(m)) + all_artifacts(modules.skip(m)),
    decreases modules.len() - m,
{
    if m < modules.len() {
        lemma_all_artifacts_prefix(modules, m + 1);
        lemma_all_artifacts_split(modules.skip(m));
        assert(modules.take(m + 1).drop_last() =~= modules.take(m));
        assert(modules.skip(m).drop_first() =~= modules.skip(m + 1));
        assert(modules.take(m + 1).last() == modules[m]);
    } else {
        assert(modules.take(m) =~= modules);
        assert(modules.skip(m) =~= Seq::<ModuleView>::empty());
    }
}

proof fn lemma_all_artifacts_split(modules: Seq<ModuleView>)
    ensures
        modules.len() > 0 ==> all_artifacts(modules) == modules[0].artifacts@ + all_artifacts(modules.drop_first()),
    decreases modules.len(),
{
    if modules.len() > 1 {
        lemma_all_artifacts_split(modules.drop_last());
        assert(modules.drop_last().drop_first() =~= modules.drop_first().drop_last());
        assert(modules.drop_first().last() == modules.last());
    } else if modules.len() == 1 {
        assert(modules.drop_last() =~= Seq::<ModuleView>::empty());
        assert(modules.drop_first() =~= Seq::<ModuleView>::empty());
    }
}

/// The pane listing modules.
#[derive(Debug, Clone)]
pub struct ProjectsPane {
    view: DashboardView,
    selected: usize,
    focused: bool,
}

impl ProjectsPane {
    /// The view shown.
    pub closed spec fn view_of(&self) -> DashboardView {
        self.view
    }

    /// The selected module position.
    pub closed spec fn selected_index(&self) -> int {
        self.selected as int
    }

    /// Whether the pane has focus.
    pub closed spec fn is_focused(&self) -> bool {
        self.focused
    }

    /// A pane on a view with the first module selected, unfocused.
    pub fn new(view: DashboardView) -> (r: ProjectsPane)
        ensures
            r.view_of() == view,
            r.selected_index() == 0,
            !r.is_focused(),
    {
        ProjectsPane { view, selected: 0, focused: false }
    }

    /// Replaces the view, keeping the selection inside it.
    pub fn set_view(&mut self, view: DashboardView)
        ensures
            final(self).view_of() == view,
            final(self).selected_index() == clamped(old(self).selected_index(), view.modules@.len() as int),
            final(self).is_focused() == old(self).is_focused(),
    {
        self.view = view;
        let len = self.view.modules.len();
        if len == 0 {
            self.selected = 0;
        } else if self.selected >= len {
            self.selected = len - 1;
        }
    }

    /// Gives or takes focus.
    pub fn set_focused(&mut self, focused: bool)
        ensures
            final(self).is_focused() == focused,
            final(self).view_of() == old(self).view_of(),
            final(self).selected_index() == old(self).selected_index(),
    {
        self.focused = focused;
    }

    /// Moves the selection by a key (down and up, within the modules).
    pub fn on_key(&mut self, key: PaneKey) -> (r: Outcome)
        ensures
            final(self).view_of() == old(self).view_of(),
            final(self).is_focused() == old(self).is_focused(),
            match key {
                PaneKey::Down => r == Outcome::Handled && final(self).selected_index() == if old(self).selected_index() + 1
                    < old(self).view_of().modules@.len() {
                    old(self).selected_index() + 1
                } else {
                    old(self).selected_index()
                },
                PaneKey::Up => r == Outcome::Handled && final(self).selected_index() == if old(self).selected_index() > 0 {
                    old(self).selected_index() - 1
                } else {
                    0
                },
                _ => r == Outcome::Ignored && final(self).selected_index() == old(self).selected_index(),
            },
    {
        match key {
            PaneKey::Down => {
                if self.selected < self.view.modules.len() && self.selected + 1 < self.view.modules.len() {
                    self.selected = self.selected + 1;
                }
                Outcome::Handled
            },
            PaneKey::Up => {
                if self.selected > 0 {
                    self.selected = self.selected - 1;
                }
                Outcome::Handled
            },
            _ => Outcome::Ignored,
        }
    }
}

/// The pane showing the provenance of the selected artifact.
#[derive(Debug, Clone)]
pub struct ProvenancePane {
    view: DashboardView,
    selected_artifact: Option<ArtifactView>,
    focused: bool,
}

impl ProvenancePane {
    /// The view shown.
    pub closed spec fn view_of(&self) -> DashboardView {
        self.view
    }

    /// The artifact whose provenance is shown.
    pub closed spec fn artifact_of(&self) -> Option<ArtifactView> {
        self.selected_artifact
    }

    /// Whether the pane has focus.
    pub closed spec fn is_focused(&self) -> bool {
        self.focused
    }

    /// A pane on a view with no artifact, unfocused.
    pub fn new(view: DashboardView) -> (r: ProvenancePane)
        ensures
            r.view_of() == view,
            r.artifact_of() is None,
            !r.is_focused(),
    {
        ProvenancePane { view, selected_artifact: None, focused: false }
    }

    /// Replaces the view.
    pub fn set_view(&mut self, view: DashboardView)
        ensures
            final(self).view_of() == view,
            final(self).artifact_of() == old(self).artifact_of(),
            final(self).is_focused() == old(self).is_focused(),
    {
        self.view = view;
    }

    /// Sets the artifact whose provenance is shown.
    pub fn set_selected_artifact(&mut self, artifact: Option<ArtifactView>)
        ensures
            final(self).artifact_of() == artifact,
            final(self).view_of() == old(self).view_of(),
            final(self).is_focused() == old(self).is_focused(),
    {
        self.selected_artifact = artifact;
    }

    /// Gives or takes focus.
    pub fn set_focused(&mut self, focused: bool)
        ensures
            final(self).is_focused() == focused,
            final(self).view_of() == old(self).view_of(),
            final(self).artifact_of() == old(self).artifact_of(),
    {
        self.focused = focused;
    }
}

/// Every artifact with its module's name, module by module.
pub open spec fn artifacts_with_modules(modules: Seq<ModuleView>) -> Seq<(ArtifactView, Seq<char>)>
    decreases modules.len(),
{
    if modules.len() == 0 {
        Seq::empty()
    } else {
        artifacts_with_modules(modules.drop_last()) + modules.last().artifacts@.map_values(
            |a: ArtifactView| (a, modules.last().name@),
        )
    }
}

/// The rows of the sources pane for a query: `<module> / <name>` for each
/// artifact matching the lowercased query (all of them for an empty query).
pub open spec fn source_rows(modules: Seq<ModuleView>, query: Seq<char>) -> Seq<Seq<char>>
    decreases modules.len(),
{
    source_rows_of(artifacts_with_modules(modules), unicode_lowercase(query))
}

/// The rows for some artifacts and a lowercased query.
pub open spec fn source_rows_of(c: Seq<(ArtifactView, Seq<char>)>, q: Seq<char>) -> Seq<Seq<char>>
    decreases c.len(),
{
    if c.len() == 0 {
        Seq::empty()
    } else {
        let prev = source_rows_of(c.drop_last(), q);
        if q.len() == 0 || matches_query_seq(c.last().0, q) {
            prev.push(c.last().1 + " / "@ + c.last().0.name@)
        } else {
            prev
        }
    }
}

/// The pane searching all artifacts by a typed query.
#[derive(Debug, Clone)]
pub struct SourcesPane {
    view: DashboardView,
    watched_locations: Vec<String>,
    query: String,
    selected: usize,
    focused: bool,
}

impl SourcesPane {
    /// The view shown.
    pub closed spec fn view_of(&self) -> DashboardView {
        self.view
    }

    /// The typed query.
    pub closed spec fn query_of(&self) -> Seq<char> {
        self.query@
    }

    /// The selected row.
    pub closed spec fn selected_index(&self) -> int {
        self.selected as int
    }

    /// Whether the pane has focus.
    pub closed spec fn is_focused(&self) -> bool {
        self.focused
    }

    /// The watched locations listed under the results.
    pub closed spec fn watched_of(&self) -> Seq<String> {
        self.watched_locations@
    }

    /// A pane with an empty query and the first row selected, unfocused.
    pub fn new(view: DashboardView, watched_locations: Vec<String>) -> (r: SourcesPane)
        ensures
            r.view_of() == view,
            r.watched_of() == watched_locations@,
            r.query_of().len() == 0,
            r.selected_index() == 0,
            !r.is_focused(),
    {
        SourcesPane { view, watched_locations, query: String::new(), selected: 0, focused: false }
    }

    /// The rows for the current query (see `source_rows`).
    pub fn filtered_matches(&self) -> (r: Vec<String>)
        ensures
            crate::order::views(r@) == source_rows(self.view_of().modules@, self.query_of()),
    {
        let q = chars_of(lowercase(self.query.as_str()).as_str());
        let mut rows: Vec<String> = Vec::new();
        let mut m: usize = 0;
        while m < self.view.modules.len()
            invariant
                m <= self.view.modules.len(),
                q@ == unicode_lowercase(self.query@),
                crate::order::views(rows@) == source_rows_of(artifacts_with_modules(self.view.modules@.take(m as int)), q@),
            decreases self.view.modules.len() - m,
        {
            let module = &self.view.modules[m];
            let ghost base = artifacts_with_modules(self.view.modules@.take(m as int));
            let ghost extra = module.artifacts@.map_values(|a: ArtifactView| (a, module.name@));
            proof {
                assert(self.view.modules@.take(m + 1).drop_last() =~= self.view.modules@.take(m as int));
            }
            let mut a: usize = 0;
            while a < module.artifacts.len()
                invariant
                    a <= module.artifacts.len(),
                    q@ == unicode_lowercase(self.query@),
                    extra == module.artifacts@.map_values(|x: ArtifactView| (x, module.name@)),
                    crate::order::views(rows@) == source_rows_of(base + extra.take(a as int), q@),
                decreases module.artifacts.len() - a,
            {
                let art = &module.artifacts[a];
                proof {
                    assert((base + extra.take(a + 1)).drop_last() =~= base + extra.take(a as int));
                    assert((base + extra.take(a + 1)).last() == (*art, module.name@));
                }
                if q.len() == 0 || art.matches_query(lowercase(self.query.as_str()).as_str()) {
                    let mut row = chars_of(module.name.as_str());
                    extend(&mut row, &lit(" / "));
                    extend(&mut row, &chars_of(art.name.as_str()));
                    let ghost before = rows@;
                    let r = string_of(&row);
                    rows.push(r);
                    assert(crate::order::views(rows@) =~= crate::order::views(before).push(r@));
                }
                a = a + 1;
            }
            assert(extra.take(module.artifacts.len() as int) =~= extra);
            m = m + 1;
        }
        assert(self.view.modules@.take(self.view.modules.len() as int) =~= self.view.modules@);
        rows
    }

    fn clamp_selection(&mut self)
        ensures
            final(self).selected_index() == clamped(
                old(self).selected_index(),
                source_rows(old(self).view_of().modules@, old(self).query_of()).len() as int,
            ),
            final(self).view_of() == old(self).view_of(),
            final(self).query_of() == old(self).query_of(),
            final(self).is_focused() == old(self).is_focused(),
            final(self).watched_of() == old(self).watched_of(),
    {
        let len = self.filtered_matches().len();
        if len == 0 {
            self.selected = 0;
        } else if self.selected >= len {
            self.selected = len - 1;
        }
    }

    /// Replaces the view and watched locations, keeping the selection
    /// inside the rows.
    pub fn set_view(&mut self, view: DashboardView, watched_locations: Vec<String>)
        ensures
            final(self).view_of() == view,
            final(self).watched_of() == watched_locations@,
            final(self).query_of() == old(self).query_of(),
            final(self).selected_index() == clamped(
                old(self).selected_index(),
                source_rows(view.modules@, old(self).query_of()).len() as int,
            ),
            final(self).is_focused() == old(self).is_focused(),
    {
        self.view = view;
        self.watched_locations = watched_locations;
        self.clamp_selection();
    }

    /// Gives or takes focus.
    pub fn set_focused(&mut self, focused: bool)
        ensures
            final(self).is_focused() == focused,
            final(self).view_of() == old(self).view_of(),
            final(self).query_of() == old(self).query_of(),
            final(self).selected_index() == old(self).selected_index(),
    {
        self.focused = focused;
    }

    /// Replaces the query and selects the first row.
    pub fn set_query(&mut self, query: String)
        ensures
            final(self).query_of() == query@,
            final(self).selected_index() == 0,
            final(self).view_of() == old(self).view_of(),
            final(self).watched_of() == old(self).watched_of(),
            final(self).is_focused() == old(self).is_focused(),
    {
        self.query = query;
        self.selected = 0;
        self.clamp_selection();
    }

    /// Applies a key: down and up move within the rows, backspace deletes
    /// the query's last character, a typed character extends the query and
    /// selects the first row.
    pub fn on_key(&mut self, key: PaneKey) -> (r: Outcome)
        ensures
            final(self).view_of() == old(self).view_of(),
            final(self).is_focused() == old(self).is_focused(),
            match key {
                PaneKey::Down => r == Outcome::Handled && final(self).query_of() == old(self).query_of()
                    && final(self).selected_index() == if old(self).selected_index() + 1 < source_rows(
                    old(self).view_of().modules@,
                    old(self).query_of(),
                ).len() {
                    old(self).selected_index() + 1
                } else {
                    old(self).selected_index()
                },
                PaneKey::Up => r == Outcome::Handled && final(self).query_of() == old(self).query_of()
                    && final(self).selected_index() == if old(self).selected_index() > 0 {
                    old(self).selected_index() - 1
                } else {
                    0
                },
                PaneKey::Backspace => r == Outcome::Handled && final(self).query_of() == (if old(self).query_of().len() > 0 {
                    old(self).query_of().drop_last()
                } else {
                    old(self).query_of()
                }) && final(self).selected_index() == clamped(
                    old(self).selected_index(),
                    source_rows(old(self).view_of().modules@, final(self).query_of()).len() as int,
                ),
                PaneKey::Char(c) => r == Outcome::Handled && final(self).query_of() == old(self).query_of().push(c)
                    && final(self).selected_index() == 0,
                PaneKey::Other => r == Outcome::Ignored && final(self).query_of() == old(self).query_of()
                    && final(self).selected_index() == old(self).selected_index(),
            },
    {
        match key {
            PaneKey::Down => {
                let len = self.filtered_matches().len();
                if self.selected < len && self.selected + 1 < len {
                    self.selected = self.selected + 1;
                }
                Outcome::Handled
            },
            PaneKey::Up => {
                if self.selected > 0 {
                    self.selected = self.selected - 1;
                }
                Outcome::Handled
            },
            PaneKey::Backspace => {
                let mut v = chars_of(self.query.as_str());
                if v.len() > 0 {
                    v.pop();
                }
                self.query = string_of(&v);
                self.clamp_selection();
                Outcome::Handled
            },
            PaneKey::Char(c) => {
                push_char(&mut self.query, c);
                self.selected = 0;
                self.clamp_selection();
                Outcome::Handled
            },
            PaneKey::Other => Outcome::Ignored,
        }
    }
}

// ---------------------------------------------------------------------------
// Synthesised artifact views and provenance records

/// The records among `arts` whose source path ends with `path`, in order.
pub open spec fn ending_with(arts: Seq<ProvenanceArtifact>, path: Seq<char>) -> Seq<ProvenanceArtifact>
    decreases arts.len(),
{
    if arts.len() == 0 {
        Seq::empty()
    } else {
        let prev = ending_with(arts.drop_last(), path);
        if has_suffix(arts.last().source_path@, path) {
            prev.push(arts.last())
        } else {
            prev
        }
    }
}

/// The deployment records of an artifact: from each provenance group of the
/// module's source (compared without `.git` suffixes), the records whose
/// source path ends with the artifact's path, in order.
pub open spec fn module_records(groups: Seq<ProvenanceView>, source: Seq<char>, path: Seq<char>) -> Seq<ProvenanceArtifact>
    decreases groups.len(),
{
    if groups.len() == 0 {
        Seq::empty()
    } else {
        let prev = module_records(groups.drop_last(), source, path);
        let g = groups.last();
        if strip_suffix_all(g.source_uri@, ".git"@) == strip_suffix_all(source, ".git"@) {
            prev + ending_with(g.artifacts@, path)
        } else {
            prev
        }
    }
}

/// The records behind references.
pub open spec fn record_values(v: Seq<&ProvenanceArtifact>) -> Seq<ProvenanceArtifact> {
    v.map_values(|e: &ProvenanceArtifact| *e)
}

/// Collects an artifact's deployment records (see `module_records`).
pub fn provenance_entries<'a>(view: &'a DashboardView, module: &ModuleView, artifact: &ArtifactView) -> (r: Vec<&'a ProvenanceArtifact>)
    ensures
        record_values(r@) == module_records(view.provenance@, module.source_uri@, artifact.relative_path@),
{
    let source = chars_of(canonical_source(module.source_uri.as_str()).as_str());
    let path = chars_of(artifact.relative_path.as_str());
    let mut r: Vec<&'a ProvenanceArtifact> = Vec::new();
    let mut g: usize = 0;
    while g < view.provenance.len()
        invariant
            g <= view.provenance.len(),
            source@ == strip_suffix_all(module.source_uri@, ".git"@),
            path@ == artifact.relative_path@,
            record_values(r@) == module_records(view.provenance@.take(g as int), module.source_uri@, path@),
        decreases view.provenance.len() - g,
    {
        proof {
            assert(view.provenance@.take(g + 1).drop_last() =~= view.provenance@.take(g as int));
            assert(view.provenance@.take(g + 1).last() == view.provenance@[g as int]);
        }
        let group = &view.provenance[g];
        if eq(&chars_of(canonical_source(group.source_uri.as_str()).as_str()), &source) {
            let ghost start = record_values(r@);
            let mut k: usize = 0;
            while k < group.artifacts.len()
                invariant
                    k <= group.artifacts.len(),
                    path@ == artifact.relative_path@,
                    record_values(r@) == start + ending_with(group.artifacts@.take(k as int), path@),
                decreases group.artifacts.len() - k,
            {
                proof {
                    assert(group.artifacts@.take(k + 1).drop_last() =~= group.artifacts@.take(k as int));
                    assert(group.artifacts@.take(k + 1).last() == group.artifacts@[k as int]);
                }
                let e = &group.artifacts[k];
                if ends_with(&chars_of(e.source_path.as_str()), &path) {
                    let ghost before = record_values(r@);
                    r.push(e);
                    assert(record_values(r@) =~= before.push(*e));
                }
                k = k + 1;
            }
            assert(group.artifacts@.take(group.artifacts.len() as int) =~= group.artifacts@);
        }
        g = g + 1;
    }
    assert(view.provenance@.take(view.provenance.len() as int) =~= view.provenance@);
    r
}

/// The artifact the terminal view shows for an ADR: named by id and title,
/// described by its state and status, with the file's frontmatter fields,
/// body, raw text and history, and the module's version-control state.
pub fn adr_artifact_view(adr: &Adr, raw: String, git_log: Vec<GitCommit>, vcs: Option<VcsState>) -> (r: ArtifactView)
    ensures
        r.name@ == adr.id@ + " "@ + adr.title@,
        r.kind@ == "adr"@,
        r.module@ == adr.repo@,
        r.relative_path@ == adr.relative_path@,
        r.source_path@ == adr.relative_path@,
        r.description@ == adr.state@ + " · "@ + adr.status@,
        pair_views(r.metadata@) == frontmatter_pairs(raw@),
        r.content_body@ == body_after_fm(raw@),
        r.raw_source@ == raw@,
        r.git_log@ == git_log@,
        r.vcs == vcs,
        r.content_preview@.len() == 0 && r.providers@.len() == 0 && r.adoption is None,
        r.sidecar_warning@.len() == 0 && r.broken_refs@.len() == 0 && r.age_days is None,
        r.module_tint == 0 && r.companions@.len() == 0 && r.variants@.len() == 0,
{
    let mut name = chars_of(adr.id.as_str());
    extend(&mut name, &lit(" "));
    extend(&mut name, &chars_of(adr.title.as_str()));
    let mut description = chars_of(adr.state.as_str());
    extend(&mut description, &lit(" · "));
    extend(&mut description, &chars_of(adr.status.as_str()));
    let metadata = parse_frontmatter(raw.as_str());
    let body = scan_strip_frontmatter(raw.as_str());
    ArtifactView {
        name: string_of(&name),
        kind: String::from_str("adr"),
        module: adr.repo.clone(),
        relative_path: adr.relative_path.clone(),
        source_path: adr.relative_path.clone(),
        description: string_of(&description),
        content_preview: String::new(),
        content_body: body,
        raw_source: raw,
        metadata,
        providers: Vec::new(),
        git_log,
        adoption: None,
        sidecar_warning: String::new(),
        broken_refs: Vec::new(),
        age_days: None,
        module_tint: 0,
        companions: Vec::new(),
        variants: Vec::new(),
        vcs,
    }
}

/// The artifact the terminal view shows for a skill companion: named
/// `parent/name`, of kind `companion`, with the companion's path, text and
/// frontmatter fields, its history and the module's version-control state.
pub fn companion_artifact_view(
    module_name: &str,
    parent: &str,
    companion: &Companion,
    git_log: Vec<GitCommit>,
    vcs: Option<VcsState>,
) -> (r: ArtifactView)
    ensures
        r.name@ == parent@ + "/"@ + companion.name@,
        r.kind@ == "companion"@,
        r.module@ == module_name@,
        r.relative_path@ == companion.relative_path@,
        r.source_path@ == companion.relative_path@,
        r.description@ == companion.description@,
        pair_views(r.metadata@) == frontmatter_pairs(companion.raw_source@),
        r.content_body@ == companion.content_body@,
        r.raw_source@ == companion.raw_source@,
        r.git_log@ == git_log@,
        r.vcs == vcs,
        r.content_preview@.len() == 0 && r.providers@.len() == 0 && r.adoption is None,
        r.sidecar_warning@.len() == 0 && r.broken_refs@.len() == 0 && r.age_days is None,
        r.module_tint == 0 && r.companions@.len() == 0 && r.variants@.len() == 0,
{
    let mut name = chars_of(parent);
    extend(&mut name, &lit("/"));
    extend(&mut name, &chars_of(companion.name.as_str()));
    ArtifactView {
        name: string_of(&name),
        kind: String::from_str("companion"),
        module: String::from_str(module_name),
        relative_path: companion.relative_path.clone(),
        source_path: companion.relative_path.clone(),
        description: companion.description.clone(),
        content_preview: String::new(),
        content_body: companion.content_body.clone(),
        raw_source: companion.raw_source.clone(),
        metadata: parse_frontmatter(companion.raw_source.as_str()),
        providers: Vec::new(),
        git_log,
        adoption: None,
        sidecar_warning: String::new(),
        broken_refs: Vec::new(),
        age_days: None,
        module_tint: 0,
        companions: Vec::new(),
        variants: Vec::new(),
        vcs,
    }
}

// ---------------------------------------------------------------------------
// Running palette commands

/// What running a palette command does to the browser: rescan, quit, search
/// for a query (in the search section, list focused, first row selected),
/// nothing, or show an error in the palette.
#[derive(Debug, Clone)]
pub enum PaletteEffect {
    Refresh,
    Quit,
    Search(String),
    Nothing,
    Error(String),
}

/// The effect of a palette command; an unknown verb is reported as
/// `unknown command: <verb>` and is not fatal.
pub fn execute_palette_command(command: PaletteCommand) -> (r: PaletteEffect)
    ensures
        match command {
            PaletteCommand::Refresh => r is Refresh,
            PaletteCommand::Quit => r is Quit,
            PaletteCommand::Find(q) => r matches PaletteEffect::Search(s) && s@ == q@,
            PaletteCommand::Empty => r is Nothing,
            PaletteCommand::Unknown(v) => r matches PaletteEffect::Error(e) && e@ == "unknown command: "@ + v@,
        },
{
    match command {
        PaletteCommand::Refresh => PaletteEffect::Refresh,
        PaletteCommand::Quit => PaletteEffect::Quit,
        PaletteCommand::Find(q) => PaletteEffect::Search(q),
        PaletteCommand::Empty => PaletteEffect::Nothing,
        PaletteCommand::Unknown(v) => {
            let mut e = lit("unknown command: ");
            extend(&mut e, &chars_of(v.as_str()));
            PaletteEffect::Error(string_of(&e))
        },
    }
}

// ---------------------------------------------------------------------------
// Mouse and detail keys

/// A rectangle of the screen.
#[derive(Debug, Clone, Copy)]
pub struct Region {
    pub x: u16,
    pub y: u16,
    pub width: u16,
    pub height: u16,
}

/// The point lies in the region (its right and bottom edges excluded, each
/// edge held within `u16`).
pub open spec fn region_contains(r: Region, x: u16, y: u16) -> bool {
    let right = if r.x + r.width > 65535 { 65535 } else { r.x + r.width };
    let bottom = if r.y + r.height > 65535 { 65535 } else { r.y + r.height };
    r.x <= x && x < right && r.y <= y && y < bottom
}

fn contains(r: Region, x: u16, y: u16) -> (b: bool)
    ensures
        b == region_contains(r, x, y),
{
    let right = r.x.saturating_add(r.width);
    let bottom = r.y.saturating_add(r.height);
    r.x <= x && x < right && r.y <= y && y < bottom
}

/// The row inside a bordered region under the point (0 is the first row
/// below the top border), when the point is inside the border.
pub open spec fn bordered_row(r: Region, x: u16, y: u16) -> Option<int> {
    let right = if r.x + r.width > 65535 { 65535 } else { r.x + r.width };
    let bottom = if r.y + r.height > 65535 { 65535 } else { r.y + r.height };
    let x1 = if x + 1 > 65535 { 65535 } else { x + 1 };
    let y1 = if y + 1 > 65535 { 65535 } else { y + 1 };
    if x > r.x && x1 < right && y > r.y && y1 < bottom {
        Some(y - r.y - 1)
    } else {
        None
    }
}

/// The row of a bordered region under the point (see `bordered_row`).
pub fn bordered_row_at(r: Region, x: u16, y: u16) -> (o: Option<usize>)
    ensures
        match o {
            Some(i) => bordered_row(r, x, y) == Some(i as int),
            None => bordered_row(r, x, y) is None,
        },
{
    let inside_x = x > r.x && x.saturating_add(1) < r.x.saturating_add(r.width);
    let inside_y = y > r.y && y.saturating_add(1) < r.y.saturating_add(r.height);
    if inside_x && inside_y {
        Some((y - r.y - 1) as usize)
    } else {
        None
    }
}

/// Where the browser's panes were last drawn.
#[derive(Debug, Clone, Copy)]
pub struct MouseRegions {
    pub sections: Region,
    pub list: Region,
    pub tabs: Region,
    pub detail: Region,
}

/// What a click does: the column it focuses, the detail tab or section it
/// picks, the list row it selects, and whether it toggles the overview
/// mode or opens the (already selected) row.
#[derive(Debug, Clone)]
pub struct ClickEffect {
    pub focus: Option<ColumnFocus>,
    pub tab: Option<DetailTab>,
    pub section: Option<Section>,
    pub select: Option<usize>,
    pub toggle_mode: bool,
    pub activate: bool,
}

/// The effect of a click at `(x, y)`. Nothing happens while an overlay
/// (preview, help, palette or comment prompt) is open. The tab bar focuses
/// the detail column and, on its first line, picks the tab under the
/// pointer; the sections column focuses and picks a section; the list
/// focuses and selects a selectable row (scrolled by `list_offset`),
/// toggling the overview mode on its switch row and opening a row clicked
/// while already selected; the detail pane only takes focus.
pub open spec fn click_effect(
    regions: MouseRegions,
    x: u16,
    y: u16,
    overlay_open: bool,
    list_offset: usize,
    rows: Seq<crate::nav::ListRow>,
    selected: usize,
) -> ClickEffect {
    let none = ClickEffect { focus: None, tab: None, section: None, select: None, toggle_mode: false, activate: false };
    if overlay_open {
        none
    } else if region_contains(regions.tabs, x, y) {
        let tab = if y == regions.tabs.y {
            tab_under(if x < regions.tabs.x { 0 } else { x - regions.tabs.x })
        } else {
            None
        };
        ClickEffect { focus: Some(ColumnFocus::Detail), tab, ..none }
    } else if region_contains(regions.sections, x, y) {
        let section = match bordered_row(regions.sections, x, y) {
            Some(i) => if i < SECTION_COUNT { Some(section_at(i)) } else { None },
            None => None,
        };
        ClickEffect { focus: Some(ColumnFocus::Sections), section, ..none }
    } else if region_contains(regions.list, x, y) {
        match bordered_row(regions.list, x, y) {
            Some(v) => {
                let row = if v + list_offset > usize::MAX { usize::MAX as int } else { v + list_offset };
                if 0 <= row < rows.len() && crate::nav::selectable(rows[row]) {
                    let toggles = rows[row].target is OverviewMode;
                    ClickEffect {
                        focus: Some(ColumnFocus::List),
                        select: Some(row as usize),
                        toggle_mode: toggles,
                        activate: !toggles && selected == row,
                        ..none
                    }
                } else {
                    ClickEffect { focus: Some(ColumnFocus::List), ..none }
                }
            },
            None => ClickEffect { focus: Some(ColumnFocus::List), ..none },
        }
    } else if region_contains(regions.detail, x, y) {
        ClickEffect { focus: Some(ColumnFocus::Detail), ..none }
    } else {
        none
    }
}

/// Decides what a click does (see `click_effect`).
pub fn mouse_click(
    regions: &MouseRegions,
    x: u16,
    y: u16,
    overlay_open: bool,
    list_offset: usize,
    rows: &[crate::nav::ListRow],
    selected: usize,
) -> (r: ClickEffect)
    ensures
        r == click_effect(*regions, x, y, overlay_open, list_offset, rows@, selected),
{
    let none = ClickEffect { focus: None, tab: None, section: None, select: None, toggle_mode: false, activate: false };
    if overlay_open {
        return none;
    }
    if contains(regions.tabs, x, y) {
        let tab = if y == regions.tabs.y {
            tab_at_column(x.saturating_sub(regions.tabs.x))
        } else {
            None
        };
        return ClickEffect { focus: Some(ColumnFocus::Detail), tab, ..none };
    }
    if contains(regions.sections, x, y) {
        let section = match bordered_row_at(regions.sections, x, y) {
            Some(i) => if i < SECTION_COUNT { Some(Section::from_index(i)) } else { None },
            None => None,
        };
        return ClickEffect { focus: Some(ColumnFocus::Sections), section, ..none };
    }
    if contains(regions.list, x, y) {
        return match bordered_row_at(regions.list, x, y) {
            Some(v) => {
                let row = v.saturating_add(list_offset);
                if row < rows.len() && rows[row].is_selectable() {
                    let toggles = matches!(rows[row].target, crate::nav::ListTarget::OverviewMode);
                    ClickEffect {
                        focus: Some(ColumnFocus::List),
                        select: Some(row),
                        toggle_mode: toggles,
                        activate: !toggles && selected == row,
                        ..none
                    }
                } else {
                    ClickEffect { focus: Some(ColumnFocus::List), ..none }
                }
            },
            None => ClickEffect { focus: Some(ColumnFocus::List), ..none },
        };
    }
    if contains(regions.detail, x, y) {
        return ClickEffect { focus: Some(ColumnFocus::Detail), ..none };
    }
    none
}

/// A key pressed while the detail column has focus.
#[derive(Debug, Clone, Copy)]
pub enum DetailKey {
    Down,
    Up,
    PageDown,
    PageUp,
    Home,
    End,
    Tab,
    /// A character typed without the control modifier.
    Char(char),
    /// A character typed with the control modifier.
    Control(char),
    Other,
}

/// What a detail key does: a step of the cursor or scroll, to the top or
/// bottom, a jump between diff hunks, a tab switch, the next tab, a comment
/// on the code (switching to the Code tab first), or nothing.
#[derive(Debug, Clone, Copy)]
pub enum DetailAction {
    Step(isize),
    Top,
    Bottom,
    JumpHunk(bool),
    SetTab(DetailTab),
    NextTab,
    Comment { switch_to_code: bool },
    Nothing,
}

/// A page is the viewport less one row (at least one row); half a page is
/// at least one row.
pub open spec fn page_rows(viewport: usize) -> int {
    let v = if viewport < 2 { 2 } else { viewport as int };
    if v - 1 > isize::MAX { 10 } else { v - 1 }
}

/// The action of a detail key on tab `tab` with `viewport` visible rows.
pub open spec fn detail_action(key: DetailKey, tab: DetailTab, viewport: usize) -> DetailAction {
    let page = page_rows(viewport);
    let half = if page / 2 < 1 { 1 } else { page / 2 };
    match key {
        DetailKey::Down => DetailAction::Step(1isize),
        DetailKey::Up => DetailAction::Step(-1isize),
        DetailKey::PageDown => DetailAction::Step(page as isize),
        DetailKey::PageUp => DetailAction::Step((-page) as isize),
        DetailKey::Home => DetailAction::Top,
        DetailKey::End => DetailAction::Bottom,
        DetailKey::Tab => DetailAction::NextTab,
        DetailKey::Control(c) => if c == 'd' {
            DetailAction::Step(half as isize)
        } else if c == 'u' {
            DetailAction::Step((-half) as isize)
        } else {
            DetailAction::Nothing
        },
        DetailKey::Char(c) => if c == 'j' {
            DetailAction::Step(1isize)
        } else if c == 'k' {
            DetailAction::Step(-1isize)
        } else if c == ' ' {
            DetailAction::Step(page as isize)
        } else if c == 'b' {
            DetailAction::Step((-page) as isize)
        } else if c == 'g' {
            DetailAction::Top
        } else if c == 'G' {
            DetailAction::Bottom
        } else if c == ']' && tab == DetailTab::Diff {
            DetailAction::JumpHunk(true)
        } else if c == '[' && tab == DetailTab::Diff {
            DetailAction::JumpHunk(false)
        } else if c == 'p' {
            DetailAction::SetTab(DetailTab::Preview)
        } else if c == 'c' {
            DetailAction::SetTab(DetailTab::Code)
        } else if c == 'd' {
            DetailAction::SetTab(DetailTab::Diff)
        } else if c == 'v' {
            DetailAction::SetTab(DetailTab::Provenance)
        } else if c == 'f' {
            DetailAction::SetTab(DetailTab::Frontmatter)
        } else if c == 'i' {
            DetailAction::SetTab(DetailTab::History)
        } else if c == 'n' {
            DetailAction::SetTab(DetailTab::Companions)
        } else if c == 'm' {
            DetailAction::Comment { switch_to_code: tab != DetailTab::Code }
        } else {
            DetailAction::Nothing
        },
        DetailKey::Other => DetailAction::Nothing,
    }
}

/// Decides what a detail key does (see `detail_action`).
pub fn detail_key(key: DetailKey, tab: DetailTab, viewport: usize) -> (r: DetailAction)
    ensures
        r == detail_action(key, tab, viewport),
{
    let v: usize = if viewport < 2 { 2 } else { viewport };
    let page: isize = if v - 1 > isize::MAX as usize { 10 } else { (v - 1) as isize };
    let half: isize = if page / 2 < 1 { 1 } else { page / 2 };
    match key {
        DetailKey::Down => DetailAction::Step(1),
        DetailKey::Up => DetailAction::Step(-1),
        DetailKey::PageDown => DetailAction::Step(page),
        DetailKey::PageUp => DetailAction::Step(-page),
        DetailKey::Home => DetailAction::Top,
        DetailKey::End => DetailAction::Bottom,
        DetailKey::Tab => DetailAction::NextTab,
        DetailKey::Control(c) => if c == 'd' {
            DetailAction::Step(half)
        } else if c == 'u' {
            DetailAction::Step(-half)
        } else {
            DetailAction::Nothing
        },
        DetailKey::Char(c) => if c == 'j' {
            DetailAction::Step(1)
        } else if c == 'k' {
            DetailAction::Step(-1)
        } else if c == ' ' {
            DetailAction::Step(page)
        } else if c == 'b' {
            DetailAction::Step(-page)
        } else if c == 'g' {
            DetailAction::Top
        } else if c == 'G' {
            DetailAction::Bottom
        } else if c == ']' && tab == DetailTab::Diff {
            DetailAction::JumpHunk(true)
        } else if c == '[' && tab == DetailTab::Diff {
            DetailAction::JumpHunk(false)
        } else if c == 'p' {
            DetailAction::SetTab(DetailTab::Preview)
        } else if c == 'c' {
            DetailAction::SetTab(DetailTab::Code)
        } else if c == 'd' {
            DetailAction::SetTab(DetailTab::Diff)
        } else if c == 'v' {
            DetailAction::SetTab(DetailTab::Provenance)
        } else if c == 'f' {
            DetailAction::SetTab(DetailTab::Frontmatter)
        } else if c == 'i' {
            DetailAction::SetTab(DetailTab::History)
        } else if c == 'n' {
            DetailAction::SetTab(DetailTab::Companions)
        } else if c == 'm' {
            DetailAction::Comment { switch_to_code: tab != DetailTab::Code }
        } else {
            DetailAction::Nothing
        },
        DetailKey::Other => DetailAction::Nothing,
    }
}

/// Rows the mouse wheel moves per notch.
pub const WHEEL_STEP: u16 = 3;

/// What a wheel notch scrolls: the open preview, the detail pane or the
/// list under the pointer (never the selection), or nothing (help open, or
/// the pointer elsewhere).
#[derive(Debug, Clone, Copy)]
pub enum WheelEffect {
    Preview { down: bool },
    Detail(u16),
    List(usize),
    Nothing,
}

/// The effect of a wheel notch at `(x, y)` given the current detail scroll
/// and list offset.
pub open spec fn wheel_effect(
    regions: MouseRegions,
    x: u16,
    y: u16,
    down: bool,
    preview_open: bool,
    help_open: bool,
    detail_scroll: u16,
    list_offset: usize,
) -> WheelEffect {
    if preview_open {
        WheelEffect::Preview { down }
    } else if help_open {
        WheelEffect::Nothing
    } else if region_contains(regions.detail, x, y) {
        let s = if down { detail_scroll + 3 } else { detail_scroll - 3 };
        WheelEffect::Detail((if s < 0 { 0 } else if s > 65535 { 65535 } else { s }) as u16)
    } else if region_contains(regions.list, x, y) {
        let o = if down { list_offset + 3 } else { list_offset - 3 };
        WheelEffect::List((if o < 0 { 0 } else if o > usize::MAX { usize::MAX as int } else { o }) as usize)
    } else {
        WheelEffect::Nothing
    }
}

/// Decides what a wheel notch scrolls (see `wheel_effect`).
pub fn mouse_scroll(
    regions: &MouseRegions,
    x: u16,
    y: u16,
    down: bool,
    preview_open: bool,
    help_open: bool,
    detail_scroll: u16,
    list_offset: usize,
) -> (r: WheelEffect)
    ensures
        r == wheel_effect(*regions, x, y, down, preview_open, help_open, detail_scroll, list_offset),
{
    if preview_open {
        WheelEffect::Preview { down }
    } else if help_open {
        WheelEffect::Nothing
    } else if contains(regions.detail, x, y) {
        WheelEffect::Detail(
            if down {
                detail_scroll.saturating_add(WHEEL_STEP)
            } else {
                detail_scroll.saturating_sub(WHEEL_STEP)
            },
        )
    } else if contains(regions.list, x, y) {
        WheelEffect::List(
            if down {
                list_offset.saturating_add(WHEEL_STEP as usize)
            } else {
                list_offset.saturating_sub(WHEEL_STEP as usize)
            },
        )
    } else {
        WheelEffect::Nothing
    }
}

/// `links` are the dependencies of the adoption record resolved against the
/// modules (see `resolve_dep_links`).
pub open spec fn links_resolved(modules: Seq<ModuleView>, adoption: Option<Adoption>, links: Seq<DepLink>) -> bool {
    match adoption {
        None => links.len() == 0,
        Some(a) => links.len() == a.dependencies@.len() && forall|i: int|
            0 <= i < links.len() ==> {
                &&& (#[trigger] links[i]).name@ == a.dependencies@[i].name@
                &&& links[i].uri@ == a.dependencies@[i].uri@
                &&& links[i].module@ == skill_module(modules, a.dependencies@[i].name@)
            },
    }
}

/// `groups` are the deployment records grouped by target (see
/// `group_deployments`).
pub open spec fn grouped_by_target(records: Seq<ProvenanceArtifact>, groups: Seq<DeployGroup>) -> bool {
    &&& groups.len() == targets_in(records).len()
    &&& forall|k: int|
        0 <= k < groups.len() ==> group_matches(#[trigger] groups[k], records, targets_in(records)[k])
}

/// The provenance chain of an artifact in the detail pane (see
/// `provenance_view`): its dependencies resolved against the view's modules,
/// its deployment records (see `module_records`) grouped by target;
/// `staleness` is its staleness label.
pub fn provenance_lines(view: &DashboardView, module: &ModuleView, artifact: &ArtifactView, staleness: &str) -> (r: Vec<StyledLine>)
    ensures
        exists|links: Seq<DepLink>, groups: Seq<DeployGroup>|
            {
                &&& links_resolved(view.modules@, artifact.adoption, links)
                &&& grouped_by_target(
                    module_records(view.provenance@, module.source_uri@, artifact.relative_path@),
                    groups,
                )
                &&& lines_view(r@) =~~= #[trigger] provenance_view(*module, *artifact, staleness@, links, groups)
            },
{
    let links = resolve_dep_links(view, artifact.adoption.as_ref());
    let entries = provenance_entries(view, module, artifact);
    let groups = group_deployments(entries.as_slice());
    let r = provenance_chain_lines(module, artifact, staleness, links.as_slice(), groups.as_slice());
    proof {
        assert(entry_refs(entries@) == record_values(entries@));
        assert(links_resolved(view.modules@, artifact.adoption, links@));
        assert(grouped_by_target(
            module_records(view.provenance@, module.source_uri@, artifact.relative_path@),
            groups@,
        ));
    }
    r
}

// ---------------------------------------------------------------------------
// What the detail pane shows

/// The files listed in the settings, hooks, config and schema sections.
#[derive(Debug, Clone)]
pub struct FileSections {
    pub settings: Vec<HarnessFiles>,
    pub hooks: Vec<HarnessHooks>,
    pub config: Vec<ConfigFile>,
    pub schemas: Vec<SchemaGroup>,
}

/// What the detail pane shows for the selected row.
#[derive(Debug, Clone)]
pub enum DetailPane {
    /// An artifact, by the index of its module and its index there.
    Artifact { module_index: usize, artifact_index: usize },
    /// An ADR, by its index in the view.
    Adr(usize),
    Companion { module: String, parent: String, name: String },
    /// A module, by its index in the view.
    Module(usize),
    Variant { module: String, kind: String, name: String, qualifier: String },
    /// The content of a settings, config or schema file.
    File(String),
    Hook(HookEntry),
    Overview,
    /// The row names something the view no longer holds; the message says
    /// what.
    NotFound(&'static str),
}

/// The index of the first module named `name`.
pub open spec fn module_position(ms: Seq<ModuleView>, name: Seq<char>) -> Option<int>
    decreases ms.len(),
{
    if ms.len() == 0 {
        None
    } else {
        match module_position(ms.drop_last(), name) {
            Some(i) => Some(i),
            None => if ms.last().name@ == name {
                Some(ms.len() - 1)
            } else {
                None
            },
        }
    }
}

/// The index of the first artifact of that kind and name.
pub open spec fn artifact_position(arts: Seq<ArtifactView>, kind: Seq<char>, name: Seq<char>) -> Option<int>
    decreases arts.len(),
{
    if arts.len() == 0 {
        None
    } else {
        match artifact_position(arts.drop_last(), kind, name) {
            Some(i) => Some(i),
            None => if arts.last().kind@ == kind && arts.last().name@ == name {
                Some(arts.len() - 1)
            } else {
                None
            },
        }
    }
}

/// The index of the first ADR of that repository and id.
pub open spec fn adr_position(adrs: Seq<Adr>, repo: Seq<char>, id: Seq<char>) -> Option<int>
    decreases adrs.len(),
{
    if adrs.len() == 0 {
        None
    } else {
        match adr_position(adrs.drop_last(), repo, id) {
            Some(i) => Some(i),
            None => if adrs.last().repo@ == repo && adrs.last().id@ == id {
                Some(adrs.len() - 1)
            } else {
                None
            },
        }
    }
}

/// The artifact's indices: the first module of that name, and in it the
/// first artifact of that kind and name (none when either is missing).
pub open spec fn artifact_indices(ms: Seq<ModuleView>, module: Seq<char>, kind: Seq<char>, name: Seq<char>) -> Option<(usize, usize)> {
    match module_position(ms, module) {
        Some(m) => match artifact_position(ms[m].artifacts@, kind, name) {
            Some(a) => Some((m as usize, a as usize)),
            None => None,
        },
        None => None,
    }
}

fn module_index(ms: &Vec<ModuleView>, name: &str) -> (r: Option<usize>)
    ensures
        match module_position(ms@, name@) {
            Some(i) => r is Some && r->0 == i && i < ms@.len(),
            None => r is None,
        },
{
    let n = chars_of(name);
    let mut i: usize = 0;
    while i < ms.len()
        invariant
            i <= ms.len(),
            n@ == name@,
            module_position(ms@.take(i as int), name@) is None,
        decreases ms.len() - i,
    {
        assert(ms@.take(i + 1).drop_last() =~= ms@.take(i as int));
        if eq(&chars_of(ms[i].name.as_str()), &n) {
            proof {
                lemma_module_position_prefix(ms@, name@, i as int);
            }
            return Some(i);
        }
        i = i + 1;
    }
    assert(ms@.take(ms.len() as int) =~= ms@);
    None
}

proof fn lemma_module_position_prefix(ms: Seq<ModuleView>, name: Seq<char>, i: int)
    requires
        0 <= i < ms.len(),
        module_position(ms.take(i), name) is None,
        ms[i].name@ == name,
    ensures
        module_position(ms, name) == Some(i),
    decreases ms.len() - i,
{
    assert(ms.take(i + 1).drop_last() =~= ms.take(i));
    if i + 1 < ms.len() {
        assert(module_position(ms.take(i + 1), name) == Some(i));
        lemma_module_position_extend(ms, name, i + 1);
    } else {
        assert(ms.take(i + 1) =~= ms);
    }
}

proof fn lemma_module_position_extend(ms: Seq<ModuleView>, name: Seq<char>, k: int)
    requires
        0 < k <= ms.len(),
        module_position(ms.take(k), name) is Some,
    ensures
        module_position(ms, name) == module_position(ms.take(k), name),
    decreases ms.len() - k,
{
    if k < ms.len() {
        assert(ms.take(k + 1).drop_last() =~= ms.take(k));
        lemma_module_position_extend(ms, name, k + 1);
    } else {
        assert(ms.take(k) =~= ms);
    }
}

pub(crate) fn artifact_index(arts: &Vec<ArtifactView>, kind: &str, name: &str) -> (r: Option<usize>)
    ensures
        match artifact_position(arts@, kind@, name@) {
            Some(i) => r is Some && r->0 == i && i < arts@.len(),
            None => r is None,
        },
{
    let k = chars_of(kind);
    let n = chars_of(name);
    let mut i: usize = 0;
    while i < arts.len()
        invariant
            i <= arts.len(),
            k@ == kind@,
            n@ == name@,
            artifact_position(arts@.take(i as int), kind@, name@) is None,
        decreases arts.len() - i,
    {
        assert(arts@.take(i + 1).drop_last() =~= arts@.take(i as int));
        if eq(&chars_of(arts[i].kind.as_str()), &k) && eq(&chars_of(arts[i].name.as_str()), &n) {
            proof {
                lemma_artifact_position_prefix(arts@, kind@, name@, i as int);
            }
            return Some(i);
        }
        i = i + 1;
    }
    assert(arts@.take(arts.len() as int) =~= arts@);
    None
}

proof fn lemma_artifact_position_prefix(arts: Seq<ArtifactView>, kind: Seq<char>, name: Seq<char>, i: int)
    requires
        0 <= i < arts.len(),
        artifact_position(arts.take(i), kind, name) is None,
        arts[i].kind@ == kind && arts[i].name@ == name,
    ensures
        artifact_position(arts, kind, name) == Some(i),
    decreases arts.len() - i,
{
    assert(arts.take(i + 1).drop_last() =~= arts.take(i));
    assert(artifact_position(arts.take(i + 1), kind, name) == Some(i));
    lemma_artifact_position_extend(arts, kind, name, i + 1);
}

proof fn lemma_artifact_position_extend(arts: Seq<ArtifactView>, kind: Seq<char>, name: Seq<char>, k: int)
    requires
        0 < k <= arts.len(),
        artifact_position(arts.take(k), kind, name) is Some,
    ensures
        artifact_position(arts, kind, name) == artifact_position(arts.take(k), kind, name),
    decreases arts.len() - k,
{
    if k < arts.len() {
        assert(arts.take(k + 1).drop_last() =~= arts.take(k));
        lemma_artifact_position_extend(arts, kind, name, k + 1);
    } else {
        assert(arts.take(k) =~= arts);
    }
}

fn adr_index(adrs: &Vec<Adr>, repo: &str, id: &str) -> (r: Option<usize>)
    ensures
        match adr_position(adrs@, repo@, id@) {
            Some(i) => r is Some && r->0 == i,
            None => r is None,
        },
{
    let rp = chars_of(repo);
    let d = chars_of(id);
    let mut i: usize = 0;
    while i < adrs.len()
        invariant
            i <= adrs.len(),
            rp@ == repo@,
            d@ == id@,
            adr_position(adrs@.take(i as int), repo@, id@) is None,
        decreases adrs.len() - i,
    {
        assert(adrs@.take(i + 1).drop_last() =~= adrs@.take(i as int));
        if eq(&chars_of(adrs[i].repo.as_str()), &rp) && eq(&chars_of(adrs[i].id.as_str()), &d) {
            proof {
                lemma_adr_position_prefix(adrs@, repo@, id@, i as int);
            }
            return Some(i);
        }
        i = i + 1;
    }
    assert(adrs@.take(adrs.len() as int) =~= adrs@);
    None
}

proof fn lemma_adr_position_prefix(adrs: Seq<Adr>, repo: Seq<char>, id: Seq<char>, i: int)
    requires
        0 <= i < adrs.len(),
        adr_position(adrs.take(i), repo, id) is None,
        adrs[i].repo@ == repo && adrs[i].id@ == id,
    ensures
        adr_position(adrs, repo, id) == Some(i),
    decreases adrs.len() - i,
{
    assert(adrs.take(i + 1).drop_last() =~= adrs.take(i));
    assert(adr_position(adrs.take(i + 1), repo, id) == Some(i));
    lemma_adr_position_extend(adrs, repo, id, i + 1);
}

proof fn lemma_adr_position_extend(adrs: Seq<Adr>, repo: Seq<char>, id: Seq<char>, k: int)
    requires
        0 < k <= adrs.len(),
        adr_position(adrs.take(k), repo, id) is Some,
    ensures
        adr_position(adrs, repo, id) == adr_position(adrs.take(k), repo, id),
    decreases adrs.len() - k,
{
    if k < adrs.len() {
        assert(adrs.take(k + 1).drop_last() =~= adrs.take(k));
        lemma_adr_position_extend(adrs, repo, id, k + 1);
    } else {
        assert(adrs.take(k) =~= adrs);
    }
}

/// Finds an artifact's indices (see `artifact_indices`).
pub fn find_artifact_indices(view: &DashboardView, module: &str, kind: &str, name: &str) -> (r: Option<(usize, usize)>)
    ensures
        r == artifact_indices(view.modules@, module@, kind@, name@),
{
    match module_index(&view.modules, module) {
        Some(m) => {
            let found = artifact_index(&view.modules[m].artifacts, kind, name);
            match found {
                Some(a) => Some((m, a)),
                None => None,
            }
        },
        None => None,
    }
}

/// The file at `index` of group `group`, if both exist.
pub open spec fn file_at(groups: Seq<Seq<ConfigFile>>, group: usize, index: usize) -> Option<ConfigFile> {
    if group < groups.len() && index < groups[group as int].len() {
        Some(groups[group as int][index as int])
    } else {
        None
    }
}

/// The settings files by harness.
pub open spec fn settings_groups(f: FileSections) -> Seq<Seq<ConfigFile>> {
    f.settings@.map_values(|g: HarnessFiles| g.files@)
}

/// The schema files by source.
pub open spec fn schema_groups(f: FileSections) -> Seq<Seq<ConfigFile>> {
    f.schemas@.map_values(|g: SchemaGroup| g.files@)
}

/// The hook at `index` of harness group `group`, if both exist.
pub open spec fn hook_at(f: FileSections, group: usize, index: usize) -> Option<HookEntry> {
    if group < f.hooks@.len() && index < f.hooks@[group as int].hooks@.len() {
        Some(f.hooks@[group as int].hooks@[index as int])
    } else {
        None
    }
}

/// A file's content as the pane shows it, or the message when it is gone.
pub open spec fn file_pane(file: Option<ConfigFile>, missing: &'static str) -> DetailPane {
    match file {
        Some(c) => DetailPane::File(c.content),
        None => DetailPane::NotFound(missing),
    }
}

/// What the detail pane shows for the selected row's target: artifacts
/// (also from the provenance list), ADRs and modules are looked up in the
/// view, files and hooks in the file sections, each with its message when
/// missing; companions and variants are shown by name; anything else, or
/// no selection, shows the overview.
pub open spec fn pane_for(view: DashboardView, files: FileSections, target: Option<ListTarget>) -> DetailPane {
    match target {
        Some(ListTarget::Artifact { module, kind, name }) | Some(
            ListTarget::ProvenanceArtifact { module, kind, name },
        ) => match artifact_indices(view.modules@, module@, kind@, name@) {
            Some((m, a)) => DetailPane::Artifact { module_index: m, artifact_index: a },
            None => DetailPane::NotFound("artifact not found"),
        },
        Some(ListTarget::Adr { repo, id }) => match adr_position(view.adrs@, repo@, id@) {
            Some(i) => DetailPane::Adr(i as usize),
            None => DetailPane::NotFound("ADR not found"),
        },
        Some(ListTarget::Companion { module, parent, name }) => DetailPane::Companion { module, parent, name },
        Some(ListTarget::Module(name)) => match module_position(view.modules@, name@) {
            Some(i) => DetailPane::Module(i as usize),
            None => DetailPane::NotFound("repository not found"),
        },
        Some(ListTarget::Variant { module, kind, name, qualifier }) => DetailPane::Variant {
            module,
            kind,
            name,
            qualifier,
        },
        Some(ListTarget::SettingsFile { group, index }) => file_pane(
            file_at(settings_groups(files), group, index),
            "settings file not found",
        ),
        Some(ListTarget::Hook { group, index }) => match hook_at(files, group, index) {
            Some(h) => DetailPane::Hook(h),
            None => DetailPane::NotFound("hook not found"),
        },
        Some(ListTarget::ConfigFile(index)) => if index < files.config@.len() {
            DetailPane::File(files.config@[index as int].content)
        } else {
            DetailPane::NotFound("config file not found")
        },
        Some(ListTarget::SchemaFile { group, index }) => file_pane(
            file_at(schema_groups(files), group, index),
            "schema file not found",
        ),
        _ => DetailPane::Overview,
    }
}

/// Decides what the detail pane shows (see `pane_for`).
pub fn detail_pane(view: &DashboardView, files: &FileSections, target: Option<ListTarget>) -> (r: DetailPane)
    ensures
        r == pane_for(*view, *files, target),
{
    match target {
        Some(ListTarget::Artifact { module, kind, name }) | Some(
            ListTarget::ProvenanceArtifact { module, kind, name },
        ) => match find_artifact_indices(view, module.as_str(), kind.as_str(), name.as_str()) {
            Some((m, a)) => DetailPane::Artifact { module_index: m, artifact_index: a },
            None => DetailPane::NotFound("artifact not found"),
        },
        Some(ListTarget::Adr { repo, id }) => match adr_index(&view.adrs, repo.as_str(), id.as_str()) {
            Some(i) => DetailPane::Adr(i),
            None => DetailPane::NotFound("ADR not found"),
        },
        Some(ListTarget::Companion { module, parent, name }) => DetailPane::Companion { module, parent, name },
        Some(ListTarget::Module(name)) => match module_index(&view.modules, name.as_str()) {
            Some(i) => DetailPane::Module(i),
            None => DetailPane::NotFound("repository not found"),
        },
        Some(ListTarget::Variant { module, kind, name, qualifier }) => DetailPane::Variant {
            module,
            kind,
            name,
            qualifier,
        },
        Some(ListTarget::SettingsFile { group, index }) => {
            proof {
                if group < files.settings@.len() {
                    assert(settings_groups(*files)[group as int] == files.settings@[group as int].files@);
                }
            }
            if group < files.settings.len() && index < files.settings[group].files.len() {
                DetailPane::File(files.settings[group].files[index].content.clone())
            } else {
                DetailPane::NotFound("settings file not found")
            }
        },
        Some(ListTarget::Hook { group, index }) => {
            if group < files.hooks.len() && index < files.hooks[group].hooks.len() {
                let h = &files.hooks[group].hooks[index];
                DetailPane::Hook(
                    HookEntry {
                        event: h.event.clone(),
                        matcher: h.matcher.clone(),
                        command: h.command.clone(),
                        source: h.source.clone(),
                    },
                )
            } else {
                DetailPane::NotFound("hook not found")
            }
        },
        Some(ListTarget::ConfigFile(index)) => {
            if index < files.config.len() {
                DetailPane::File(files.config[index].content.clone())
            } else {
                DetailPane::NotFound("config file not found")
            }
        },
        Some(ListTarget::SchemaFile { group, index }) => {
            proof {
                if group < files.schemas@.len() {
                    assert(schema_groups(*files)[group as int] == files.schemas@[group as int].files@);
                }
            }
            if group < files.schemas.len() && index < files.schemas[group].files.len() {
                DetailPane::File(files.schemas[group].files[index].content.clone())
            } else {
                DetailPane::NotFound("schema file not found")
            }
        },
        _ => DetailPane::Overview,
    }
}

/// The position the detail title shows: on the Code tab the cursor line of
/// the cached code lines, elsewhere the first visible line of the cached
/// preview; none without a cache.
pub open spec fn position_of(
    tab: DetailTab,
    code_cursor: usize,
    code_lines: Option<usize>,
    scroll: u16,
    preview_lines: Option<usize>,
) -> Option<(usize, usize)> {
    if tab == DetailTab::Code {
        match code_lines {
            Some(n) => Some(((code_cursor + 1) as usize, n)),
            None => None,
        }
    } else {
        match preview_lines {
            Some(n) => Some(((scroll + 1) as usize, n)),
            None => None,
        }
    }
}

/// Computes the detail title's position (see `position_of`).
pub fn detail_position(
    tab: DetailTab,
    code_cursor: usize,
    code_lines: Option<usize>,
    scroll: u16,
    preview_lines: Option<usize>,
) -> (r: Option<(usize, usize)>)
    requires
        tab == DetailTab::Code && code_lines is Some ==> code_cursor < usize::MAX,
    ensures
        r == position_of(tab, code_cursor, code_lines, scroll, preview_lines),
{
    match tab {
        DetailTab::Code => match code_lines {
            Some(n) => Some((code_cursor + 1, n)),
            None => None,
        },
        _ => match preview_lines {
            Some(n) => Some((scroll as usize + 1, n)),
            None => None,
        },
    }
}

// ---------------------------------------------------------------------------
// The detail pane's caches

/// What preparing the detail pane's cache for an artifact does.
#[derive(Debug, Clone)]
pub enum CachePlan {
    /// The cache is current.
    Keep,
    /// Highlight the code anew under `key`; the scroll and the code cursor
    /// go back to the top.
    BuildCode { key: String },
    /// Keys are still queued and the tab's lines are slow to build (they run
    /// other programs): keep showing the previous frame for now.
    Defer,
    /// Build the tab's lines under `key` for `width`; the scroll goes back
    /// to the top when `reset_scroll` (the target changed).
    Build { key: String, width: u16, reset_scroll: bool },
}

/// A plan as plain values.
pub enum PlanView {
    Keep,
    BuildCode(Seq<char>),
    Defer,
    Build(Seq<char>, u16, bool),
}

/// The view of a plan.
pub open spec fn plan_view(p: CachePlan) -> PlanView {
    match p {
        CachePlan::Keep => PlanView::Keep,
        CachePlan::BuildCode { key } => PlanView::BuildCode(key@),
        CachePlan::Defer => PlanView::Defer,
        CachePlan::Build { key, width, reset_scroll } => PlanView::Build(key@, width, reset_scroll),
    }
}

/// The code cache's key: the module and the path.
pub open spec fn code_key_seq(module: Seq<char>, path: Seq<char>) -> Seq<char> {
    module + ":"@ + path
}

/// The plan: on the Code tab, highlight when the code cache is missing or
/// holds another artifact. On the other tabs (at a width of at least one),
/// rebuild when the cache is missing or holds another key or width, except
/// that Preview and Diff wait while keys are queued and a previous frame
/// exists; the scroll restarts when the key changed.
pub open spec fn plan_for(
    tab: DetailTab,
    module: Seq<char>,
    path: Seq<char>,
    width: u16,
    code_key: Option<Seq<char>>,
    preview: Option<(Seq<char>, u16)>,
    input_pending: bool,
) -> PlanView {
    let w: u16 = if width < 1 { 1 } else { width };
    if tab == DetailTab::Code {
        let key = code_key_seq(module, path);
        if code_key is None || code_key->0 != key {
            PlanView::BuildCode(key)
        } else {
            PlanView::Keep
        }
    } else {
        let key = detail_key_seq(tab, module, path);
        match preview {
            None => PlanView::Build(key, w, false),
            Some((cached, cached_width)) => if cached == key && cached_width == w {
                PlanView::Keep
            } else if (tab == DetailTab::Preview || tab == DetailTab::Diff) && input_pending {
                PlanView::Defer
            } else {
                PlanView::Build(key, w, cached != key)
            },
        }
    }
}

/// The text of an optional key.
pub open spec fn key_of(k: Option<&str>) -> Option<Seq<char>> {
    match k {
        Some(s) => Some(s@),
        None => None,
    }
}

/// The key and width of an optional cache.
pub open spec fn cache_of(c: Option<(&str, u16)>) -> Option<(Seq<char>, u16)> {
    match c {
        Some((k, w)) => Some((k@, w)),
        None => None,
    }
}

/// Decides what preparing an artifact's detail cache does (see `plan_for`):
/// `code_key` is the code cache's key, `preview` the other cache's key and
/// width, `input_pending` whether keys are queued.
pub fn detail_cache_plan(
    tab: DetailTab,
    module: &str,
    path: &str,
    width: u16,
    code_key: Option<&str>,
    preview: Option<(&str, u16)>,
    input_pending: bool,
) -> (r: CachePlan)
    ensures
        plan_view(r) == plan_for(tab, module@, path@, width, key_of(code_key), cache_of(preview), input_pending),
{
    let w: u16 = if width < 1 { 1 } else { width };
    if tab == DetailTab::Code {
        let mut k = chars_of(module);
        extend(&mut k, &lit(":"));
        extend(&mut k, &chars_of(path));
        let same = match code_key {
            Some(c) => eq(&chars_of(c), &k),
            None => false,
        };
        if same {
            CachePlan::Keep
        } else {
            CachePlan::BuildCode { key: string_of(&k) }
        }
    } else {
        let key = detail_cache_key(tab, module, path);
        let kc = chars_of(key.as_str());
        let (needs, changed) = match preview {
            Some((pk, pw)) => {
                let differs = !eq(&chars_of(pk), &kc);
                (differs || pw != w, differs)
            },
            None => (true, false),
        };
        if !needs {
            CachePlan::Keep
        } else if (tab == DetailTab::Preview || tab == DetailTab::Diff) && preview.is_some() && input_pending {
            CachePlan::Defer
        } else {
            CachePlan::Build { key, width: w, reset_scroll: changed }
        }
    }
}

/// The overview in the detail pane: in matrix mode the status block and the
/// module × kind matrix (see `overview_matrix_view`), else the status block
/// and the artifacts grouped by kind (see `overview_nested_view`).
pub fn overview_detail_lines(view: &DashboardView, matrix: bool) -> (r: Vec<StyledLine>)
    requires
        artifact_total(view.modules@, view.modules@.len() as int) <= usize::MAX,
    ensures
        matrix ==> exists|m: MatrixView|
            matrix_of(*view, m) && lines_view(r@) =~~= #[trigger] overview_matrix_view(view.summary, m),
        !matrix ==> exists|gs: Seq<NestedGroup>|
            groups_by_kind(view.modules@, gs) && lines_view(r@) =~~= #[trigger] overview_nested_view(
                view.summary,
                gs,
            ),
{
    if matrix {
        let m = build_matrix(view);
        overview_matrix_lines(&view.summary, &m)
    } else {
        let groups = build_nested(view, "kind");
        proof {
            reveal_strlit("kind");
            reveal_strlit("module");
            assert("kind"@.len() != "module"@.len());
        }
        overview_nested_lines(&view.summary, groups.as_slice())
    }
}

} // verus!
