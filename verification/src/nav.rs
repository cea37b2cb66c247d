//! Moving around the terminal browser: the rows of the list column and
//! which of them can be selected, the selection's moves, scrolling the
//! detail pane, the code cursor, and jumping between diff hunks.

use vstd::prelude::*;
use crate::text::{chars_of, extend, lit, string_of};
use crate::dotforge::{decimal, decimal_seq};
use crate::view::{ArtifactView, overall_of, status_label};
use crate::dashboard::{VariantCol, VariantCoverage, VariantCoverageCell, VariantCoverageRow};
use crate::tui::{value_or_any, FileSections};
use crate::web::{unwrap_shell, unwrap_shell_seq, ConfigFile, HarnessFiles, HarnessHooks, HookEntry, SchemaGroup};

verus! {

/// What a list row opens.
#[derive(Debug, Clone)]
pub enum ListTarget {
    /// Opens nothing (headers and notes).
    NoTarget,
    Overview,
    /// The overview's nested/matrix switch.
    OverviewMode,
    /// A skill companion, shown under its parent skill.
    Companion { module: String, parent: String, name: String },
    Artifact { module: String, kind: String, name: String },
    Module(String),
    Adr { repo: String, id: String },
    ProvenanceArtifact { module: String, kind: String, name: String },
    Variant { module: String, kind: String, name: String, qualifier: String },
    SettingsFile { group: usize, index: usize },
    Hook { group: usize, index: usize },
    ConfigFile(usize),
    SchemaFile { group: usize, index: usize },
}

/// One row of the list column.
#[derive(Debug, Clone)]
pub struct ListRow {
    pub label: String,
    pub detail: String,
    pub target: ListTarget,
    pub header: bool,
    pub status: &'static str,
}

/// A row can be selected when it is not a header and opens something.
pub open spec fn selectable(r: ListRow) -> bool {
    !r.header && !(r.target is NoTarget)
}

impl ListRow {
    /// A section header row.
    pub fn header(label: String) -> (r: ListRow)
        ensures
            r.label@ == label@,
            r.detail@.len() == 0,
            r.target is NoTarget,
            r.header,
            r.status@ == "source"@,
    {
        ListRow { label, detail: String::new(), target: ListTarget::NoTarget, header: true, status: "source" }
    }

    /// An item row.
    pub fn item(label: String, detail: String, target: ListTarget, status: &'static str) -> (r: ListRow)
        ensures
            r.label@ == label@,
            r.detail@ == detail@,
            r.target == target,
            !r.header,
            r.status@ == status@,
    {
        ListRow { label, detail, target, header: false, status }
    }

    /// Whether the row can be selected (see `selectable`).
    pub fn is_selectable(&self) -> (b: bool)
        ensures
            b == selectable(*self),
    {
        !self.header && !matches!(self.target, ListTarget::NoTarget)
    }
}

/// The first selectable row from `i` on, or `None`.
pub open spec fn first_selectable_from(rows: Seq<ListRow>, i: int) -> Option<int>
    decreases rows.len() - i,
{
    if i >= rows.len() || i < 0 {
        None
    } else if selectable(rows[i]) {
        Some(i)
    } else {
        first_selectable_from(rows, i + 1)
    }
}

/// The last selectable row before `i`, or `None`.
pub open spec fn last_selectable_before(rows: Seq<ListRow>, i: int) -> Option<int>
    decreases i,
{
    if i <= 0 || i > rows.len() {
        None
    } else if selectable(rows[i - 1]) {
        Some(i - 1)
    } else {
        last_selectable_before(rows, i - 1)
    }
}

/// The row shown as selected: the remembered one when it can be selected,
/// else the first selectable row, else the first row.
pub open spec fn effective_selection(rows: Seq<ListRow>, remembered: int) -> int {
    if 0 <= remembered < rows.len() && selectable(rows[remembered]) {
        remembered
    } else {
        match first_selectable_from(rows, 0) {
            Some(i) => i,
            None => 0,
        }
    }
}

fn first_selectable(rows: &[ListRow]) -> (r: Option<usize>)
    ensures
        match r {
            Some(i) => first_selectable_from(rows@, 0) == Some(i as int),
            None => first_selectable_from(rows@, 0) is None,
        },
{
    let mut i: usize = 0;
    while i < rows.len()
        invariant
            i <= rows.len(),
            first_selectable_from(rows@, i as int) == first_selectable_from(rows@, 0),
        decreases rows.len() - i,
    {
        if rows[i].is_selectable() {
            return Some(i);
        }
        i = i + 1;
    }
    None
}

/// The row shown as selected (see `effective_selection`).
pub fn selected_list_index(rows: &[ListRow], remembered: usize) -> (r: usize)
    ensures
        r == effective_selection(rows@, remembered as int),
{
    if remembered < rows.len() && rows[remembered].is_selectable() {
        return remembered;
    }
    match first_selectable(rows) {
        Some(i) => i,
        None => 0,
    }
}

/// Where one step from `i` lands: moving down, the next selectable row,
/// or the last row when none follows; moving up, the previous selectable
/// row, or the first row when none precedes.
pub open spec fn step_target(rows: Seq<ListRow>, i: int, up: bool) -> int {
    if up {
        match last_selectable_before(rows, i) {
            Some(j) => j,
            None => 0,
        }
    } else {
        match first_selectable_from(rows, i + 1) {
            Some(j) => j,
            None => if i < rows.len() - 1 { rows.len() - 1 } else { i },
        }
    }
}

/// Moves the selection one selectable row up (`delta` negative) or down,
/// from the row shown as selected; an empty list selects row 0.
pub open spec fn moved_selection(rows: Seq<ListRow>, remembered: int, delta: int) -> int {
    if rows.len() == 0 {
        0
    } else {
        step_target(rows, effective_selection(rows, remembered), delta < 0)
    }
}

proof fn lemma_first_selectable_bounds(rows: Seq<ListRow>, i: int)
    ensures
        first_selectable_from(rows, i) matches Some(j) ==> i <= j < rows.len() && selectable(rows[j]),
    decreases rows.len() - i,
{
    if 0 <= i < rows.len() && !selectable(rows[i]) {
        lemma_first_selectable_bounds(rows, i + 1);
    }
}

/// The selection after one move (see `moved_selection`).
pub fn move_list_selection(rows: &[ListRow], remembered: usize, delta: isize) -> (r: usize)
    ensures
        r == moved_selection(rows@, remembered as int, delta as int),
        rows@.len() > 0 ==> r < rows@.len(),
{
    if rows.len() == 0 {
        return 0;
    }
    let start = selected_list_index(rows, remembered);
    proof {
        lemma_first_selectable_bounds(rows@, 0);
    }
    let mut index = start;
    if delta < 0 {
        let mut done = false;
        while !done
            invariant
                index <= start < rows.len(),
                done ==> index == step_target(rows@, start as int, true),
                !done ==> last_selectable_before(rows@, index as int) == last_selectable_before(
                    rows@,
                    start as int,
                ),
            decreases index, (if done { 0int } else { 1int }),
        {
            if index == 0 {
                done = true;
            } else {
                index = index - 1;
                if rows[index].is_selectable() {
                    done = true;
                }
            }
        }
    } else {
        let mut done = false;
        while !done
            invariant
                start <= index < rows.len(),
                done ==> index == step_target(rows@, start as int, false),
                !done ==> first_selectable_from(rows@, index + 1) == first_selectable_from(
                    rows@,
                    start + 1,
                ),
            decreases rows.len() - index, (if done { 0int } else { 1int }),
        {
            if index + 1 >= rows.len() {
                done = true;
            } else {
                index = index + 1;
                if rows[index].is_selectable() {
                    done = true;
                }
            }
        }
    }
    index
}

/// The first selectable row, or row 0.
pub fn select_first_row(rows: &[ListRow]) -> (r: usize)
    ensures
        r == match first_selectable_from(rows@, 0) {
            Some(i) => i,
            None => 0,
        },
{
    match first_selectable(rows) {
        Some(i) => i,
        None => 0,
    }
}

/// The last selectable row, or row 0.
pub fn select_last_row(rows: &[ListRow]) -> (r: usize)
    ensures
        r == match last_selectable_before(rows@, rows@.len() as int) {
            Some(i) => i,
            None => 0,
        },
{
    let mut i: usize = rows.len();
    while i > 0
        invariant
            i <= rows.len(),
            last_selectable_before(rows@, i as int) == last_selectable_before(rows@, rows@.len() as int),
        decreases i,
    {
        if rows[i - 1].is_selectable() {
            return i - 1;
        }
        i = i - 1;
    }
    0
}

// ---------------------------------------------------------------------------
// Scrolling

/// A step's size in rows: its magnitude, or nothing when that does not fit
/// a `u16`.
pub open spec fn step_size(delta: int) -> int {
    let d = if delta < 0 { -delta } else { delta };
    if d <= 65535 { d } else { 0 }
}

/// The detail pane's scroll after one step, held within `0..=u16::MAX`.
pub open spec fn scrolled(scroll: u16, delta: int) -> u16 {
    let s = if delta < 0 { scroll - step_size(delta) } else { scroll + step_size(delta) };
    (if s < 0 { 0 } else if s > 65535 { 65535 } else { s }) as u16
}

/// Scrolls the detail pane by `delta` rows (see `scrolled`).
pub fn detail_scroll_step(scroll: u16, delta: isize) -> (r: u16)
    requires
        delta > isize::MIN,
    ensures
        r == scrolled(scroll, delta as int),
{
    let magnitude: usize = if delta < 0 { (-delta) as usize } else { delta as usize };
    let step: u16 = if magnitude <= 65535 { magnitude as u16 } else { 0 };
    if delta < 0 {
        scroll.saturating_sub(step)
    } else {
        scroll.saturating_add(step)
    }
}

/// The code cursor and scroll after moving the cursor by `delta` within
/// `lines` lines (at least one): the viewport follows only when the cursor
/// leaves it.
pub open spec fn cursor_moved(lines: int, cursor: int, delta: int, scroll: int, viewport: int) -> (int, int) {
    let total = if lines < 1 { 1 } else { lines };
    let raw = cursor + delta;
    let clamped = if raw < 0 { 0 } else if raw > usize::MAX { usize::MAX as int } else { raw };
    let c = if clamped > total - 1 { total - 1 } else { clamped };
    let v = if viewport < 1 { 1 } else { viewport };
    let s = if c < scroll {
        if c > 65535 { 65535 } else { c }
    } else if c >= scroll + v {
        if c + 1 - v > 65535 { 65535 } else { c + 1 - v }
    } else {
        scroll
    };
    (c, s)
}

/// Moves the code cursor (see `cursor_moved`).
pub fn move_code_cursor(lines: usize, cursor: usize, delta: isize, scroll: u16, viewport: usize) -> (r: (usize, u16))
    requires
        viewport <= usize::MAX - 65536,
    ensures
        (r.0 as int, r.1 as int) == cursor_moved(lines as int, cursor as int, delta as int, scroll as int, viewport as int),
{
    let total: usize = if lines < 1 { 1 } else { lines };
    let moved: usize = if delta < 0 {
        let d: usize = if delta == isize::MIN { (isize::MAX as usize) + 1 } else { (-delta) as usize };
        if d > cursor { 0 } else { cursor - d }
    } else {
        let d = delta as usize;
        if cursor > usize::MAX - d { usize::MAX } else { cursor + d }
    };
    let c = if moved > total - 1 { total - 1 } else { moved };
    let v: usize = if viewport < 1 { 1 } else { viewport };
    let s = scroll as usize;
    let new_scroll: u16 = if c < s {
        if c > 65535 { 65535 } else { c as u16 }
    } else if c >= s + v {
        let top = c + 1 - v;
        if top > 65535 { 65535 } else { top as u16 }
    } else {
        scroll
    };
    (c, new_scroll)
}

// ---------------------------------------------------------------------------
// Diff hunks

/// The first hunk offset after `current`, in order.
pub open spec fn next_hunk(hunks: Seq<usize>, current: int) -> Option<usize>
    decreases hunks.len(),
{
    if hunks.len() == 0 {
        None
    } else if hunks[0] > current {
        Some(hunks[0])
    } else {
        next_hunk(hunks.drop_first(), current)
    }
}

/// The last hunk offset before `current`.
pub open spec fn previous_hunk(hunks: Seq<usize>, current: int) -> Option<usize>
    decreases hunks.len(),
{
    if hunks.len() == 0 {
        None
    } else if hunks.last() < current {
        Some(hunks.last())
    } else {
        previous_hunk(hunks.drop_last(), current)
    }
}

/// The scroll after jumping to the next (or previous) hunk header; it stays
/// when there is none.
pub open spec fn hunk_jump(hunks: Seq<usize>, scroll: u16, forward: bool) -> u16 {
    let target = if forward { next_hunk(hunks, scroll as int) } else { previous_hunk(hunks, scroll as int) };
    match target {
        Some(o) => (if o > 65535 { 65535 } else { o as int }) as u16,
        None => scroll,
    }
}

/// Jumps the diff view to the next or previous hunk (see `hunk_jump`).
pub fn jump_hunk(hunks: &[usize], scroll: u16, forward: bool) -> (r: u16)
    ensures
        r == hunk_jump(hunks@, scroll, forward),
{
    let current = scroll as usize;
    let mut found: Option<usize> = None;
    if forward {
        let mut i: usize = 0;
        assert(hunks@.skip(0) =~= hunks@);
        while i < hunks.len() && found.is_none()
            invariant
                i <= hunks.len(),
                current == scroll as usize,
                match found {
                    Some(o) => next_hunk(hunks@, current as int) == Some(o),
                    None => next_hunk(hunks@.skip(i as int), current as int) == next_hunk(hunks@, current as int),
                },
            decreases hunks.len() - i, (if found is None { 1int } else { 0int }),
        {
            proof {
                assert(hunks@.skip(i as int)[0] == hunks@[i as int]);
                assert(hunks@.skip(i as int).drop_first() =~= hunks@.skip(i + 1));
            }
            if hunks[i] > current {
                found = Some(hunks[i]);
            } else {
                i = i + 1;
            }
        }
        proof {
            if found is None {
                assert(hunks@.skip(i as int).len() == 0);
            }
        }
    } else {
        let mut i: usize = hunks.len();
        assert(hunks@.take(i as int) =~= hunks@);
        while i > 0 && found.is_none()
            invariant
                i <= hunks.len(),
                current == scroll as usize,
                match found {
                    Some(o) => previous_hunk(hunks@, current as int) == Some(o),
                    None => previous_hunk(hunks@.take(i as int), current as int) == previous_hunk(hunks@, current as int),
                },
            decreases i, (if found is None { 1int } else { 0int }),
        {
            proof {
                assert(hunks@.take(i as int).last() == hunks@[i - 1]);
                assert(hunks@.take(i as int).drop_last() =~= hunks@.take(i - 1));
            }
            if hunks[i - 1] < current {
                found = Some(hunks[i - 1]);
            } else {
                i = i - 1;
            }
        }
    }
    match found {
        Some(o) => if o > 65535 { 65535 } else { o as u16 },
        None => scroll,
    }
}

/// How many leading hunk offsets are at or before `current`.
pub open spec fn hunks_passed(hunks: Seq<usize>, current: int) -> nat
    decreases hunks.len(),
{
    if hunks.len() == 0 || hunks[0] > current {
        0
    } else {
        1 + hunks_passed(hunks.drop_first(), current)
    }
}

/// The diff footer's (current hunk, total hunks), counting hunks passed
/// (at least one); `None` when there are no hunks.
pub open spec fn hunk_position_seq(hunks: Seq<usize>, scroll: u16) -> Option<(int, int)> {
    if hunks.len() == 0 {
        None
    } else {
        let n = hunks_passed(hunks, scroll as int);
        Some((if n < 1 { 1 } else { n as int }, hunks.len() as int))
    }
}

/// The diff footer's hunk position (see `hunk_position_seq`).
pub fn hunk_position(hunks: &[usize], scroll: u16) -> (r: Option<(usize, usize)>)
    ensures
        match r {
            Some((a, b)) => hunk_position_seq(hunks@, scroll) == Some((a as int, b as int)),
            None => hunk_position_seq(hunks@, scroll) is None,
        },
{
    if hunks.len() == 0 {
        return None;
    }
    let current = scroll as usize;
    let mut i: usize = 0;
    let mut stop = false;
    assert(hunks@.skip(0) =~= hunks@);
    while i < hunks.len() && !stop
        invariant
            i <= hunks.len(),
            current == scroll as usize,
            !stop ==> i + hunks_passed(hunks@.skip(i as int), current as int) == hunks_passed(hunks@, current as int),
            stop ==> i == hunks_passed(hunks@, current as int),
        decreases hunks.len() - i, (if stop { 0int } else { 1int }),
    {
        proof {
            assert(hunks@.skip(i as int)[0] == hunks@[i as int]);
            assert(hunks@.skip(i as int).drop_first() =~= hunks@.skip(i + 1));
        }
        if hunks[i] > current {
            stop = true;
        } else {
            i = i + 1;
        }
    }
    proof {
        if !stop {
            assert(hunks@.skip(i as int).len() == 0);
        }
    }
    let n = if i < 1 { 1 } else { i };
    Some((n, hunks.len()))
}

// ---------------------------------------------------------------------------
// Rows of some sections

/// The overview section's rows: the summary, and the switch between the
/// nested and matrix views (labelled with the current one).
pub fn overview_rows(matrix: bool) -> (r: Vec<ListRow>)
    ensures
        r@.len() == 2,
        r@[0].label@ == "Summary"@ && r@[0].detail@ == "status counts"@ && r@[0].target is Overview
            && !r@[0].header && r@[0].status@ == "ok"@,
        r@[1].label@ == (if matrix { "Matrix view"@ } else { "Nested view"@ }) && r@[1].detail@
            == "Enter or click toggles"@ && r@[1].target is OverviewMode && !r@[1].header
            && r@[1].status@ == "ok"@,
{
    let mut r: Vec<ListRow> = Vec::new();
    r.push(ListRow::item(
        String::from_str("Summary"),
        String::from_str("status counts"),
        ListTarget::Overview,
        "ok",
    ));
    r.push(ListRow::item(
        String::from_str(if matrix { "Matrix view" } else { "Nested view" }),
        String::from_str("Enter or click toggles"),
        ListTarget::OverviewMode,
        "ok",
    ));
    r
}

/// The (row, column) cells of the coverage grid that hold an override, row
/// by row.
pub open spec fn covered_cells(rows: Seq<VariantCoverageRow>) -> Seq<(int, int)>
    decreases rows.len(),
{
    if rows.len() == 0 {
        Seq::empty()
    } else {
        covered_cells(rows.drop_last()) + cells_with_mode(rows.last().cells@, rows.len() - 1, rows.last().cells@.len() as int)
    }
}

/// The columns of one row's first `n` cells that hold an override.
pub open spec fn cells_with_mode(cells: Seq<VariantCoverageCell>, row: int, n: int) -> Seq<(int, int)>
    decreases n,
{
    if n <= 0 {
        Seq::empty()
    } else {
        let prev = cells_with_mode(cells, row, n - 1);
        if cells[n - 1].mode@.len() > 0 {
            prev.push((row, n - 1))
        } else {
            prev
        }
    }
}

/// The variant row for one covered cell: the artifact's name, its kind,
/// the column's qualifier and the mode, opening that variant.
pub open spec fn variant_row_matches(r: ListRow, row: VariantCoverageRow, col: VariantCol, cell: VariantCoverageCell) -> bool {
    &&& r.label@ == row.name@
    &&& r.detail@ == row.kind@ + " · "@ + col.qualifier@ + " · "@ + cell.mode@
    &&& !r.header
    &&& r.status@ == "source"@
    &&& r.target matches ListTarget::Variant { module, kind, name, qualifier } && module@ == row.module@
        && kind@ == row.kind@ && name@ == row.name@ && qualifier@ == col.qualifier@
}

/// The variants section's rows: a header counting the qualifier columns,
/// then one row per override in the grid, row by row.
pub fn variant_rows(coverage: &VariantCoverage) -> (r: Vec<ListRow>)
    requires
        forall|i: int| 0 <= i < coverage.rows@.len() ==> (#[trigger] coverage.rows@[i]).cells@.len()
            <= coverage.cols@.len(),
    ensures
        r@.len() == 1 + covered_cells(coverage.rows@).len(),
        r@[0].header && r@[0].label@ == decimal_seq(coverage.cols@.len()) + " qualifiers"@,
        forall|k: int|
            0 <= k < covered_cells(coverage.rows@).len() ==> variant_row_matches(
                #[trigger] r@[k + 1],
                coverage.rows@[covered_cells(coverage.rows@)[k].0],
                coverage.cols@[covered_cells(coverage.rows@)[k].1],
                coverage.rows@[covered_cells(coverage.rows@)[k].0].cells@[covered_cells(coverage.rows@)[k].1],
            ),
{
    let mut head = decimal(coverage.cols.len() as u64);
    extend(&mut head, &lit(" qualifiers"));
    let mut r: Vec<ListRow> = Vec::new();
    r.push(ListRow::header(string_of(&head)));
    let mut i: usize = 0;
    while i < coverage.rows.len()
        invariant
            i <= coverage.rows.len(),
            forall|t: int| 0 <= t < coverage.rows@.len() ==> (#[trigger] coverage.rows@[t]).cells@.len()
                <= coverage.cols@.len(),
            r@.len() == 1 + covered_cells(coverage.rows@.take(i as int)).len(),
            r@[0].header && r@[0].label@ == decimal_seq(coverage.cols@.len()) + " qualifiers"@,
            forall|k: int|
                0 <= k < covered_cells(coverage.rows@.take(i as int)).len() ==> variant_row_matches(
                    #[trigger] r@[k + 1],
                    coverage.rows@[covered_cells(coverage.rows@.take(i as int))[k].0],
                    coverage.cols@[covered_cells(coverage.rows@.take(i as int))[k].1],
                    coverage.rows@[covered_cells(coverage.rows@.take(i as int))[k].0].cells@[covered_cells(
                        coverage.rows@.take(i as int),
                    )[k].1],
                ),
        decreases coverage.rows.len() - i,
    {
        let row = &coverage.rows[i];
        let ghost before = covered_cells(coverage.rows@.take(i as int));
        proof {
            assert(coverage.rows@.take(i + 1).drop_last() =~= coverage.rows@.take(i as int));
            assert(coverage.rows@.take(i + 1).last() == *row);
        }
        let mut j: usize = 0;
        while j < row.cells.len()
            invariant
                j <= row.cells.len(),
                i < coverage.rows.len(),
                *row == coverage.rows@[i as int],
                row.cells@.len() <= coverage.cols@.len(),
                r@.len() == 1 + before.len() + cells_with_mode(row.cells@, i as int, j as int).len(),
                r@[0].header && r@[0].label@ == decimal_seq(coverage.cols@.len()) + " qualifiers"@,
                forall|k: int|
                    0 <= k < (before + cells_with_mode(row.cells@, i as int, j as int)).len() ==> variant_row_matches(
                        #[trigger] r@[k + 1],
                        coverage.rows@[(before + cells_with_mode(row.cells@, i as int, j as int))[k].0],
                        coverage.cols@[(before + cells_with_mode(row.cells@, i as int, j as int))[k].1],
                        coverage.rows@[(before + cells_with_mode(row.cells@, i as int, j as int))[k].0].cells@[(before
                            + cells_with_mode(row.cells@, i as int, j as int))[k].1],
                    ),
            decreases row.cells.len() - j,
        {
            let cell = &row.cells[j];
            if crate::text::char_count(cell.mode.as_str()) > 0 {
                let col = &coverage.cols[j];
                let mut detail = chars_of(row.kind.as_str());
                extend(&mut detail, &lit(" · "));
                extend(&mut detail, &chars_of(col.qualifier.as_str()));
                extend(&mut detail, &lit(" · "));
                extend(&mut detail, &chars_of(cell.mode.as_str()));
                let item = ListRow::item(
                    row.name.clone(),
                    string_of(&detail),
                    ListTarget::Variant {
                        module: row.module.clone(),
                        kind: row.kind.clone(),
                        name: row.name.clone(),
                        qualifier: col.qualifier.clone(),
                    },
                    "source",
                );
                let ghost old_r = r@;
                let ghost old_all = before + cells_with_mode(row.cells@, i as int, j as int);
                r.push(item);
                proof {
                    let new_all = before + cells_with_mode(row.cells@, i as int, j + 1);
                    assert(new_all =~= old_all.push((i as int, j as int)));
                    assert forall|k: int| 0 <= k < new_all.len() implies variant_row_matches(
                        #[trigger] r@[k + 1],
                        coverage.rows@[new_all[k].0],
                        coverage.cols@[new_all[k].1],
                        coverage.rows@[new_all[k].0].cells@[new_all[k].1],
                    ) by {
                        if k < old_all.len() {
                            assert(r@[k + 1] == old_r[k + 1]);
                            assert(new_all[k] == old_all[k]);
                        }
                    }
                }
            } else {
                proof {
                    assert(cells_with_mode(row.cells@, i as int, j + 1) =~= cells_with_mode(row.cells@, i as int, j as int));
                }
            }
            j = j + 1;
        }
        proof {
            assert(covered_cells(coverage.rows@.take(i + 1)) =~= before + cells_with_mode(
                row.cells@,
                i as int,
                row.cells@.len() as int,
            ));
        }
        i = i + 1;
    }
    assert(coverage.rows@.take(coverage.rows.len() as int) =~= coverage.rows@);
    r
}

/// The list row of an artifact: its name (with a warning mark for broken
/// references or a misnamed sidecar), its module, and its overall status.
pub fn artifact_row(artifact: &ArtifactView, module: &str) -> (r: ListRow)
    ensures
        r.label@ == artifact.name@ + (if artifact.broken_refs@.len() > 0 || artifact.sidecar_warning@.len() > 0 {
            " ⚠"@
        } else {
            Seq::empty()
        }),
        r.detail@ == module@,
        !r.header,
        r.status@ == status_label(overall_of(artifact.providers@)),
        r.target matches ListTarget::Artifact { module: m, kind, name } && m@ == module@ && kind@
            == artifact.kind@ && name@ == artifact.name@,
{
    let mut label = chars_of(artifact.name.as_str());
    if artifact.has_broken_refs() || crate::text::char_count(artifact.sidecar_warning.as_str()) > 0 {
        extend(&mut label, &lit(" ⚠"));
    }
    ListRow::item(
        string_of(&label),
        String::from_str(module),
        ListTarget::Artifact {
            module: String::from_str(module),
            kind: artifact.kind.clone(),
            name: artifact.name.clone(),
        },
        artifact.overall_status(),
    )
}

// ---------------------------------------------------------------------------
// Rows of the file sections

/// A row as its label, detail, target, whether it is a header, and status.
pub type RowView = (Seq<char>, Seq<char>, ListTarget, bool, Seq<char>);

/// The view of a row.
pub open spec fn row_view(r: ListRow) -> RowView {
    (r.label@, r.detail@, r.target, r.header, r.status@)
}

/// The views of rows.
pub open spec fn rows_view(rs: Seq<ListRow>) -> Seq<RowView> {
    rs.map_values(|r: ListRow| row_view(r))
}

/// A header row's view.
pub open spec fn header_view(label: Seq<char>) -> RowView {
    (label, Seq::empty(), ListTarget::NoTarget, true, "source"@)
}

/// An item row's view, with the `source` status the file sections use.
pub open spec fn source_item(label: Seq<char>, detail: Seq<char>, target: ListTarget) -> RowView {
    (label, detail, target, false, "source"@)
}

/// The row of a settings file: `harness · label`, its path, opening it.
pub open spec fn settings_item(g: HarnessFiles, gi: int, j: int) -> RowView {
    source_item(
        g.harness@ + " · "@ + g.files@[j].label@,
        g.files@[j].path@,
        ListTarget::SettingsFile { group: gi as usize, index: j as usize },
    )
}

/// One harness's settings rows: its name as a header, then one row per
/// file.
pub open spec fn settings_group_rows(g: HarnessFiles, gi: int) -> Seq<RowView> {
    seq![header_view(g.harness@)] + Seq::new(g.files@.len(), |j: int| settings_item(g, gi, j))
}

/// The settings section's rows, harness by harness.
pub open spec fn settings_rows_view(gs: Seq<HarnessFiles>) -> Seq<RowView>
    decreases gs.len(),
{
    if gs.len() == 0 {
        Seq::empty()
    } else {
        settings_rows_view(gs.drop_last()) + settings_group_rows(gs.last(), gs.len() - 1)
    }
}

/// The row of a hook: `event · matcher` (`any` when there is no matcher),
/// the command without its shell wrapper, opening the hook.
pub open spec fn hook_item(g: HarnessHooks, gi: int, j: int) -> RowView {
    source_item(
        g.hooks@[j].event@ + " · "@ + (if g.hooks@[j].matcher@.len() == 0 {
            "any"@
        } else {
            g.hooks@[j].matcher@
        }),
        unwrap_shell_seq(g.hooks@[j].command@).1,
        ListTarget::Hook { group: gi as usize, index: j as usize },
    )
}

/// One harness's hook rows: its name as a header, then one row per hook.
pub open spec fn hook_group_rows(g: HarnessHooks, gi: int) -> Seq<RowView> {
    seq![header_view(g.harness@)] + Seq::new(g.hooks@.len(), |j: int| hook_item(g, gi, j))
}

/// The hooks section's rows, harness by harness.
pub open spec fn hook_rows_view(gs: Seq<HarnessHooks>) -> Seq<RowView>
    decreases gs.len(),
{
    if gs.len() == 0 {
        Seq::empty()
    } else {
        hook_rows_view(gs.drop_last()) + hook_group_rows(gs.last(), gs.len() - 1)
    }
}

/// The row of a schema file: `label · source`, its path, opening it.
pub open spec fn schema_item(g: SchemaGroup, gi: int, j: int) -> RowView {
    source_item(
        g.files@[j].label@ + " · "@ + g.source@,
        g.files@[j].path@,
        ListTarget::SchemaFile { group: gi as usize, index: j as usize },
    )
}

/// One source's schema rows: the source as a header, then one row per file.
pub open spec fn schema_group_rows(g: SchemaGroup, gi: int) -> Seq<RowView> {
    seq![header_view(g.source@)] + Seq::new(g.files@.len(), |j: int| schema_item(g, gi, j))
}

/// The schemas section's rows, source by source.
pub open spec fn schema_rows_view(gs: Seq<SchemaGroup>) -> Seq<RowView>
    decreases gs.len(),
{
    if gs.len() == 0 {
        Seq::empty()
    } else {
        schema_rows_view(gs.drop_last()) + schema_group_rows(gs.last(), gs.len() - 1)
    }
}

/// The row of a config file: its path, its label, opening it.
pub open spec fn config_item(fs: Seq<ConfigFile>, i: int) -> RowView {
    source_item(fs[i].path@, fs[i].label@, ListTarget::ConfigFile(i as usize))
}

/// The config section's rows: one per file.
pub open spec fn config_rows_view(fs: Seq<ConfigFile>) -> Seq<RowView> {
    Seq::new(fs.len(), |i: int| config_item(fs, i))
}

fn joined(a: &str, b: &str) -> (r: String)
    ensures
        r@ == a@ + " · "@ + b@,
{
    let mut c = chars_of(a);
    extend(&mut c, &lit(" · "));
    extend(&mut c, &chars_of(b));
    string_of(&c)
}

fn push_row(rows: &mut Vec<ListRow>, row: ListRow)
    ensures
        rows_view(final(rows)@) == rows_view(old(rows)@).push(row_view(row)),
{
    rows.push(row);
    assert(rows_view(rows@) =~= rows_view(old(rows)@).push(row_view(row)));
}

/// The settings section's rows (see `settings_rows_view`).
pub fn settings_rows(files: &FileSections) -> (r: Vec<ListRow>)
    ensures
        rows_view(r@) == settings_rows_view(files.settings@),
{
    let gs = &files.settings;
    let mut rows: Vec<ListRow> = Vec::new();
    let mut g: usize = 0;
    while g < gs.len()
        invariant
            g <= gs.len(),
            rows_view(rows@) == settings_rows_view(gs@.take(g as int)),
        decreases gs.len() - g,
    {
        let group = &gs[g];
        let ghost base = rows_view(rows@);
        push_row(&mut rows, ListRow::header(group.harness.clone()));
        let mut i: usize = 0;
        while i < group.files.len()
            invariant
                i <= group.files.len(),
                g < gs.len(),
                base == settings_rows_view(gs@.take(g as int)),
                group == &gs@[g as int],
                rows_view(rows@) =~~= base + seq![header_view(group.harness@)] + Seq::new(i as nat, |j: int| settings_item(gs@[g as int], g as int, j)),
            decreases group.files.len() - i,
        {
            let file = &group.files[i];
            push_row(
                &mut rows,
                ListRow::item(
                    joined(group.harness.as_str(), file.label.as_str()),
                    file.path.clone(),
                    ListTarget::SettingsFile { group: g, index: i },
                    "source",
                ),
            );
            assert(Seq::new((i + 1) as nat, |j: int| settings_item(gs@[g as int], g as int, j)) =~~= Seq::new(i as nat, |j: int| settings_item(gs@[g as int], g as int, j)).push(settings_item(gs@[g as int], g as int, i as int)));
            i = i + 1;
        }
        proof {
            assert(gs@.take(g + 1).drop_last() =~= gs@.take(g as int));
            assert(gs@.take(g + 1).last() == gs@[g as int]);
            assert(seq![header_view(group.harness@)] + Seq::new(group.files@.len(), |j: int| settings_item(gs@[g as int], g as int, j)) =~= settings_group_rows(
                gs@[g as int],
                g as int,
            ));
            assert(rows_view(rows@) =~= settings_rows_view(gs@.take(g + 1)));
        }
        g = g + 1;
    }
    assert(gs@.take(gs.len() as int) =~= gs@);
    rows
}

/// The hooks section's rows (see `hook_rows_view`).
pub fn hook_rows(files: &FileSections) -> (r: Vec<ListRow>)
    ensures
        rows_view(r@) == hook_rows_view(files.hooks@),
{
    let gs = &files.hooks;
    let mut rows: Vec<ListRow> = Vec::new();
    let mut g: usize = 0;
    while g < gs.len()
        invariant
            g <= gs.len(),
            rows_view(rows@) == hook_rows_view(gs@.take(g as int)),
        decreases gs.len() - g,
    {
        let group = &gs[g];
        let ghost base = rows_view(rows@);
        push_row(&mut rows, ListRow::header(group.harness.clone()));
        let mut i: usize = 0;
        while i < group.hooks.len()
            invariant
                i <= group.hooks.len(),
                g < gs.len(),
                base == hook_rows_view(gs@.take(g as int)),
                group == &gs@[g as int],
                rows_view(rows@) =~~= base + seq![header_view(group.harness@)] + Seq::new(i as nat, |j: int| hook_item(gs@[g as int], g as int, j)),
            decreases group.hooks.len() - i,
        {
            let hook = &group.hooks[i];
            let (_, command) = unwrap_shell(hook.command.as_str());
            push_row(
                &mut rows,
                ListRow::item(
                    joined(hook.event.as_str(), value_or_any(hook.matcher.as_str()).as_str()),
                    command,
                    ListTarget::Hook { group: g, index: i },
                    "source",
                ),
            );
            assert(Seq::new((i + 1) as nat, |j: int| hook_item(gs@[g as int], g as int, j)) =~~= Seq::new(i as nat, |j: int| hook_item(gs@[g as int], g as int, j)).push(hook_item(gs@[g as int], g as int, i as int)));
            i = i + 1;
        }
        proof {
            assert(gs@.take(g + 1).drop_last() =~= gs@.take(g as int));
            assert(gs@.take(g + 1).last() == gs@[g as int]);
            assert(seq![header_view(group.harness@)] + Seq::new(group.hooks@.len(), |j: int| hook_item(gs@[g as int], g as int, j)) =~= hook_group_rows(
                gs@[g as int],
                g as int,
            ));
            assert(rows_view(rows@) =~= hook_rows_view(gs@.take(g + 1)));
        }
        g = g + 1;
    }
    assert(gs@.take(gs.len() as int) =~= gs@);
    rows
}

/// The schemas section's rows (see `schema_rows_view`).
pub fn schema_rows(files: &FileSections) -> (r: Vec<ListRow>)
    ensures
        rows_view(r@) == schema_rows_view(files.schemas@),
{
    let gs = &files.schemas;
    let mut rows: Vec<ListRow> = Vec::new();
    let mut g: usize = 0;
    while g < gs.len()
        invariant
            g <= gs.len(),
            rows_view(rows@) == schema_rows_view(gs@.take(g as int)),
        decreases gs.len() - g,
    {
        let group = &gs[g];
        let ghost base = rows_view(rows@);
        push_row(&mut rows, ListRow::header(group.source.clone()));
        let mut i: usize = 0;
        while i < group.files.len()
            invariant
                i <= group.files.len(),
                g < gs.len(),
                base == schema_rows_view(gs@.take(g as int)),
                group == &gs@[g as int],
                rows_view(rows@) =~~= base + seq![header_view(group.source@)] + Seq::new(i as nat, |j: int| schema_item(gs@[g as int], g as int, j)),
            decreases group.files.len() - i,
        {
            let file = &group.files[i];
            push_row(
                &mut rows,
                ListRow::item(
                    joined(file.label.as_str(), group.source.as_str()),
                    file.path.clone(),
                    ListTarget::SchemaFile { group: g, index: i },
                    "source",
                ),
            );
            assert(Seq::new((i + 1) as nat, |j: int| schema_item(gs@[g as int], g as int, j)) =~~= Seq::new(i as nat, |j: int| schema_item(gs@[g as int], g as int, j)).push(schema_item(gs@[g as int], g as int, i as int)));
            i = i + 1;
        }
        proof {
            assert(gs@.take(g + 1).drop_last() =~= gs@.take(g as int));
            assert(gs@.take(g + 1).last() == gs@[g as int]);
            assert(seq![header_view(group.source@)] + Seq::new(group.files@.len(), |j: int| schema_item(gs@[g as int], g as int, j)) =~= schema_group_rows(
                gs@[g as int],
                g as int,
            ));
            assert(rows_view(rows@) =~= schema_rows_view(gs@.take(g + 1)));
        }
        g = g + 1;
    }
    assert(gs@.take(gs.len() as int) =~= gs@);
    rows
}

/// The config section's rows (see `config_rows_view`).
pub fn config_rows(files: &FileSections) -> (r: Vec<ListRow>)
    ensures
        rows_view(r@) == config_rows_view(files.config@),
{
    let fs = &files.config;
    let mut rows: Vec<ListRow> = Vec::new();
    let mut i: usize = 0;
    while i < fs.len()
        invariant
            i <= fs.len(),
            rows_view(rows@) =~~= Seq::new(i as nat, |j: int| config_item(fs@, j)),
        decreases fs.len() - i,
    {
        push_row(
            &mut rows,
            ListRow::item(fs[i].path.clone(), fs[i].label.clone(), ListTarget::ConfigFile(i), "source"),
        );
        assert(Seq::new((i + 1) as nat, |j: int| config_item(fs@, j)) =~~= Seq::new(i as nat, |j: int| config_item(fs@, j)).push(config_item(fs@, i as int)));
        i = i + 1;
    }
    assert(rows_view(rows@) =~= config_rows_view(fs@));
    rows
}

// ---------------------------------------------------------------------------
// The list's viewport

/// The list's scroll offset after a redraw: when the selection moved since
/// the last redraw, the offset follows it just far enough to show it (wheel
/// scrolling leaves the selection alone, so it moves the offset only); then
/// the offset is kept so that the viewport does not run past the last row.
pub open spec fn follow_offset(offset: int, last_selected: int, selected: int, viewport: int, rows: int) -> int {
    let followed = if selected != last_selected {
        if selected < offset {
            selected
        } else if selected + 1 > offset + viewport {
            selected + 1 - viewport
        } else {
            offset
        }
    } else {
        offset
    };
    let limit = if rows >= viewport {
        rows - viewport
    } else {
        0
    };
    if followed < limit {
        followed
    } else {
        limit
    }
}

/// The offset and remembered selection after a redraw (see
/// `follow_offset`); the selection is remembered as it is now.
pub fn list_viewport(offset: usize, last_selected: usize, selected: usize, viewport: usize, rows: usize) -> (r: (
    usize,
    usize,
))
    requires
        offset + viewport <= usize::MAX,
        selected < usize::MAX,
    ensures
        r.0 == follow_offset(offset as int, last_selected as int, selected as int, viewport as int, rows as int),
        r.1 == selected,
{
    let mut o = offset;
    if selected != last_selected {
        if selected < o {
            o = selected;
        } else if selected + 1 > o + viewport {
            o = selected + 1 - viewport;
        }
    }
    let limit = if rows >= viewport { rows - viewport } else { 0 };
    if o > limit {
        o = limit;
    }
    (o, selected)
}

/// Moving the selection to a row always brings that row into the viewport.
pub proof fn lemma_moved_selection_visible(offset: int, last_selected: int, selected: int, viewport: int, rows: int)
    requires
        0 <= offset,
        viewport >= 1,
        0 <= selected < rows,
        selected != last_selected,
    ensures
        follow_offset(offset, last_selected, selected, viewport, rows) <= selected < follow_offset(
            offset,
            last_selected,
            selected,
            viewport,
            rows,
        ) + viewport,
{
}

} // verus!
