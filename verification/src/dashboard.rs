//! The dashboard's page models built from a scanned view: the module ×
//! kind count matrix, the nested kind/module grouping, and the variant
//! coverage grid.

use vstd::prelude::*;
use crate::text::{chars_of, eq, extend, lit, seqs_of, string_of, split_once, split_once_seq};
use crate::view::{ArtifactView, DashboardView, ModuleView, OverallStatus, kind_order, kind_order_vec, overall_of, saturated_total, status_label};
use crate::order::{chars_lt, insert_sorted, lemma_lt_irreflexive, lemma_lt_transitive, seq_lt, strictly_sorted, views};
use crate::view::Variant;

verus! {

// ---------------------------------------------------------------------------
// Cell status

/// How urgently a status needs attention: modified, stale, new, source-only,
/// then healthy.
pub open spec fn urgency(s: OverallStatus) -> int {
    match s {
        OverallStatus::Modified => 4,
        OverallStatus::Stale => 3,
        OverallStatus::New => 2,
        OverallStatus::Source => 1,
        OverallStatus::Healthy => 0,
    }
}

/// The most urgent status among some artifacts (`Healthy` when there are
/// none).
pub open spec fn worst_of(items: Seq<ArtifactView>) -> OverallStatus
    decreases items.len(),
{
    if items.len() == 0 {
        OverallStatus::Healthy
    } else {
        let rest = worst_of(items.drop_last());
        let s = overall_of(items.last().providers@);
        if urgency(s) >= urgency(rest) {
            s
        } else {
            rest
        }
    }
}

/// The views of a list of artifact references.
pub open spec fn derefs(v: Seq<&ArtifactView>) -> Seq<ArtifactView> {
    v.map_values(|a: &ArtifactView| *a)
}

/// The label of the most urgent status among some artifacts, `ok` when
/// there are none; it colours a matrix cell's dot.
pub fn worst_status(items: &[&ArtifactView]) -> (r: String)
    ensures
        r@ == status_label(worst_of(derefs(items@))),
{
    let mut worst = OverallStatus::Healthy;
    let mut i: usize = 0;
    while i < items.len()
        invariant
            i <= items.len(),
            worst == worst_of(derefs(items@).take(i as int)),
        decreases items.len() - i,
    {
        proof {
            assert(derefs(items@).take(i + 1).drop_last() =~= derefs(items@).take(i as int));
            assert(derefs(items@).take(i + 1).last() == *items@[i as int]);
        }
        let s = items[i].overall();
        if urgency_of(s) >= urgency_of(worst) {
            worst = s;
        }
        i = i + 1;
    }
    assert(derefs(items@).take(items.len() as int) =~= derefs(items@));
    String::from_str(worst.label())
}

fn urgency_of(s: OverallStatus) -> (r: u8)
    ensures
        r as int == urgency(s),
{
    match s {
        OverallStatus::Modified => 4,
        OverallStatus::Stale => 3,
        OverallStatus::New => 2,
        OverallStatus::Source => 1,
        OverallStatus::Healthy => 0,
    }
}

// ---------------------------------------------------------------------------
// Artifacts of one kind, largest first

/// The artifacts of one kind, in their original order.
pub open spec fn of_kind(arts: Seq<ArtifactView>, kind: Seq<char>) -> Seq<ArtifactView>
    decreases arts.len(),
{
    if arts.len() == 0 {
        Seq::empty()
    } else if arts.last().kind@ == kind {
        of_kind(arts.drop_last(), kind).push(arts.last())
    } else {
        of_kind(arts.drop_last(), kind)
    }
}

/// `a` is listed before `b`: more lines first, then by name.
pub open spec fn listed_before(a: ArtifactView, b: ArtifactView) -> bool {
    saturated_total(a) > saturated_total(b) || (saturated_total(a) == saturated_total(b) && seq_lt(
        a.name@,
        b.name@,
    ))
}

proof fn lemma_listed_before_transitive(a: ArtifactView, b: ArtifactView, c: ArtifactView)
    requires
        listed_before(a, b),
        listed_before(b, c),
    ensures
        listed_before(a, c),
{
    if saturated_total(a) == saturated_total(b) && saturated_total(b) == saturated_total(c) {
        lemma_lt_transitive(a.name@, b.name@, c.name@);
    }
}

proof fn lemma_listed_before_irreflexive(a: ArtifactView)
    ensures
        !listed_before(a, a),
{
    lemma_lt_irreflexive(a.name@);
}

/// No artifact of the list should come before an earlier one.
pub open spec fn largest_first(v: Seq<ArtifactView>) -> bool {
    forall|i: int, j: int| 0 <= i < j < v.len() ==> !listed_before(#[trigger] v[j], #[trigger] v[i])
}

fn listed_before_exec(a: &ArtifactView, b: &ArtifactView) -> (r: bool)
    ensures
        r == listed_before(*a, *b),
{
    let ta = a.total_lines();
    let tb = b.total_lines();
    ta > tb || (ta == tb && chars_lt(&chars_of(a.name.as_str()), &chars_of(b.name.as_str())))
}

/// A module's artifacts of one kind, largest first (lines including
/// companion files), ties by name.
pub fn items_of_kind<'a>(module: &'a ModuleView, kind: &str) -> (r: Vec<&'a ArtifactView>)
    ensures
        largest_first(derefs(r@)),
        derefs(r@).to_multiset() == of_kind(module.artifacts@, kind@).to_multiset(),
        r@.len() == of_kind(module.artifacts@, kind@).len(),
{
    broadcast use vstd::seq_lib::to_multiset_insert;
    let k = chars_of(kind);
    let mut r: Vec<&'a ArtifactView> = Vec::new();
    let mut i: usize = 0;
    assert(derefs(r@) =~= of_kind(module.artifacts@.take(0), kind@));
    while i < module.artifacts.len()
        invariant
            i <= module.artifacts.len(),
            k@ == kind@,
            largest_first(derefs(r@)),
            derefs(r@).to_multiset() == of_kind(module.artifacts@.take(i as int), kind@).to_multiset(),
            r@.len() == of_kind(module.artifacts@.take(i as int), kind@).len(),
        decreases module.artifacts.len() - i,
    {
        let a = &module.artifacts[i];
        proof {
            let t = module.artifacts@.take(i + 1);
            assert(t.drop_last() =~= module.artifacts@.take(i as int));
            assert(t.last() == *a);
        }
        if eq(&chars_of(a.kind.as_str()), &k) {
            proof {
                vstd::seq_lib::to_multiset_build(of_kind(module.artifacts@.take(i as int), kind@), *a);
            }
            let mut p: usize = 0;
            while p < r.len() && !listed_before_exec(a, r[p])
                invariant
                    p <= r.len(),
                    forall|q: int| 0 <= q < p ==> !listed_before(*a, #[trigger] derefs(r@)[q]),
                decreases r.len() - p,
            {
                p = p + 1;
            }
            let ghost before = derefs(r@);
            r.insert(p, a);
            proof {
                let after = derefs(r@);
                assert(after =~= before.insert(p as int, *a));
                assert forall|x: int, y: int| 0 <= x < y < after.len() implies !listed_before(
                    #[trigger] after[y],
                    #[trigger] after[x],
                ) by {
                    if y < p {
                        assert(after[x] == before[x] && after[y] == before[y]);
                    } else if y == p {
                        assert(after[x] == before[x]);
                    } else if x == p {
                        assert(after[y] == before[y - 1]);
                        if listed_before(before[y - 1], *a) {
                            assert(listed_before(*a, before[p as int]));
                            lemma_listed_before_transitive(before[y - 1], *a, before[p as int]);
                            if y - 1 == p {
                                lemma_listed_before_irreflexive(before[p as int]);
                            }
                        }
                    } else if x < p {
                        assert(after[x] == before[x] && after[y] == before[y - 1]);
                    } else {
                        assert(after[x] == before[x - 1] && after[y] == before[y - 1]);
                    }
                }
                vstd::seq_lib::to_multiset_insert(before, p as int, *a);
            }
        }
        i = i + 1;
    }
    assert(module.artifacts@.take(module.artifacts.len() as int) =~= module.artifacts@);
    r
}

// ---------------------------------------------------------------------------
// Count matrix

/// Number of artifacts of one kind.
pub open spec fn count_kind(arts: Seq<ArtifactView>, kind: Seq<char>) -> nat {
    of_kind(arts, kind).len()
}

/// One cell: a module's artifacts of one kind.
#[derive(Debug, Clone)]
pub struct MatrixCell {
    pub kind: String,
    pub module: String,
    pub count: usize,
    /// The most urgent status label, empty for an empty cell.
    pub status: String,
}

/// One module's row.
#[derive(Debug, Clone)]
pub struct MatrixRow {
    pub module: String,
    pub cells: Vec<MatrixCell>,
    pub total: usize,
}

/// The module × kind count matrix with row and column totals.
#[derive(Debug, Clone)]
pub struct MatrixView {
    pub cols: Vec<String>,
    pub rows: Vec<MatrixRow>,
    pub col_totals: Vec<usize>,
    pub total: usize,
}

/// Artifacts of the shown kinds in a module.
pub open spec fn shown_count(arts: Seq<ArtifactView>) -> nat {
    count_kind(arts, kind_order()[0]) + count_kind(arts, kind_order()[1]) + count_kind(
        arts,
        kind_order()[2],
    )
}

/// Artifacts of one kind over the first `n` modules.
pub open spec fn column_count(modules: Seq<ModuleView>, kind: Seq<char>, n: int) -> nat
    decreases n,
{
    if n <= 0 {
        0
    } else {
        column_count(modules, kind, n - 1) + count_kind(modules[n - 1].artifacts@, kind)
    }
}

/// Artifacts of the shown kinds over the first `n` modules.
pub open spec fn shown_total(modules: Seq<ModuleView>, n: int) -> nat
    decreases n,
{
    if n <= 0 {
        0
    } else {
        shown_total(modules, n - 1) + shown_count(modules[n - 1].artifacts@)
    }
}

/// Artifacts in all modules, of any kind.
pub open spec fn artifact_total(modules: Seq<ModuleView>, n: int) -> nat
    decreases n,
{
    if n <= 0 {
        0
    } else {
        artifact_total(modules, n - 1) + modules[n - 1].artifacts@.len()
    }
}

/// The cell for one module and kind.
pub open spec fn cell_is(c: MatrixCell, m: ModuleView, kind: Seq<char>) -> bool {
    &&& c.kind@ == kind
    &&& c.module@ == m.name@
    &&& c.count == count_kind(m.artifacts@, kind)
    &&& c.status@ == if c.count == 0 {
        Seq::<char>::empty()
    } else {
        status_label(worst_of(of_kind(m.artifacts@, kind)))
    }
}

proof fn lemma_of_kind_len(arts: Seq<ArtifactView>, kind: Seq<char>)
    ensures
        of_kind(arts, kind).len() <= arts.len(),
    decreases arts.len(),
{
    if arts.len() > 0 {
        lemma_of_kind_len(arts.drop_last(), kind);
    }
}

proof fn lemma_kinds_distinct()
    ensures
        kind_order().len() == 3,
        kind_order()[0] != kind_order()[1],
        kind_order()[0] != kind_order()[2],
        kind_order()[1] != kind_order()[2],
{
    reveal_strlit("skills");
    reveal_strlit("agents");
    reveal_strlit("rules");
    assert(kind_order()[0][0] != kind_order()[1][0]);
    assert(kind_order()[0].len() != kind_order()[2].len());
    assert(kind_order()[1].len() != kind_order()[2].len());
}

proof fn lemma_shown_count_bound(arts: Seq<ArtifactView>)
    ensures
        shown_count(arts) <= arts.len(),
    decreases arts.len(),
{
    lemma_kinds_distinct();
    if arts.len() > 0 {
        lemma_shown_count_bound(arts.drop_last());
    }
}

proof fn lemma_totals_bound(modules: Seq<ModuleView>, n: int)
    requires
        0 <= n <= modules.len(),
    ensures
        shown_total(modules, n) <= artifact_total(modules, n),
        column_count(modules, kind_order()[0], n) <= shown_total(modules, n),
        column_count(modules, kind_order()[1], n) <= shown_total(modules, n),
        column_count(modules, kind_order()[2], n) <= shown_total(modules, n),
        artifact_total(modules, n) <= artifact_total(modules, modules.len() as int),
    decreases n,
{
    if n > 0 {
        lemma_totals_bound(modules, n - 1);
        lemma_shown_count_bound(modules[n - 1].artifacts@);
    }
    lemma_total_monotone(modules, n);
}

proof fn lemma_total_monotone(modules: Seq<ModuleView>, n: int)
    requires
        0 <= n <= modules.len(),
    ensures
        artifact_total(modules, n) <= artifact_total(modules, modules.len() as int),
    decreases modules.len() - n,
{
    if n < modules.len() {
        lemma_total_monotone(modules, n + 1);
    }
}

fn count_of_kind<'a>(module: &'a ModuleView, kind: &[char]) -> (r: Vec<&'a ArtifactView>)
    ensures
        derefs(r@) == of_kind(module.artifacts@, kind@),
{
    let mut r: Vec<&'a ArtifactView> = Vec::new();
    let mut i: usize = 0;
    while i < module.artifacts.len()
        invariant
            i <= module.artifacts.len(),
            derefs(r@) == of_kind(module.artifacts@.take(i as int), kind@),
        decreases module.artifacts.len() - i,
    {
        proof {
            let t = module.artifacts@.take(i + 1);
            assert(t.drop_last() =~= module.artifacts@.take(i as int));
        }
        if eq(&chars_of(module.artifacts[i].kind.as_str()), kind) {
            r.push(&module.artifacts[i]);
            assert(derefs(r@) =~= of_kind(module.artifacts@.take(i + 1), kind@));
        }
        i = i + 1;
    }
    assert(module.artifacts@.take(module.artifacts.len() as int) =~= module.artifacts@);
    r
}

/// `r` is the view's module × kind matrix: the shown kinds as columns, one
/// row per module with a cell per kind and the module's count, and the
/// column and overall totals.
pub open spec fn matrix_of(view: DashboardView, r: MatrixView) -> bool {
    &&& seqs_of_strings(r.cols@) == kind_order()
    &&& r.rows@.len() == view.modules@.len()
    &&& forall|m: int|
        0 <= m < r.rows@.len() ==> {
            &&& (#[trigger] r.rows@[m]).module@ == view.modules@[m].name@
            &&& r.rows@[m].cells@.len() == 3
            &&& forall|k: int|
                0 <= k < 3 ==> cell_is(
                    #[trigger] r.rows@[m].cells@[k],
                    view.modules@[m],
                    kind_order()[k],
                )
            &&& r.rows@[m].total == shown_count(view.modules@[m].artifacts@)
        }
    &&& r.col_totals@.len() == 3
    &&& forall|k: int|
        0 <= k < 3 ==> #[trigger] r.col_totals@[k] == column_count(
            view.modules@,
            kind_order()[k],
            view.modules@.len() as int,
        )
    &&& r.total == shown_total(view.modules@, view.modules@.len() as int)
}

/// Builds the count matrix: one row per module, one column per shown kind
/// (skills, agents, rules), each cell with its count and most urgent
/// status, and the row, column and grand totals.
pub fn build_matrix(view: &DashboardView) -> (r: MatrixView)
    requires
        artifact_total(view.modules@, view.modules@.len() as int) <= usize::MAX,
    ensures
        matrix_of(*view, r),
{
    let kinds = kind_order_vec();
    proof {
        lemma_kinds_distinct();
        assert(kinds@.len() == seqs_of(kinds@).len());
    }
    let mut cols: Vec<String> = Vec::new();
    cols.push(string_of(&kinds[0]));
    cols.push(string_of(&kinds[1]));
    cols.push(string_of(&kinds[2]));
    assert(seqs_of_strings(cols@) =~= kind_order());
    let mut c0: usize = 0;
    let mut c1: usize = 0;
    let mut c2: usize = 0;
    let mut total: usize = 0;
    let mut rows: Vec<MatrixRow> = Vec::new();
    let mut m: usize = 0;
    while m < view.modules.len()
        invariant
            m <= view.modules.len(),
            seqs_of(kinds@) == kind_order(),
            kinds@.len() == 3,
            artifact_total(view.modules@, view.modules@.len() as int) <= usize::MAX,
            rows@.len() == m,
            forall|x: int|
                0 <= x < m ==> {
                    &&& (#[trigger] rows@[x]).module@ == view.modules@[x].name@
                    &&& rows@[x].cells@.len() == 3
                    &&& forall|k: int|
                        0 <= k < 3 ==> cell_is(
                            #[trigger] rows@[x].cells@[k],
                            view.modules@[x],
                            kind_order()[k],
                        )
                    &&& rows@[x].total == shown_count(view.modules@[x].artifacts@)
                },
            c0 == column_count(view.modules@, kind_order()[0], m as int),
            c1 == column_count(view.modules@, kind_order()[1], m as int),
            c2 == column_count(view.modules@, kind_order()[2], m as int),
            total == shown_total(view.modules@, m as int),
        decreases view.modules.len() - m,
    {
        let module = &view.modules[m];
        proof {
            lemma_totals_bound(view.modules@, m + 1);
            lemma_shown_count_bound(module.artifacts@);
        }
        let mut cells: Vec<MatrixCell> = Vec::new();
        let mut row_total: usize = 0;
        let mut k: usize = 0;
        while k < 3
            invariant
                k <= 3,
                seqs_of(kinds@) == kind_order(),
                kinds@.len() == 3,
                cells@.len() == k,
                forall|j: int|
                    0 <= j < k ==> cell_is(#[trigger] cells@[j], *module, kind_order()[j]),
                row_total == if k == 0 {
                    0
                } else if k == 1 {
                    count_kind(module.artifacts@, kind_order()[0])
                } else if k == 2 {
                    count_kind(module.artifacts@, kind_order()[0]) + count_kind(
                        module.artifacts@,
                        kind_order()[1],
                    )
                } else {
                    shown_count(module.artifacts@)
                },
                shown_count(module.artifacts@) <= module.artifacts@.len(),
                module.artifacts@.len() <= usize::MAX,
            decreases 3 - k,
        {
            assert(kinds@[k as int]@ == kind_order()[k as int]);
            let items = count_of_kind(module, &kinds[k]);
            let count = items.len();
            let status = if count == 0 {
                String::new()
            } else {
                worst_status(&items)
            };
            proof {
                lemma_of_kind_len(module.artifacts@, kind_order()[k as int]);
            }
            row_total = row_total + count;
            cells.push(
                MatrixCell {
                    kind: string_of(&kinds[k]),
                    module: module.name.clone(),
                    count,
                    status,
                },
            );
            k = k + 1;
        }
        c0 = c0 + cells[0].count;
        c1 = c1 + cells[1].count;
        c2 = c2 + cells[2].count;
        total = total + row_total;
        rows.push(MatrixRow { module: module.name.clone(), cells, total: row_total });
        m = m + 1;
    }
    let mut col_totals: Vec<usize> = Vec::new();
    col_totals.push(c0);
    col_totals.push(c1);
    col_totals.push(c2);
    MatrixView { cols, rows, col_totals, total }
}

/// The views of a list of strings.
pub open spec fn seqs_of_strings(v: Seq<String>) -> Seq<Seq<char>> {
    v.map_values(|s: String| s@)
}

// ---------------------------------------------------------------------------
// Nested grouping

/// One inner group: the artifacts of one module and kind, largest first.
#[derive(Debug, Clone)]
pub struct NestedSub<'a> {
    pub label: String,
    pub kind: String,
    pub count: usize,
    pub items: Vec<&'a ArtifactView>,
}

/// One outer group with its non-empty inner groups.
#[derive(Debug, Clone)]
pub struct NestedGroup<'a> {
    pub label: String,
    pub kind: String,
    pub count: usize,
    pub subgroups: Vec<NestedSub<'a>>,
}

/// `s` lists module `m`'s artifacts of `kind`, largest first, under the
/// given label and kind tag.
pub open spec fn sub_matches(
    s: NestedSub,
    m: ModuleView,
    kind: Seq<char>,
    label: Seq<char>,
    tag: Seq<char>,
) -> bool {
    &&& s.label@ == label
    &&& s.kind@ == tag
    &&& s.count == s.items@.len()
    &&& s.count == count_kind(m.artifacts@, kind)
    &&& largest_first(derefs(s.items@))
    &&& derefs(s.items@).to_multiset() == of_kind(m.artifacts@, kind).to_multiset()
}

/// The shown kinds a module has artifacts of, in display order.
pub open spec fn present_kinds(arts: Seq<ArtifactView>) -> Seq<Seq<char>> {
    let k = kind_order();
    (if count_kind(arts, k[0]) > 0 {
        seq![k[0]]
    } else {
        Seq::empty()
    }) + (if count_kind(arts, k[1]) > 0 {
        seq![k[1]]
    } else {
        Seq::empty()
    }) + (if count_kind(arts, k[2]) > 0 {
        seq![k[2]]
    } else {
        Seq::empty()
    })
}

/// The modules with at least one artifact of a shown kind, in order.
pub open spec fn modules_with_items(modules: Seq<ModuleView>) -> Seq<ModuleView>
    decreases modules.len(),
{
    if modules.len() == 0 {
        Seq::empty()
    } else if shown_count(modules.last().artifacts@) > 0 {
        modules_with_items(modules.drop_last()).push(modules.last())
    } else {
        modules_with_items(modules.drop_last())
    }
}

/// The modules with at least one artifact of `kind`, in order.
pub open spec fn modules_having(modules: Seq<ModuleView>, kind: Seq<char>) -> Seq<ModuleView>
    decreases modules.len(),
{
    if modules.len() == 0 {
        Seq::empty()
    } else if count_kind(modules.last().artifacts@, kind) > 0 {
        modules_having(modules.drop_last(), kind).push(modules.last())
    } else {
        modules_having(modules.drop_last(), kind)
    }
}

/// The shown kinds some module has artifacts of, in display order.
pub open spec fn present_columns(modules: Seq<ModuleView>) -> Seq<Seq<char>> {
    let k = kind_order();
    let n = modules.len() as int;
    (if column_count(modules, k[0], n) > 0 {
        seq![k[0]]
    } else {
        Seq::empty()
    }) + (if column_count(modules, k[1], n) > 0 {
        seq![k[1]]
    } else {
        Seq::empty()
    }) + (if column_count(modules, k[2], n) > 0 {
        seq![k[2]]
    } else {
        Seq::empty()
    })
}

/// A module-first group: the module, then its kinds.
pub open spec fn module_group_matches(g: NestedGroup, m: ModuleView) -> bool {
    let kinds = present_kinds(m.artifacts@);
    &&& g.label@ == m.name@
    &&& g.kind@ == Seq::<char>::empty()
    &&& g.count == shown_count(m.artifacts@)
    &&& g.subgroups@.len() == kinds.len()
    &&& forall|j: int|
        0 <= j < kinds.len() ==> sub_matches(
            #[trigger] g.subgroups@[j],
            m,
            kinds[j],
            kinds[j],
            kinds[j],
        )
}

/// A kind-first group: the kind, then the modules having it.
pub open spec fn kind_group_matches(g: NestedGroup, modules: Seq<ModuleView>, kind: Seq<char>) -> bool {
    let ms = modules_having(modules, kind);
    &&& g.label@ == kind
    &&& g.kind@ == kind
    &&& g.count == column_count(modules, kind, modules.len() as int)
    &&& g.subgroups@.len() == ms.len()
    &&& forall|j: int|
        0 <= j < ms.len() ==> sub_matches(
            #[trigger] g.subgroups@[j],
            ms[j],
            kind,
            ms[j].name@,
            Seq::<char>::empty(),
        )
}

fn module_group<'a>(module: &'a ModuleView, kinds: &Vec<Vec<char>>) -> (r: Option<NestedGroup<'a>>)
    requires
        seqs_of(kinds@) == kind_order(),
        kinds@.len() == 3,
        module.artifacts@.len() <= usize::MAX,
    ensures
        match r {
            Some(g) => shown_count(module.artifacts@) > 0 && module_group_matches(g, *module),
            None => shown_count(module.artifacts@) == 0,
        },
{
    proof {
        lemma_shown_count_bound(module.artifacts@);
        reveal_with_fuel(count_upto, 4);
        assert(count_upto(module.artifacts@, 3) == shown_count(module.artifacts@));
    }
    let mut subs: Vec<NestedSub<'a>> = Vec::new();
    let mut count: usize = 0;
    let mut k: usize = 0;
    while k < 3
        invariant
            k <= 3,
            seqs_of(kinds@) == kind_order(),
            kinds@.len() == 3,
            shown_count(module.artifacts@) <= module.artifacts@.len() <= usize::MAX,
            subs@.len() == present_upto(module.artifacts@, k as int).len(),
            forall|j: int|
                0 <= j < subs@.len() ==> sub_matches(
                    #[trigger] subs@[j],
                    *module,
                    present_upto(module.artifacts@, k as int)[j],
                    present_upto(module.artifacts@, k as int)[j],
                    present_upto(module.artifacts@, k as int)[j],
                ),
            count == count_upto(module.artifacts@, k as int),
            count_upto(module.artifacts@, k as int) <= count_upto(module.artifacts@, 3),
            count_upto(module.artifacts@, 3) == shown_count(module.artifacts@),
            (subs@.len() == 0) == (count == 0),
        decreases 3 - k,
    {
        assert(kinds@[k as int]@ == kind_order()[k as int]);
        proof {
            reveal_with_fuel(count_upto, 4);
        }
        let kind = string_of(&kinds[k]);
        let items = items_of_kind(module, kind.as_str());
        let n = items.len();
        if n > 0 {
            subs.push(NestedSub { label: kind.clone(), kind, count: n, items });
            proof {
                assert(present_upto(module.artifacts@, k + 1) =~= present_upto(
                    module.artifacts@,
                    k as int,
                ).push(kind_order()[k as int]));
            }
        }
        count = count + n;
        k = k + 1;
    }
    proof {
        reveal_with_fuel(present_upto, 4);
        assert(present_upto(module.artifacts@, 3) =~= present_kinds(module.artifacts@));
    }
    if subs.len() == 0 {
        return None;
    }
    Some(NestedGroup { label: module.name.clone(), kind: String::new(), count, subgroups: subs })
}

/// The first `k` shown kinds that a module has artifacts of.
pub open spec fn present_upto(arts: Seq<ArtifactView>, k: int) -> Seq<Seq<char>>
    decreases k,
{
    if k <= 0 {
        Seq::empty()
    } else if count_kind(arts, kind_order()[k - 1]) > 0 {
        present_upto(arts, k - 1).push(kind_order()[k - 1])
    } else {
        present_upto(arts, k - 1)
    }
}

/// Artifacts of the first `k` shown kinds.
pub open spec fn count_upto(arts: Seq<ArtifactView>, k: int) -> nat
    decreases k,
{
    if k <= 0 {
        0
    } else {
        count_upto(arts, k - 1) + count_kind(arts, kind_order()[k - 1])
    }
}

fn kind_group<'a>(modules: &'a Vec<ModuleView>, kind: &Vec<char>) -> (r: Option<NestedGroup<'a>>)
    requires
        artifact_total(modules@, modules@.len() as int) <= usize::MAX,
        kind@ == kind_order()[0] || kind@ == kind_order()[1] || kind@ == kind_order()[2],
    ensures
        match r {
            Some(g) => column_count(modules@, kind@, modules@.len() as int) > 0
                && kind_group_matches(g, modules@, kind@),
            None => column_count(modules@, kind@, modules@.len() as int) == 0,
        },
{
    let label = string_of(kind);
    let mut subs: Vec<NestedSub<'a>> = Vec::new();
    let mut count: usize = 0;
    let mut m: usize = 0;
    while m < modules.len()
        invariant
            m <= modules.len(),
            label@ == kind@,
            kind@ == kind_order()[0] || kind@ == kind_order()[1] || kind@ == kind_order()[2],
            artifact_total(modules@, modules@.len() as int) <= usize::MAX,
            subs@.len() == modules_having(modules@.take(m as int), kind@).len(),
            forall|j: int|
                0 <= j < subs@.len() ==> sub_matches(
                    #[trigger] subs@[j],
                    modules_having(modules@.take(m as int), kind@)[j],
                    kind@,
                    modules_having(modules@.take(m as int), kind@)[j].name@,
                    Seq::<char>::empty(),
                ),
            count == column_count(modules@, kind@, m as int),
            (subs@.len() == 0) == (count == 0),
        decreases modules.len() - m,
    {
        proof {
            lemma_totals_bound(modules@, m + 1);
            let t = modules@.take(m + 1);
            assert(t.drop_last() =~= modules@.take(m as int));
            assert(t.last() == modules@[m as int]);
            lemma_column_prefix(modules@, kind@, m as int);
            lemma_column_prefix(modules@, kind@, m + 1);
        }
        let items = items_of_kind(&modules[m], label.as_str());
        let n = items.len();
        if n > 0 {
            subs.push(
                NestedSub { label: modules[m].name.clone(), kind: String::new(), count: n, items },
            );
        }
        count = count + n;
        m = m + 1;
    }
    assert(modules@.take(modules.len() as int) =~= modules@);
    if subs.len() == 0 {
        return None;
    }
    Some(NestedGroup { label: label.clone(), kind: label, count, subgroups: subs })
}

proof fn lemma_column_prefix(modules: Seq<ModuleView>, kind: Seq<char>, n: int)
    requires
        0 <= n <= modules.len(),
        kind == kind_order()[0] || kind == kind_order()[1] || kind == kind_order()[2],
    ensures
        column_count(modules, kind, n) <= shown_total(modules, n),
        column_count(modules.take(n), kind, n) == column_count(modules, kind, n),
    decreases n,
{
    if n > 0 {
        lemma_column_prefix(modules, kind, n - 1);
        assert(modules.take(n).take(n - 1) =~= modules.take(n - 1));
        lemma_column_take(modules.take(n), modules, kind, n - 1);
    }
}

proof fn lemma_column_take(a: Seq<ModuleView>, b: Seq<ModuleView>, kind: Seq<char>, n: int)
    requires
        0 <= n <= a.len(),
        n <= b.len(),
        forall|i: int| 0 <= i < n ==> a[i] == b[i],
    ensures
        column_count(a, kind, n) == column_count(b, kind, n),
    decreases n,
{
    if n > 0 {
        lemma_column_take(a, b, kind, n - 1);
    }
}

/// `r` groups the artifacts by module: one group per module that has any,
/// in order (see `module_group_matches`).
pub open spec fn groups_by_module(ms: Seq<ModuleView>, r: Seq<NestedGroup>) -> bool {
    &&& r.len() == modules_with_items(ms).len()
    &&& forall|i: int| 0 <= i < r.len() ==> module_group_matches(#[trigger] r[i], modules_with_items(ms)[i])
}

/// `r` groups the artifacts by kind: one group per kind that occurs, in the
/// kinds' order (see `kind_group_matches`).
pub open spec fn groups_by_kind(ms: Seq<ModuleView>, r: Seq<NestedGroup>) -> bool {
    &&& r.len() == present_columns(ms).len()
    &&& forall|i: int| 0 <= i < r.len() ==> kind_group_matches(#[trigger] r[i], ms, present_columns(ms)[i])
}

/// Builds the two-facet grouping. With `primary` = `module` the groups are
/// the modules (in order) that have artifacts of a shown kind, each split
/// by kind; otherwise the groups are the shown kinds some module has, each
/// split by module. Only non-empty groups appear.
pub fn build_nested<'a>(view: &'a DashboardView, primary: &str) -> (r: Vec<NestedGroup<'a>>)
    requires
        artifact_total(view.modules@, view.modules@.len() as int) <= usize::MAX,
    ensures
        primary@ == "module"@ ==> groups_by_module(view.modules@, r@),
        primary@ != "module"@ ==> groups_by_kind(view.modules@, r@),
{
    let kinds = kind_order_vec();
    proof {
        lemma_kinds_distinct();
        assert(kinds@.len() == seqs_of(kinds@).len());
    }
    let mut groups: Vec<NestedGroup<'a>> = Vec::new();
    if eq(&chars_of(primary), &lit("module")) {
        let mut m: usize = 0;
        while m < view.modules.len()
            invariant
                m <= view.modules.len(),
                seqs_of(kinds@) == kind_order(),
                kinds@.len() == 3,
                artifact_total(view.modules@, view.modules@.len() as int) <= usize::MAX,
                groups@.len() == modules_with_items(view.modules@.take(m as int)).len(),
                forall|i: int|
                    0 <= i < groups@.len() ==> module_group_matches(
                        #[trigger] groups@[i],
                        modules_with_items(view.modules@.take(m as int))[i],
                    ),
            decreases view.modules.len() - m,
        {
            proof {
                let t = view.modules@.take(m + 1);
                assert(t.drop_last() =~= view.modules@.take(m as int));
                assert(t.last() == view.modules@[m as int]);
                lemma_module_len_bound(view.modules@, m as int);
            }
            match module_group(&view.modules[m], &kinds) {
                Some(g) => {
                    groups.push(g);
                },
                None => {},
            }
            m = m + 1;
        }
        assert(view.modules@.take(view.modules.len() as int) =~= view.modules@);
    } else {
        let mut k: usize = 0;
        while k < 3
            invariant
                k <= 3,
                seqs_of(kinds@) == kind_order(),
                kinds@.len() == 3,
                artifact_total(view.modules@, view.modules@.len() as int) <= usize::MAX,
                groups@.len() == columns_upto(view.modules@, k as int).len(),
                forall|i: int|
                    0 <= i < groups@.len() ==> kind_group_matches(
                        #[trigger] groups@[i],
                        view.modules@,
                        columns_upto(view.modules@, k as int)[i],
                    ),
            decreases 3 - k,
        {
            assert(kinds@[k as int]@ == kind_order()[k as int]);
            match kind_group(&view.modules, &kinds[k]) {
                Some(g) => {
                    groups.push(g);
                    proof {
                        assert(columns_upto(view.modules@, k + 1) =~= columns_upto(
                            view.modules@,
                            k as int,
                        ).push(kind_order()[k as int]));
                    }
                },
                None => {},
            }
            k = k + 1;
        }
        proof {
            reveal_with_fuel(columns_upto, 4);
            assert(columns_upto(view.modules@, 3) =~= present_columns(view.modules@));
        }
    }
    groups
}

/// The first `k` shown kinds some module has.
pub open spec fn columns_upto(modules: Seq<ModuleView>, k: int) -> Seq<Seq<char>>
    decreases k,
{
    if k <= 0 {
        Seq::empty()
    } else if column_count(modules, kind_order()[k - 1], modules.len() as int) > 0 {
        columns_upto(modules, k - 1).push(kind_order()[k - 1])
    } else {
        columns_upto(modules, k - 1)
    }
}

proof fn lemma_module_len_bound(modules: Seq<ModuleView>, m: int)
    requires
        0 <= m < modules.len(),
    ensures
        modules[m].artifacts@.len() <= artifact_total(modules, modules.len() as int),
{
    lemma_total_monotone(modules, m + 1);
}

// ---------------------------------------------------------------------------
// Variant coverage

/// One qualifier column of the coverage grid.
#[derive(Debug, Clone)]
pub struct VariantCol {
    pub qualifier: String,
    pub provider: String,
    pub label: String,
}

/// One cell: the override mode and a link to the effective content, both
/// empty when the artifact has no override for the column.
#[derive(Debug, Clone)]
pub struct VariantCoverageCell {
    pub mode: String,
    pub link: String,
}

/// One artifact with overrides.
#[derive(Debug, Clone)]
pub struct VariantCoverageRow {
    pub module: String,
    pub kind: String,
    pub name: String,
    pub cells: Vec<VariantCoverageCell>,
}

/// The coverage grid of qualifier overrides.
#[derive(Debug, Clone)]
pub struct VariantCoverage {
    pub cols: Vec<VariantCol>,
    pub rows: Vec<VariantCoverageRow>,
    pub col_totals: Vec<usize>,
}

/// The artifacts of a module that have overrides, each with the module's
/// name.
pub open spec fn covered_in(name: Seq<char>, arts: Seq<ArtifactView>) -> Seq<(Seq<char>, ArtifactView)>
    decreases arts.len(),
{
    if arts.len() == 0 {
        Seq::empty()
    } else if arts.last().variants@.len() > 0 {
        covered_in(name, arts.drop_last()).push((name, arts.last()))
    } else {
        covered_in(name, arts.drop_last())
    }
}

/// All artifacts with overrides, module by module, in order.
pub open spec fn covered(modules: Seq<ModuleView>) -> Seq<(Seq<char>, ArtifactView)>
    decreases modules.len(),
{
    if modules.len() == 0 {
        Seq::empty()
    } else {
        covered(modules.drop_last()) + covered_in(modules.last().name@, modules.last().artifacts@)
    }
}

/// Some override of the artifact has qualifier `q`.
pub open spec fn has_qualifier(a: ArtifactView, q: Seq<char>) -> bool {
    exists|i: int| 0 <= i < a.variants@.len() && (#[trigger] a.variants@[i]).qualifier@ == q
}

/// The qualifiers used by some of the rows.
pub open spec fn qualifiers_of(rows: Seq<(Seq<char>, ArtifactView)>) -> Set<Seq<char>> {
    Set::new(|q: Seq<char>| exists|k: int| 0 <= k < rows.len() && has_qualifier(#[trigger] rows[k].1, q))
}

/// The first override of an artifact with qualifier `q`.
pub open spec fn first_variant(vs: Seq<Variant>, q: Seq<char>) -> Option<Variant>
    decreases vs.len(),
{
    if vs.len() == 0 {
        None
    } else if vs[0].qualifier@ == q {
        Some(vs[0])
    } else {
        first_variant(vs.drop_first(), q)
    }
}

/// A column splits its qualifier at the first `/` into provider and label;
/// a qualifier without `/` is both.
pub open spec fn col_matches(c: VariantCol, q: Seq<char>) -> bool {
    &&& c.qualifier@ == q
    &&& match split_once_seq(q, '/') {
        Some((p, m)) => c.provider@ == p && c.label@ == m,
        None => c.provider@ == q && c.label@ == q,
    }
}

/// The link to an artifact's effective content under a qualifier.
pub open spec fn effective_link(module: Seq<char>, kind: Seq<char>, name: Seq<char>, q: Seq<char>) -> Seq<char> {
    "/effective/"@ + module + "/"@ + kind + "/"@ + name + "?qualifier="@ + q
}

/// The cell of a row for qualifier `q`.
pub open spec fn coverage_cell_matches(c: VariantCoverageCell, row: (Seq<char>, ArtifactView), q: Seq<char>) -> bool {
    match first_variant(row.1.variants@, q) {
        Some(v) => c.mode@ == v.mode@ && c.link@ == effective_link(row.0, row.1.kind@, row.1.name@, q),
        None => c.mode@.len() == 0 && c.link@.len() == 0,
    }
}

/// Number of rows among the first `n` with an override for `q`.
pub open spec fn rows_with(rows: Seq<(Seq<char>, ArtifactView)>, q: Seq<char>, n: int) -> nat
    decreases n,
{
    if n <= 0 {
        0
    } else {
        rows_with(rows, q, n - 1) + if first_variant(rows[n - 1].1.variants@, q) is Some {
            1nat
        } else {
            0nat
        }
    }
}

/// The views of a list of (module name, artifact) references.
pub open spec fn row_views(v: Seq<(&String, &ArtifactView)>) -> Seq<(Seq<char>, ArtifactView)> {
    v.map_values(|x: (&String, &ArtifactView)| (x.0@, *x.1))
}

fn covered_rows<'a>(modules: &'a Vec<ModuleView>) -> (r: Vec<(&'a String, &'a ArtifactView)>)
    ensures
        row_views(r@) == covered(modules@),
{
    let mut r: Vec<(&'a String, &'a ArtifactView)> = Vec::new();
    let mut m: usize = 0;
    while m < modules.len()
        invariant
            m <= modules.len(),
            row_views(r@) == covered(modules@.take(m as int)),
        decreases modules.len() - m,
    {
        let module = &modules[m];
        let ghost start = row_views(r@);
        let mut a: usize = 0;
        while a < module.artifacts.len()
            invariant
                a <= module.artifacts.len(),
                row_views(r@) == start + covered_in(module.name@, module.artifacts@.take(a as int)),
            decreases module.artifacts.len() - a,
        {
            proof {
                let t = module.artifacts@.take(a + 1);
                assert(t.drop_last() =~= module.artifacts@.take(a as int));
                assert(t.last() == module.artifacts@[a as int]);
            }
            if module.artifacts[a].variants.len() > 0 {
                let ghost old_r = r@;
                r.push((&module.name, &module.artifacts[a]));
                assert(r@ == old_r.push((&module.name, &module.artifacts[a as int])));
                assert(row_views(r@) =~= row_views(old_r).push((module.name@, module.artifacts@[a as int])));
                assert(row_views(r@) =~= start + covered_in(
                    module.name@,
                    module.artifacts@.take(a + 1),
                ));
            }
            a = a + 1;
        }
        proof {
            assert(module.artifacts@.take(module.artifacts.len() as int) =~= module.artifacts@);
            let t = modules@.take(m + 1);
            assert(t.drop_last() =~= modules@.take(m as int));
            assert(t.last() == modules@[m as int]);
        }
        m = m + 1;
    }
    assert(modules@.take(modules.len() as int) =~= modules@);
    r
}

fn find_variant(vs: &Vec<Variant>, q: &[char]) -> (r: Option<usize>)
    ensures
        match r {
            Some(i) => i < vs@.len() && first_variant(vs@, q@) == Some(vs@[i as int]),
            None => first_variant(vs@, q@) is None,
        },
{
    let mut i: usize = 0;
    assert(vs@.skip(0) =~= vs@);
    while i < vs.len()
        invariant
            i <= vs.len(),
            first_variant(vs@.skip(i as int), q@) == first_variant(vs@, q@),
        decreases vs.len() - i,
    {
        proof {
            assert(vs@.skip(i as int)[0] == vs@[i as int]);
            assert(vs@.skip(i as int).drop_first() =~= vs@.skip(i + 1));
        }
        if eq(&chars_of(vs[i].qualifier.as_str()), q) {
            return Some(i);
        }
        i = i + 1;
    }
    assert(vs@.skip(i as int).len() == 0);
    None
}

fn column_for(q: &String) -> (c: VariantCol)
    ensures
        col_matches(c, q@),
{
    let qc = chars_of(q.as_str());
    match split_once(&qc, '/') {
        Some((p, m)) => VariantCol { qualifier: q.clone(), provider: string_of(&p), label: string_of(&m) },
        None => VariantCol { qualifier: q.clone(), provider: q.clone(), label: q.clone() },
    }
}

fn link_for(module: &String, a: &ArtifactView, q: &String) -> (r: String)
    ensures
        r@ == effective_link(module@, a.kind@, a.name@, q@),
{
    let mut s = lit("/effective/");
    extend(&mut s, &chars_of(module.as_str()));
    extend(&mut s, &lit("/"));
    extend(&mut s, &chars_of(a.kind.as_str()));
    extend(&mut s, &lit("/"));
    extend(&mut s, &chars_of(a.name.as_str()));
    extend(&mut s, &lit("?qualifier="));
    extend(&mut s, &chars_of(q.as_str()));
    string_of(&s)
}

/// Builds the coverage grid: one column per qualifier used by any override,
/// in sorted order without repeats (so a provider precedes its
/// `provider/model` children); one row per artifact with overrides, module
/// by module; each cell the first matching override's mode and link; and per
/// column the number of rows covered.
pub fn build_variant_coverage(view: &DashboardView) -> (r: VariantCoverage)
    ensures
        strictly_sorted(r.cols@.map_values(|c: VariantCol| c.qualifier@)),
        r.cols@.map_values(|c: VariantCol| c.qualifier@).to_set() == qualifiers_of(covered(view.modules@)),
        forall|j: int| 0 <= j < r.cols@.len() ==> col_matches(#[trigger] r.cols@[j], r.cols@[j].qualifier@),
        r.rows@.len() == covered(view.modules@).len(),
        forall|k: int|
            0 <= k < r.rows@.len() ==> {
                let row = covered(view.modules@)[k];
                &&& (#[trigger] r.rows@[k]).module@ == row.0
                &&& r.rows@[k].kind@ == row.1.kind@
                &&& r.rows@[k].name@ == row.1.name@
                &&& r.rows@[k].cells@.len() == r.cols@.len()
                &&& forall|j: int|
                    0 <= j < r.cols@.len() ==> coverage_cell_matches(
                        #[trigger] r.rows@[k].cells@[j],
                        row,
                        r.cols@[j].qualifier@,
                    )
            },
        r.col_totals@.len() == r.cols@.len(),
        forall|j: int|
            0 <= j < r.cols@.len() ==> #[trigger] r.col_totals@[j] == rows_with(
                covered(view.modules@),
                r.cols@[j].qualifier@,
                covered(view.modules@).len() as int,
            ),
{
    let flat = covered_rows(&view.modules);
    let ghost rows = row_views(flat@);
    // the distinct qualifiers, sorted
    let mut quals: Vec<String> = Vec::new();
    let mut k: usize = 0;
    while k < flat.len()
        invariant
            k <= flat.len(),
            rows == row_views(flat@),
            strictly_sorted(views(quals@)),
            views(quals@).to_set() == qualifiers_of(rows.take(k as int)),
        decreases flat.len() - k,
    {
        let a = flat[k].1;
        let ghost before = views(quals@).to_set();
        let mut v: usize = 0;
        while v < a.variants.len()
            invariant
                v <= a.variants.len(),
                strictly_sorted(views(quals@)),
                views(quals@).to_set() == before.union(
                    Set::new(|q: Seq<char>| exists|i: int| 0 <= i < v && (#[trigger] a.variants@[i]).qualifier@ == q),
                ),
            decreases a.variants.len() - v,
        {
            let ghost prev = Set::new(|q: Seq<char>| exists|i: int| 0 <= i < v && (#[trigger] a.variants@[i]).qualifier@ == q);
            insert_sorted(&mut quals, a.variants[v].qualifier.clone());
            proof {
                let next = Set::new(|q: Seq<char>| exists|i: int| 0 <= i < v + 1 && (#[trigger] a.variants@[i]).qualifier@ == q);
                assert(next =~= prev.insert(a.variants@[v as int].qualifier@)) by {
                    assert forall|q: Seq<char>| next.contains(q) implies prev.insert(a.variants@[v as int].qualifier@).contains(q) by {
                        let i = choose|i: int| 0 <= i < v + 1 && (#[trigger] a.variants@[i]).qualifier@ == q;
                        if i < v {
                            assert(prev.contains(q));
                        }
                    }
                }
                assert(views(quals@).to_set() =~= before.union(next));
            }
            v = v + 1;
        }
        proof {
            assert(rows[k as int].1 == *a);
            let t = rows.take(k + 1);
            assert forall|q: Seq<char>| qualifiers_of(t).contains(q) == (qualifiers_of(rows.take(k as int)).contains(q) || has_qualifier(*a, q)) by {
                if qualifiers_of(t).contains(q) {
                    let j = choose|j: int| 0 <= j < t.len() && has_qualifier(#[trigger] t[j].1, q);
                    if j < k {
                        assert(rows.take(k as int)[j] == t[j]);
                    }
                }
                if qualifiers_of(rows.take(k as int)).contains(q) {
                    let j = choose|j: int| 0 <= j < rows.take(k as int).len() && has_qualifier(#[trigger] rows.take(k as int)[j].1, q);
                    assert(t[j] == rows.take(k as int)[j]);
                }
                if has_qualifier(*a, q) {
                    assert(t[k as int].1 == *a);
                }
            }
            assert(views(quals@).to_set() =~= qualifiers_of(t));
        }
        k = k + 1;
    }
    assert(rows.take(flat.len() as int) =~= rows);
    // the columns
    let mut cols: Vec<VariantCol> = Vec::new();
    let mut j: usize = 0;
    while j < quals.len()
        invariant
            j <= quals.len(),
            cols@.len() == j,
            forall|x: int| 0 <= x < j ==> (#[trigger] cols@[x]).qualifier@ == quals@[x]@,
            forall|x: int| 0 <= x < j ==> col_matches(#[trigger] cols@[x], cols@[x].qualifier@),
        decreases quals.len() - j,
    {
        cols.push(column_for(&quals[j]));
        j = j + 1;
    }
    assert(cols@.map_values(|c: VariantCol| c.qualifier@) =~= views(quals@));
    // the rows and column totals
    let mut col_totals: Vec<usize> = Vec::new();
    let mut j: usize = 0;
    while j < cols.len()
        invariant
            j <= cols.len(),
            col_totals@.len() == j,
            forall|x: int| 0 <= x < j ==> col_totals@[x] == 0,
        decreases cols.len() - j,
    {
        col_totals.push(0);
        j = j + 1;
    }
    let mut out_rows: Vec<VariantCoverageRow> = Vec::new();
    let mut k: usize = 0;
    while k < flat.len()
        invariant
            k <= flat.len(),
            rows == row_views(flat@),
            rows == covered(view.modules@),
            col_totals@.len() == cols@.len(),
            out_rows@.len() == k,
            forall|x: int|
                0 <= x < k ==> {
                    let row = rows[x];
                    &&& (#[trigger] out_rows@[x]).module@ == row.0
                    &&& out_rows@[x].kind@ == row.1.kind@
                    &&& out_rows@[x].name@ == row.1.name@
                    &&& out_rows@[x].cells@.len() == cols@.len()
                    &&& forall|c: int|
                        0 <= c < cols@.len() ==> coverage_cell_matches(
                            #[trigger] out_rows@[x].cells@[c],
                            row,
                            cols@[c].qualifier@,
                        )
                },
            forall|c: int|
                0 <= c < cols@.len() ==> #[trigger] col_totals@[c] == rows_with(rows, cols@[c].qualifier@, k as int),
            forall|c: int| 0 <= c < cols@.len() ==> #[trigger] col_totals@[c] <= k,
        decreases flat.len() - k,
    {
        let (module_name, a) = flat[k];
        proof {
            assert(rows[k as int] == (module_name@, *a));
        }
        let mut cells: Vec<VariantCoverageCell> = Vec::new();
        let mut c: usize = 0;
        while c < cols.len()
            invariant
                c <= cols.len(),
                k < flat.len(),
                rows[k as int] == (module_name@, *a),
                col_totals@.len() == cols@.len(),
                cells@.len() == c,
                forall|x: int|
                    0 <= x < c ==> coverage_cell_matches(#[trigger] cells@[x], rows[k as int], cols@[x].qualifier@),
                forall|x: int|
                    0 <= x < cols@.len() ==> #[trigger] col_totals@[x] == rows_with(rows, cols@[x].qualifier@, k as int)
                        + if x < c && first_variant(a.variants@, cols@[x].qualifier@) is Some { 1nat } else { 0nat },
                forall|x: int| 0 <= x < cols@.len() ==> #[trigger] col_totals@[x] <= k + 1,
                forall|x: int| c <= x < cols@.len() ==> #[trigger] col_totals@[x] <= k,
            decreases cols.len() - c,
        {
            match find_variant(&a.variants, &chars_of(cols[c].qualifier.as_str())) {
                Some(i) => {
                    let t = col_totals[c] + 1;
                    col_totals.set(c, t);
                    cells.push(VariantCoverageCell {
                        mode: a.variants[i].mode.clone(),
                        link: link_for(module_name, a, &cols[c].qualifier),
                    });
                },
                None => {
                    cells.push(VariantCoverageCell { mode: String::new(), link: String::new() });
                },
            }
            c = c + 1;
        }
        out_rows.push(VariantCoverageRow {
            module: module_name.clone(),
            kind: a.kind.clone(),
            name: a.name.clone(),
            cells,
        });
        k = k + 1;
    }
    VariantCoverage { cols, rows: out_rows, col_totals }
}

} // verus!
