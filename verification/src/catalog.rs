//! Putting the scanned modules together for the views: the placeholder
//! shown when nothing was found, and each module's artifacts in name order,
//! stamped with the module's name and colour.

use vstd::prelude::*;
use crate::order::{sort_by_name, sorted_by_name, stable_order, Named};
use crate::view::{ArtifactView, Companion, ModuleView};
use crate::tui::{artifact_index, artifact_position};
use crate::text::{chars_of, eq, lit};

verus! {

/// How many colours the views cycle through for modules.
pub const MODULE_TINTS: usize = 8;

/// An artifact stamped with its module's name and colour.
pub open spec fn stamped(a: ArtifactView, module: String, tint: usize) -> ArtifactView {
    ArtifactView { module: module, module_tint: tint, ..a }
}

/// The module listed when the scan found none.
pub open spec fn is_placeholder(m: ModuleView) -> bool {
    &&& m.name@ == "(no manifest)"@
    &&& m.version@.len() == 0
    &&& m.description@ == "No .manifest files found at scanned targets"@
    &&& m.source_uri@.len() == 0
    &&& !m.is_target
    &&& m.local_path is None
    &&& m.vcs is None
    &&& m.git_log@.len() == 0
    &&& m.artifacts@.len() == 0
}

/// `r` is module `m`, found at position `k`, as the views show it: the same
/// module, with its artifacts sorted by name (equal names in their order),
/// each stamped with the module's name and the colour `k % 8`.
pub open spec fn finished(m: ModuleView, k: int, r: ModuleView) -> bool {
    &&& module_kept(m, r)
    &&& exists|q: Seq<int>|
        #![trigger stable_order(m.artifacts@, q)]
        {
            &&& stable_order(m.artifacts@, q)
            &&& r.artifacts@.len() == q.len()
            &&& forall|t: int|
                0 <= t < q.len() ==> r.artifacts@[t] == stamped(
                    m.artifacts@[q[t]],
                    m.name,
                    (k % (MODULE_TINTS as int)) as usize,
                )
        }
}

fn stamp_all(arts: Vec<ArtifactView>, module: &String, tint: usize) -> (r: Vec<ArtifactView>)
    ensures
        r@.len() == arts@.len(),
        forall|t: int| 0 <= t < r@.len() ==> r@[t] == stamped(arts@[t], *module, tint),
{
    let ghost s = arts@;
    let n = arts.len();
    let mut rest = arts;
    let mut out: Vec<ArtifactView> = Vec::new();
    let mut i: usize = 0;
    while i < n
        invariant
            n == s.len(),
            i <= n,
            rest@ == s.skip(i as int),
            out@.len() == i,
            forall|t: int| 0 <= t < i ==> out@[t] == stamped(s[t], *module, tint),
        decreases n - i,
    {
        assert(rest@[0] == s[i as int]);
        let mut a = rest.remove(0);
        assert(rest@ =~= s.skip(i + 1));
        a.module = module.clone();
        a.module_tint = tint;
        out.push(a);
        i = i + 1;
    }
    out
}

/// The modules as the views list them: the placeholder when the scan found
/// none; else each module as `finished` describes it, in order.
pub fn finish_modules(modules: Vec<ModuleView>) -> (r: Vec<ModuleView>)
    ensures
        modules@.len() == 0 ==> r@.len() == 1 && is_placeholder(r@[0]),
        modules@.len() > 0 ==> r@.len() == modules@.len() && forall|k: int|
            0 <= k < r@.len() ==> finished(modules@[k], k, #[trigger] r@[k]),
{
    if modules.len() == 0 {
        let placeholder = ModuleView {
            name: String::from_str("(no manifest)"),
            version: String::new(),
            description: String::from_str("No .manifest files found at scanned targets"),
            source_uri: String::new(),
            is_target: false,
            local_path: None,
            vcs: None,
            git_log: Vec::new(),
            artifacts: Vec::new(),
        };
        return vec![placeholder];
    }
    let ghost s = modules@;
    let n = modules.len();
    let mut rest = modules;
    let mut out: Vec<ModuleView> = Vec::new();
    let mut k: usize = 0;
    while k < n
        invariant
            n == s.len(),
            k <= n,
            rest@ == s.skip(k as int),
            out@.len() == k,
            forall|j: int| 0 <= j < k ==> finished(s[j], j, #[trigger] out@[j]),
        decreases n - k,
    {
        assert(rest@[0] == s[k as int]);
        let m = rest.remove(0);
        assert(rest@ =~= s.skip(k + 1));
        let ModuleView { name, version, description, source_uri, is_target, local_path, vcs, git_log, artifacts } = m;
        let ghost original = artifacts@;
        let sorted = sort_by_name(artifacts);
        let tint = k % MODULE_TINTS;
        let stamped_arts = stamp_all(sorted, &name, tint);
        let done = ModuleView {
            name,
            version,
            description,
            source_uri,
            is_target,
            local_path,
            vcs,
            git_log,
            artifacts: stamped_arts,
        };
        proof {
            let q = choose|q: Seq<int>|
                #![trigger stable_order(original, q)]
                stable_order(original, q) && sorted@.len() == original.len() && forall|t: int|
                    0 <= t < sorted@.len() ==> sorted@[t] == original[q[t]];
            assert(stable_order(s[k as int].artifacts@, q));
            assert(finished(s[k as int], k as int, done));
        }
        out.push(done);
        k = k + 1;
    }
    out
}

// ---------------------------------------------------------------------------
// Companions

/// A companion found while scanning, waiting to be put under its parent
/// skill in the module of `source_uri`.
#[derive(Debug, Clone)]
pub struct PendingCompanion {
    pub source_uri: String,
    pub parent: String,
    pub companion: Companion,
}

/// Each module's artifacts' companions.
pub type CompanionTable = Seq<Seq<Seq<Companion>>>;

/// The companions of every artifact of every module.
pub open spec fn companion_table(ms: Seq<ModuleView>) -> CompanionTable {
    ms.map_values(|m: ModuleView| m.artifacts@.map_values(|a: ArtifactView| a.companions@))
}

/// `y` is the artifact `x` but for its companions.
pub open spec fn artifact_kept(x: ArtifactView, y: ArtifactView) -> bool {
    y == ArtifactView { companions: y.companions, ..x }
}

/// `y` is the module `x` but for its artifacts.
pub open spec fn module_kept(x: ModuleView, y: ModuleView) -> bool {
    y == ModuleView { artifacts: y.artifacts, ..x }
}

/// `y` is `x` but for the artifacts' companions.
pub open spec fn same_but_companions(x: Seq<ModuleView>, y: Seq<ModuleView>) -> bool {
    &&& x.len() == y.len()
    &&& forall|m: int|
        #![trigger y[m]]
        0 <= m < x.len() ==> {
            &&& module_kept(x[m], y[m])
            &&& y[m].artifacts@.len() == x[m].artifacts@.len()
            &&& forall|a: int|
                0 <= a < x[m].artifacts@.len() ==> artifact_kept(x[m].artifacts@[a], #[trigger] y[m].artifacts@[a])
        }
}

/// The position of the first module whose source is `source`.
pub open spec fn source_position(ms: Seq<ModuleView>, source: Seq<char>) -> Option<int>
    decreases ms.len(),
{
    if ms.len() == 0 {
        None
    } else {
        match source_position(ms.drop_last(), source) {
            Some(i) => Some(i),
            None => if ms.last().source_uri@ == source {
                Some(ms.len() - 1)
            } else {
                None
            },
        }
    }
}

/// Some companion in `cs` is named `name`.
pub open spec fn names_companion(cs: Seq<Companion>, name: Seq<char>) -> bool {
    exists|j: int| 0 <= j < cs.len() && (#[trigger] cs[j]).name@ == name
}

/// Attaching one pending companion to the table: it goes last under the
/// first skill named after its parent in the module of its source, unless
/// that skill already has a companion of its name; without such a module
/// or skill nothing changes.
pub open spec fn attach_step(ms: Seq<ModuleView>, t: CompanionTable, p: PendingCompanion) -> CompanionTable {
    match source_position(ms, p.source_uri@) {
        Some(m) => match artifact_position(ms[m].artifacts@, "skills"@, p.parent@) {
            Some(a) => if names_companion(t[m][a], p.companion.name@) {
                t
            } else {
                t.update(m, t[m].update(a, t[m][a].push(p.companion)))
            },
            None => t,
        },
        None => t,
    }
}

/// Attaching the pending companions in order.
pub open spec fn attach_all(ms: Seq<ModuleView>, t: CompanionTable, ps: Seq<PendingCompanion>) -> CompanionTable
    decreases ps.len(),
{
    if ps.len() == 0 {
        t
    } else {
        attach_step(ms, attach_all(ms, t, ps.drop_last()), ps.last())
    }
}

fn source_index(ms: &Vec<ModuleView>, source: &str) -> (r: Option<usize>)
    ensures
        match source_position(ms@, source@) {
            Some(i) => r is Some && r->0 == i && i < ms@.len(),
            None => r is None,
        },
{
    let s = chars_of(source);
    let mut i: usize = 0;
    while i < ms.len()
        invariant
            i <= ms.len(),
            s@ == source@,
            source_position(ms@.take(i as int), source@) is None,
        decreases ms.len() - i,
    {
        assert(ms@.take(i + 1).drop_last() =~= ms@.take(i as int));
        if eq(&chars_of(ms[i].source_uri.as_str()), &s) {
            proof {
                assert(source_position(ms@.take(i + 1), source@) == Some(i as int));
                lemma_source_position_extend(ms@, source@, i + 1);
            }
            return Some(i);
        }
        i = i + 1;
    }
    assert(ms@.take(ms.len() as int) =~= ms@);
    None
}

proof fn lemma_source_position_extend(ms: Seq<ModuleView>, source: Seq<char>, k: int)
    requires
        0 < k <= ms.len(),
        source_position(ms.take(k), source) is Some,
    ensures
        source_position(ms, source) == source_position(ms.take(k), source),
    decreases ms.len() - k,
{
    if k < ms.len() {
        assert(ms.take(k + 1).drop_last() =~= ms.take(k));
        lemma_source_position_extend(ms, source, k + 1);
    } else {
        assert(ms.take(k) =~= ms);
    }
}

fn has_companion_named(cs: &Vec<Companion>, name: &str) -> (r: bool)
    ensures
        r == names_companion(cs@, name@),
{
    let n = chars_of(name);
    let mut j: usize = 0;
    while j < cs.len()
        invariant
            j <= cs.len(),
            n@ == name@,
            forall|k: int| 0 <= k < j ==> cs@[k].name@ != name@,
        decreases cs.len() - j,
    {
        if eq(&chars_of(cs[j].name.as_str()), &n) {
            return true;
        }
        j = j + 1;
    }
    false
}

proof fn lemma_remove_insert<T>(s: Seq<T>, i: int, x: T)
    requires
        0 <= i < s.len(),
    ensures
        s.remove(i).insert(i, x) == s.update(i, x),
{
    assert(s.remove(i).insert(i, x) =~= s.update(i, x));
}

fn attach_one(modules: &mut Vec<ModuleView>, p: PendingCompanion)
    ensures
        same_but_companions(old(modules)@, final(modules)@),
        companion_table(final(modules)@) =~~= attach_step(old(modules)@, companion_table(old(modules)@), p),
{
    let ghost ms = modules@;
    let ghost t = companion_table(ms);
    let m = match source_index(modules, p.source_uri.as_str()) {
        Some(m) => m,
        None => {
            assert(same_but_companions(ms, modules@));
            return;
        },
    };
    let a = match artifact_index(&modules[m].artifacts, "skills", p.parent.as_str()) {
        Some(a) => a,
        None => {
            assert(same_but_companions(ms, modules@));
            return;
        },
    };
    assert(t[m as int][a as int] == ms[m as int].artifacts@[a as int].companions@);
    if has_companion_named(&modules[m].artifacts[a].companions, p.companion.name.as_str()) {
        assert(same_but_companions(ms, modules@));
        return;
    }
    let mut md = modules.remove(m);
    let mut art = md.artifacts.remove(a);
    let ghost arts_before = ms[m as int].artifacts@;
    art.companions.push(p.companion);
    md.artifacts.insert(a, art);
    modules.insert(m, md);
    proof {
        lemma_remove_insert(arts_before, a as int, art);
        lemma_remove_insert(ms, m as int, md);
        assert(modules@ == ms.update(m as int, md));
        assert(md.artifacts@ == arts_before.update(a as int, art));
        assert(same_but_companions(ms, modules@));
        assert(companion_table(modules@) =~~= t.update(
            m as int,
            t[m as int].update(a as int, t[m as int][a as int].push(p.companion)),
        ));
    }
}

fn sort_companions(modules: Vec<ModuleView>) -> (r: Vec<ModuleView>)
    ensures
        same_but_companions(modules@, r@),
        forall|m: int, a: int|
            0 <= m < r@.len() && 0 <= a < r@[m].artifacts@.len() ==> sorted_by_name(
                modules@[m].artifacts@[a].companions@,
                #[trigger] r@[m].artifacts@[a].companions@,
            ),
{
    let ghost s = modules@;
    let n = modules.len();
    let mut rest = modules;
    let mut out: Vec<ModuleView> = Vec::new();
    let mut k: usize = 0;
    while k < n
        invariant
            n == s.len(),
            k <= n,
            rest@ == s.skip(k as int),
            same_but_companions(s.take(k as int), out@),
            forall|m: int, a: int|
                0 <= m < k && 0 <= a < out@[m].artifacts@.len() ==> sorted_by_name(
                    s[m].artifacts@[a].companions@,
                    #[trigger] out@[m].artifacts@[a].companions@,
                ),
        decreases n - k,
    {
        assert(rest@[0] == s[k as int]);
        let mut md = rest.remove(0);
        assert(rest@ =~= s.skip(k + 1));
        let ghost arts = md.artifacts@;
        let an = md.artifacts.len();
        let mut pending = md.artifacts;
        md.artifacts = Vec::new();
        let mut done: Vec<ArtifactView> = Vec::new();
        let mut j: usize = 0;
        while j < an
            invariant
                an == arts.len(),
                j <= an,
                pending@ == arts.skip(j as int),
                done@.len() == j,
                forall|x: int|
                    0 <= x < j ==> artifact_kept(arts[x], #[trigger] done@[x]),
                forall|x: int|
                    0 <= x < j ==> sorted_by_name(arts[x].companions@, #[trigger] done@[x].companions@),
            decreases an - j,
        {
            assert(pending@[0] == arts[j as int]);
            let mut art = pending.remove(0);
            assert(pending@ =~= arts.skip(j + 1));
            let cs = art.companions;
            art.companions = sort_by_name(cs);
            done.push(art);
            j = j + 1;
        }
        md.artifacts = done;
        let ghost before = out@;
        out.push(md);
        proof {
            assert(s.take(k + 1).drop_last() =~= s.take(k as int));
            assert forall|m: int| 0 <= m < k + 1 implies #[trigger] module_kept(s.take(k + 1)[m], out@[m]) by {
                if m < k {
                    assert(out@[m] == before[m]);
                    assert(s.take(k + 1)[m] == s.take(k as int)[m]);
                }
            }
            assert(same_but_companions(s.take(k + 1), out@));
        }
        k = k + 1;
    }
    assert(s.take(n as int) =~= s);
    out
}

/// Puts the pending companions under their parent skills (see
/// `attach_step`), in order, then sorts every artifact's companions by name,
/// equal names in their order. The modules are keyed by source URI, as the
/// scan collects them; nothing but the companions changes.
pub fn attach_companions(modules: &mut Vec<ModuleView>, pending: Vec<PendingCompanion>)
    ensures
        same_but_companions(old(modules)@, final(modules)@),
        forall|m: int, a: int|
            0 <= m < final(modules)@.len() && 0 <= a < final(modules)@[m].artifacts@.len() ==> sorted_by_name(
                attach_all(old(modules)@, companion_table(old(modules)@), pending@)[m][a],
                #[trigger] final(modules)@[m].artifacts@[a].companions@,
            ),
{
    let ghost ms = modules@;
    let n = pending.len();
    let ghost ps = pending@;
    let mut rest = pending;
    let mut i: usize = 0;
    while i < n
        invariant
            n == ps.len(),
            i <= n,
            rest@ == ps.skip(i as int),
            same_but_companions(ms, modules@),
            companion_table(modules@) =~~= attach_all(ms, companion_table(ms), ps.take(i as int)),
        decreases n - i,
    {
        assert(rest@[0] == ps[i as int]);
        let p = rest.remove(0);
        assert(rest@ =~= ps.skip(i + 1));
        let ghost before = modules@;
        attach_one(modules, p);
        proof {
            assert(ps.take(i + 1).drop_last() =~= ps.take(i as int));
            assert(ps.take(i + 1).last() == ps[i as int]);
            lemma_step_same_positions(ms, before, companion_table(before), p);
            lemma_same_but_companions_trans(ms, before, modules@);
        }
        i = i + 1;
    }
    assert(ps.take(n as int) =~= ps);
    let mut all: Vec<ModuleView> = Vec::new();
    std::mem::swap(&mut all, modules);
    let sorted = sort_companions(all);
    *modules = sorted;
    proof {
        lemma_same_but_companions_trans(ms, all@, modules@);
        assert forall|m: int, a: int|
            0 <= m < modules@.len() && 0 <= a < modules@[m].artifacts@.len() implies sorted_by_name(
                attach_all(ms, companion_table(ms), ps)[m][a],
                #[trigger] modules@[m].artifacts@[a].companions@,
            ) by {
            assert(all@[m].artifacts@[a].companions@ == companion_table(all@)[m][a]);
        }
    }
}

proof fn lemma_same_but_companions_trans(x: Seq<ModuleView>, y: Seq<ModuleView>, z: Seq<ModuleView>)
    requires
        same_but_companions(x, y),
        same_but_companions(y, z),
    ensures
        same_but_companions(x, z),
{
    assert forall|m: int| #![trigger z[m]] 0 <= m < x.len() implies {
        &&& module_kept(x[m], z[m])
        &&& z[m].artifacts@.len() == x[m].artifacts@.len()
        &&& forall|a: int|
            0 <= a < x[m].artifacts@.len() ==> artifact_kept(x[m].artifacts@[a], #[trigger] z[m].artifacts@[a])
    } by {
        assert(module_kept(x[m], y[m]));
        assert forall|a: int| 0 <= a < x[m].artifacts@.len() implies artifact_kept(x[m].artifacts@[a], #[trigger] z[m].artifacts@[a]) by {
            assert(artifact_kept(x[m].artifacts@[a], y[m].artifacts@[a]));
        }
    }
}

/// The step's lookups depend only on what `same_but_companions` keeps, so
/// they can be made on the original modules.
proof fn lemma_step_same_positions(ms: Seq<ModuleView>, cur: Seq<ModuleView>, t: CompanionTable, p: PendingCompanion)
    requires
        same_but_companions(ms, cur),
    ensures
        attach_step(cur, t, p) == attach_step(ms, t, p),
{
    lemma_source_position_same(ms, cur, p.source_uri@);
    match source_position(ms, p.source_uri@) {
        Some(m) => {
            lemma_artifact_position_same(ms[m].artifacts@, cur[m].artifacts@, p.parent@);
        },
        None => {},
    }
}

proof fn lemma_source_position_same(x: Seq<ModuleView>, y: Seq<ModuleView>, source: Seq<char>)
    requires
        same_but_companions(x, y),
    ensures
        source_position(x, source) == source_position(y, source),
        source_position(x, source) is Some ==> 0 <= source_position(x, source)->0 < x.len(),
    decreases x.len(),
{
    if x.len() > 0 {
        assert(module_kept(x[x.len() - 1], y[y.len() - 1]));
        assert(same_but_companions(x.drop_last(), y.drop_last())) by {
            assert forall|m: int| #![trigger y.drop_last()[m]] 0 <= m < x.drop_last().len() implies {
                &&& module_kept(x.drop_last()[m], y.drop_last()[m])
                &&& y.drop_last()[m].artifacts@.len() == x.drop_last()[m].artifacts@.len()
                &&& forall|a: int|
                    0 <= a < x.drop_last()[m].artifacts@.len() ==> artifact_kept(x.drop_last()[m].artifacts@[a], #[trigger] y.drop_last()[m].artifacts@[a])
            } by {
                assert(module_kept(x[m], y[m]));
            }
        }
        lemma_source_position_same(x.drop_last(), y.drop_last(), source);
    }
}

proof fn lemma_artifact_position_same(x: Seq<ArtifactView>, y: Seq<ArtifactView>, name: Seq<char>)
    requires
        x.len() == y.len(),
        forall|a: int| 0 <= a < x.len() ==> artifact_kept(x[a], #[trigger] y[a]),
    ensures
        artifact_position(x, "skills"@, name) == artifact_position(y, "skills"@, name),
    decreases x.len(),
{
    if x.len() > 0 {
        assert(artifact_kept(x[x.len() - 1], y[y.len() - 1]));
        assert forall|a: int| 0 <= a < x.drop_last().len() implies artifact_kept(x.drop_last()[a], #[trigger] y.drop_last()[a]) by {
            assert(artifact_kept(x[a], y[a]));
        }
        lemma_artifact_position_same(x.drop_last(), y.drop_last(), name);
    }
}

} // verus!
