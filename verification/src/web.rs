//! The dashboard server's request logic: the loopback host check, artifact
//! lookup, deployment grouping, search filtering, ordering and paging, and
//! the small text helpers of its pages.

use vstd::prelude::*;
use crate::digest::FileStatus;
use crate::text::{char_index, chars_of, eq, extend, has_prefix, index_of_char_from, lines, lit, rsplit_once, rsplit_once_seq, slice, string_of, strip_prefix, strip_prefix_seq, strip_suffix, strip_suffix_seq, to_ascii_lowercase, ascii_lowercase, trim, trim_chars};
use crate::view::{Companion, GitCommit, ProviderStatus, Adoption, ArtifactView, DashboardView, DeployGroup, DeployHarness, ModuleView, OverallStatus, ProvenanceArtifact, count_lines, line_count, lowercase, matches_query_seq, overall_of, saturated_total, staleness_rank_of, status_label, unicode_lowercase, kind_order, kind_order_vec};
use crate::order::{insert_sorted, strictly_sorted, views, chars_lt, lemma_insert_in_order, lemma_lt_irreflexive, lemma_lt_total, lemma_lt_transitive, lists, lemma_orders_prefix_push, orders_prefix, seq_lt, stable_order, Named};
use crate::paths::{file_name, file_stem_of, name_extension, name_stem, parent, path_file_name, path_parent, extension_of, path_strip_prefix, strip_path_prefix};

verus! {

// ---------------------------------------------------------------------------
// Host check

/// The text of `s` before the first `c` (all of `s` when there is none).
pub open spec fn before_char(s: Seq<char>, c: char) -> Seq<char> {
    s.take(char_index(s, c))
}

/// The host name of a `Host` header value: the port is dropped, and a
/// bracketed IPv6 literal loses its brackets (`[::1]:40000` → `::1`).
pub open spec fn host_name_seq(host: Seq<char>) -> Seq<char> {
    if has_prefix(host, seq!['[']) {
        before_char(host.skip(1), ']')
    } else {
        before_char(host, ':')
    }
}

/// Extracts the host name from a `Host` header value (see `host_name_seq`).
pub fn host_name(host: &str) -> (r: String)
    ensures
        r@ == host_name_seq(host@),
{
    let h = chars_of(host);
    if h.len() > 0 && h[0] == '[' {
        assert(h@.take(1) =~= seq!['[']);
        let rest = slice(&h, 1, h.len());
        assert(rest@ =~= h@.skip(1));
        let end = index_of_char_from(&rest, ']', 0);
        assert(rest@.skip(0) =~= rest@);
        let name = slice(&rest, 0, end);
        assert(name@ =~= before_char(rest@, ']'));
        string_of(&name)
    } else {
        proof {
            if has_prefix(h@, seq!['[']) {
                assert(h@[0] == h@.take(1)[0]);
            }
        }
        let end = index_of_char_from(&h, ':', 0);
        assert(h@.skip(0) =~= h@);
        let name = slice(&h, 0, end);
        assert(name@ =~= before_char(h@, ':'));
        string_of(&name)
    }
}

/// The loopback names the dashboard answers to.
pub open spec fn is_loopback(name: Seq<char>) -> bool {
    name == "127.0.0.1"@ || name == "localhost"@ || name == "forge.localhost"@ || name == "::1"@
}

/// A request is served only when its `Host` header names a loopback host;
/// a missing header is refused.
pub fn host_allowed(host: Option<&str>) -> (r: bool)
    ensures
        r == match host {
            Some(h) => is_loopback(host_name_seq(h@)),
            None => false,
        },
{
    match host {
        Some(h) => {
            let n = chars_of(host_name(h).as_str());
            eq(&n, &lit("127.0.0.1")) || eq(&n, &lit("localhost")) || eq(&n, &lit("forge.localhost"))
                || eq(&n, &lit("::1"))
        },
        None => false,
    }
}

// ---------------------------------------------------------------------------
// Lookup

/// The artifact has the given kind and name.
pub open spec fn is_artifact(a: ArtifactView, kind: Seq<char>, name: Seq<char>) -> bool {
    a.kind@ == kind && a.name@ == name
}

/// The module may hold the artifact: no module was asked for, or it is the
/// one asked for.
pub open spec fn eligible(m: ModuleView, module: Option<Seq<char>>) -> bool {
    match module {
        Some(w) => m.name@ == w,
        None => true,
    }
}

/// The module holds an artifact of that kind and name.
pub open spec fn holds(m: ModuleView, kind: Seq<char>, name: Seq<char>) -> bool {
    exists|j: int| 0 <= j < m.artifacts@.len() && is_artifact(#[trigger] m.artifacts@[j], kind, name)
}

/// The view of an optional string slice.
pub open spec fn opt_str(o: Option<&str>) -> Option<Seq<char>> {
    match o {
        Some(s) => Some(s@),
        None => None,
    }
}

fn find_in_module(m: &ModuleView, kind: &[char], name: &[char]) -> (r: Option<usize>)
    ensures
        match r {
            Some(j) => j < m.artifacts@.len() && is_artifact(m.artifacts@[j as int], kind@, name@)
                && forall|x: int| 0 <= x < j ==> !is_artifact(#[trigger] m.artifacts@[x], kind@, name@),
            None => !holds(*m, kind@, name@),
        },
{
    let mut j: usize = 0;
    while j < m.artifacts.len()
        invariant
            j <= m.artifacts.len(),
            forall|x: int| 0 <= x < j ==> !is_artifact(#[trigger] m.artifacts@[x], kind@, name@),
        decreases m.artifacts.len() - j,
    {
        if eq(&chars_of(m.artifacts[j].kind.as_str()), kind) && eq(
            &chars_of(m.artifacts[j].name.as_str()),
            name,
        ) {
            return Some(j);
        }
        j = j + 1;
    }
    None
}

/// Finds an artifact and its module, optionally only in the named module;
/// with no module named, the first module holding it wins.
pub fn locate_artifact<'a>(
    view: &'a DashboardView,
    module: Option<&str>,
    kind: &str,
    name: &str,
) -> (r: Option<(&'a ModuleView, &'a ArtifactView)>)
    ensures
        match r {
            Some((m, a)) => exists|i: int, j: int|
                0 <= i < view.modules@.len() && 0 <= j < view.modules@[i].artifacts@.len() && *m
                    == view.modules@[i] && *a == view.modules@[i].artifacts@[j] && eligible(
                    view.modules@[i],
                    opt_str(module),
                ) && is_artifact(*a, kind@, name@) && (forall|x: int|
                    0 <= x < j ==> !is_artifact(#[trigger] view.modules@[i].artifacts@[x], kind@, name@))
                    && (forall|y: int|
                    0 <= y < i ==> !(eligible(#[trigger] view.modules@[y], opt_str(module)) && holds(
                        view.modules@[y],
                        kind@,
                        name@,
                    ))),
            None => forall|y: int|
                0 <= y < view.modules@.len() ==> !(eligible(#[trigger] view.modules@[y], opt_str(module))
                    && holds(view.modules@[y], kind@, name@)),
        },
{
    let k = chars_of(kind);
    let n = chars_of(name);
    let wanted: Option<Vec<char>> = match module {
        Some(w) => Some(chars_of(w)),
        None => None,
    };
    let mut i: usize = 0;
    while i < view.modules.len()
        invariant
            i <= view.modules.len(),
            k@ == kind@,
            n@ == name@,
            match wanted {
                Some(w) => opt_str(module) == Some(w@),
                None => opt_str(module) is None,
            },
            forall|y: int|
                0 <= y < i ==> !(eligible(#[trigger] view.modules@[y], opt_str(module)) && holds(
                    view.modules@[y],
                    kind@,
                    name@,
                )),
        decreases view.modules.len() - i,
    {
        let m = &view.modules[i];
        let ok = match &wanted {
            Some(w) => eq(&chars_of(m.name.as_str()), w),
            None => true,
        };
        if ok {
            match find_in_module(m, &k, &n) {
                Some(j) => {
                    return Some((m, &m.artifacts[j]));
                },
                None => {},
            }
        }
        i = i + 1;
    }
    None
}

/// The module source and path of the first top-level artifact with that
/// kind and name; failing that, of the first skill companion with that name.
pub open spec fn source_location(modules: Seq<ModuleView>, kind: Seq<char>, name: Seq<char>) -> Option<
    (Seq<char>, Seq<char>),
> {
    if exists|i: int| 0 <= i < modules.len() && holds(#[trigger] modules[i], kind, name) {
        let i = choose|i: int|
            0 <= i < modules.len() && holds(#[trigger] modules[i], kind, name) && forall|y: int|
                0 <= y < i ==> !holds(#[trigger] modules[y], kind, name);
        let j = choose|j: int|
            0 <= j < modules[i].artifacts@.len() && is_artifact(#[trigger] modules[i].artifacts@[j], kind, name)
                && forall|x: int| 0 <= x < j ==> !is_artifact(#[trigger] modules[i].artifacts@[x], kind, name);
        Some((modules[i].source_uri@, modules[i].artifacts@[j].relative_path@))
    } else {
        None
    }
}

/// Companion `c` of artifact `a` of module `i` exists and is named `name`.
pub open spec fn companion_at(ms: Seq<ModuleView>, name: Seq<char>, i: int, a: int, c: int) -> bool {
    &&& 0 <= i < ms.len()
    &&& 0 <= a < ms[i].artifacts@.len()
    &&& 0 <= c < ms[i].artifacts@[a].companions@.len()
    &&& ms[i].artifacts@[a].companions@[c].name@ == name
}

/// Position `(i, a, c)` comes before `(i2, a2, c2)` in module, artifact and
/// companion order.
pub open spec fn triple_before(i: int, a: int, c: int, i2: int, a2: int, c2: int) -> bool {
    i < i2 || (i == i2 && (a < a2 || (a == a2 && c < c2)))
}

/// No companion named `name` stands before position `(i, a, c)`.
pub open spec fn none_before(ms: Seq<ModuleView>, name: Seq<char>, i: int, a: int, c: int) -> bool {
    forall|i2: int, a2: int, c2: int|
        #[trigger] companion_at(ms, name, i2, a2, c2) ==> !triple_before(i2, a2, c2, i, a, c)
}

/// The module source and path of the first companion named `name`, in
/// module, artifact and companion order.
pub open spec fn companion_location(ms: Seq<ModuleView>, name: Seq<char>) -> Option<(Seq<char>, Seq<char>)> {
    if exists|i: int, a: int, c: int| #[trigger] companion_at(ms, name, i, a, c) {
        let (i, a, c) = choose|i: int, a: int, c: int|
            #[trigger] companion_at(ms, name, i, a, c) && none_before(ms, name, i, a, c);
        Some((ms[i].source_uri@, ms[i].artifacts@[a].companions@[c].relative_path@))
    } else {
        None
    }
}

/// Finds where an artifact or companion comes from: the first top-level
/// artifact of that kind and name (see `source_location`); failing that,
/// the first skill companion of that name (see `companion_location`).
pub fn find_source_location(view: &DashboardView, kind: &str, name: &str) -> (r: Option<(String, String)>)
    ensures
        source_location(view.modules@, kind@, name@) is Some ==> (r matches Some(p) && (p.0@, p.1@) == source_location(view.modules@, kind@, name@)->Some_0),
        source_location(view.modules@, kind@, name@) is None ==> match companion_location(view.modules@, name@) {
            Some(loc) => r matches Some(p) && (p.0@, p.1@) == loc,
            None => r is None,
        },
{
    let k = chars_of(kind);
    let n = chars_of(name);
    let mut i: usize = 0;
    while i < view.modules.len()
        invariant
            i <= view.modules.len(),
            k@ == kind@,
            n@ == name@,
            forall|y: int| 0 <= y < i ==> !holds(#[trigger] view.modules@[y], kind@, name@),
        decreases view.modules.len() - i,
    {
        match find_in_module(&view.modules[i], &k, &n) {
            Some(j) => {
                proof {
                    let mods = view.modules@;
                    assert(holds(mods[i as int], kind@, name@));
                    let ci = choose|ci: int|
                        0 <= ci < mods.len() && holds(#[trigger] mods[ci], kind@, name@) && forall|y: int|
                            0 <= y < ci ==> !holds(#[trigger] mods[y], kind@, name@);
                    if ci < i {
                    } else if ci > i {
                        assert(!holds(mods[i as int], kind@, name@));
                    }
                    assert(ci == i);
                    let cj = choose|cj: int|
                        0 <= cj < mods[ci].artifacts@.len() && is_artifact(#[trigger] mods[ci].artifacts@[cj], kind@, name@)
                            && forall|x: int| 0 <= x < cj ==> !is_artifact(#[trigger] mods[ci].artifacts@[x], kind@, name@);
                    if cj < j {
                    } else if cj > j {
                        assert(!is_artifact(mods[ci].artifacts@[j as int], kind@, name@));
                    }
                    assert(cj == j);
                }
                return Some((
                    view.modules[i].source_uri.clone(),
                    view.modules[i].artifacts[j].relative_path.clone(),
                ));
            },
            None => {},
        }
        i = i + 1;
    }
    assert(source_location(view.modules@, kind@, name@) is None);
    let ghost ms = view.modules@;
    let mut i: usize = 0;
    while i < view.modules.len()
        invariant
            i <= view.modules.len(),
            ms == view.modules@,
            n@ == name@,
            source_location(view.modules@, kind@, name@) is None,
            none_before(ms, name@, i as int, 0, 0),
        decreases view.modules.len() - i,
    {
        let m = &view.modules[i];
        let mut a: usize = 0;
        while a < m.artifacts.len()
            invariant
                a <= m.artifacts.len(),
                i < view.modules.len(),
                ms == view.modules@,
                *m == ms[i as int],
                n@ == name@,
                source_location(view.modules@, kind@, name@) is None,
                none_before(ms, name@, i as int, a as int, 0),
            decreases m.artifacts.len() - a,
        {
            let mut c: usize = 0;
            while c < m.artifacts[a].companions.len()
                invariant
                    c <= m.artifacts[a as int].companions.len(),
                    a < m.artifacts.len(),
                    i < view.modules.len(),
                    ms == view.modules@,
                    *m == ms[i as int],
                    n@ == name@,
                    source_location(view.modules@, kind@, name@) is None,
                    none_before(ms, name@, i as int, a as int, c as int),
                decreases m.artifacts[a as int].companions.len() - c,
            {
                if eq(&chars_of(m.artifacts[a].companions[c].name.as_str()), &n) {
                    proof {
                        assert(companion_at(ms, name@, i as int, a as int, c as int));
                        let (ci, ca, cc) = choose|ci: int, ca: int, cc: int|
                            #[trigger] companion_at(ms, name@, ci, ca, cc) && none_before(ms, name@, ci, ca, cc);
                        assert(!triple_before(ci, ca, cc, i as int, a as int, c as int));
                        assert(!triple_before(i as int, a as int, c as int, ci, ca, cc));
                        assert(ci == i && ca == a && cc == c);
                    }
                    return Some((m.source_uri.clone(), m.artifacts[a].companions[c].relative_path.clone()));
                }
                proof {
                    assert forall|i2: int, a2: int, c2: int|
                        #[trigger] companion_at(ms, name@, i2, a2, c2) implies !triple_before(
                        i2,
                        a2,
                        c2,
                        i as int,
                        a as int,
                        c + 1,
                    ) by {
                        if i2 == i && a2 == a && c2 == c {
                            assert(ms[i as int].artifacts@[a as int].companions@[c as int].name@ != name@);
                        }
                    }
                }
                c = c + 1;
            }
            proof {
                assert forall|i2: int, a2: int, c2: int|
                    #[trigger] companion_at(ms, name@, i2, a2, c2) implies !triple_before(
                    i2,
                    a2,
                    c2,
                    i as int,
                    a + 1,
                    0,
                ) by {
                    assert(!triple_before(i2, a2, c2, i as int, a as int, c as int));
                }
            }
            a = a + 1;
        }
        proof {
            assert forall|i2: int, a2: int, c2: int|
                #[trigger] companion_at(ms, name@, i2, a2, c2) implies !triple_before(i2, a2, c2, i + 1, 0, 0) by {
                assert(!triple_before(i2, a2, c2, i as int, a as int, 0));
            }
        }
        i = i + 1;
    }
    proof {
        if exists|i2: int, a2: int, c2: int| #[trigger] companion_at(ms, name@, i2, a2, c2) {
            let (i2, a2, c2) = choose|i2: int, a2: int, c2: int| #[trigger] companion_at(ms, name@, i2, a2, c2);
            assert(!triple_before(i2, a2, c2, i as int, 0, 0));
        }
    }
    None
}

// ---------------------------------------------------------------------------
// Deployment groups

/// The directory part of a deployed path (empty when it has no `/`).
pub open spec fn deployed_dir_of(path: Seq<char>) -> Seq<char> {
    match rsplit_once_seq(path, '/') {
        Some((dir, _)) => dir,
        None => Seq::empty(),
    }
}

/// The distinct deployment targets, in first-seen order.
pub open spec fn targets_in(entries: Seq<ProvenanceArtifact>) -> Seq<Seq<char>>
    decreases entries.len(),
{
    if entries.len() == 0 {
        Seq::empty()
    } else {
        let prev = targets_in(entries.drop_last());
        if prev.contains(entries.last().target@) {
            prev
        } else {
            prev.push(entries.last().target@)
        }
    }
}

/// The entries deployed to one target, in order.
pub open spec fn at_target(entries: Seq<ProvenanceArtifact>, t: Seq<char>) -> Seq<ProvenanceArtifact>
    decreases entries.len(),
{
    if entries.len() == 0 {
        Seq::empty()
    } else if entries.last().target@ == t {
        at_target(entries.drop_last(), t).push(entries.last())
    } else {
        at_target(entries.drop_last(), t)
    }
}

/// Verified entries among some.
pub open spec fn verified_count(entries: Seq<ProvenanceArtifact>) -> nat
    decreases entries.len(),
{
    if entries.len() == 0 {
        0
    } else {
        verified_count(entries.drop_last()) + if entries.last().verified {
            1nat
        } else {
            0nat
        }
    }
}

/// The harness row of a deployed entry, as plain values.
pub open spec fn harness_of(e: ProvenanceArtifact) -> (Seq<char>, Seq<char>, Seq<char>, bool) {
    (e.harness@, e.deployed_path@, deployed_dir_of(e.deployed_path@), e.verified)
}

/// The plain values of a harness row.
pub open spec fn harness_view(h: DeployHarness) -> (Seq<char>, Seq<char>, Seq<char>, bool) {
    (h.harness@, h.deployed_path@, h.deployed_dir@, h.verified)
}

/// Harness rows ordered by harness name.
pub open spec fn harness_sorted(hs: Seq<DeployHarness>) -> bool {
    forall|i: int, j: int| 0 <= i < j < hs.len() ==> !seq_lt(#[trigger] hs[j].harness@, #[trigger] hs[i].harness@)
}

/// `hs` are the harness rows of `es`, ordered by harness, rows of the same
/// harness in the order of their entries (a stable sort by harness).
pub open spec fn stable_rows(hs: Seq<DeployHarness>, es: Seq<ProvenanceArtifact>) -> bool {
    exists|q: Seq<int>|
        #![trigger stable_order(es, q)]
        {
            &&& stable_order(es, q)
            &&& hs.len() == q.len()
            &&& forall|t: int| 0 <= t < q.len() ==> harness_view(hs[t]) == harness_of(es[q[t]])
        }
}

/// A group for target `t`: its counts, and its harness rows (one per entry
/// at `t`) ordered by harness, equal harnesses in the entries' order.
pub open spec fn group_matches(g: DeployGroup, entries: Seq<ProvenanceArtifact>, t: Seq<char>) -> bool {
    &&& g.target@ == t
    &&& g.total == at_target(entries, t).len()
    &&& g.verified == verified_count(at_target(entries, t))
    &&& harness_sorted(g.harnesses@)
    &&& stable_rows(g.harnesses@, at_target(entries, t))
    &&& g.harnesses@.map_values(|h: DeployHarness| harness_view(h)).to_multiset()
        == at_target(entries, t).map_values(|e: ProvenanceArtifact| harness_of(e)).to_multiset()
}

/// The views of a list of entry references.
pub open spec fn entry_refs(v: Seq<&ProvenanceArtifact>) -> Seq<ProvenanceArtifact> {
    v.map_values(|e: &ProvenanceArtifact| *e)
}

fn insert_harness(
    hs: &mut Vec<DeployHarness>,
    h: DeployHarness,
    Ghost(es): Ghost<Seq<ProvenanceArtifact>>,
    Ghost(q): Ghost<Seq<int>>,
) -> (p: usize)
    requires
        harness_sorted(old(hs)@),
        es.len() >= 1,
        orders_prefix(es, q, es.len() - 1),
        old(hs)@.len() == q.len(),
        forall|t: int| 0 <= t < q.len() ==> harness_view(#[trigger] old(hs)@[t]) == harness_of(es[q[t]]),
        harness_view(h) == harness_of(es[es.len() - 1]),
    ensures
        p <= old(hs)@.len(),
        final(hs)@ == old(hs)@.insert(p as int, h),
        orders_prefix(es, q.insert(p as int, es.len() - 1), es.len() as int),
        harness_sorted(final(hs)@),
        final(hs)@.map_values(|x: DeployHarness| harness_view(x)).to_multiset() == old(hs)@.map_values(
            |x: DeployHarness| harness_view(x),
        ).to_multiset().insert(harness_view(h)),
{
    let mut p: usize = 0;
    let mut stop = false;
    while p < hs.len() && !stop
        invariant
            p <= hs.len(),
            hs@ == old(hs)@,
            forall|x: int| 0 <= x < p ==> !seq_lt(h.harness@, #[trigger] hs@[x].harness@),
            stop ==> p < hs.len() && seq_lt(h.harness@, hs@[p as int].harness@),
        decreases hs.len() - p, (if stop { 0int } else { 1int }),
    {
        if chars_lt(&chars_of(h.harness.as_str()), &chars_of(hs[p].harness.as_str())) {
            stop = true;
        } else {
            p = p + 1;
        }
    }
    proof {
        let i = es.len() - 1;
        assert forall|a: int| 0 <= a < p implies !seq_lt(es[i].name_of(), #[trigger] es[q[a]].name_of()) by {
            assert(harness_view(hs@[a]) == harness_of(es[q[a]]));
            assert(!seq_lt(h.harness@, hs@[a].harness@));
        }
        if p < q.len() {
            assert(harness_view(hs@[p as int]) == harness_of(es[q[p as int]]));
        }
        lemma_insert_in_order(es, q, i, p as int);
    }
    let ghost before = hs@;
    let ghost hv = harness_view(h);
    hs.insert(p, h);
    proof {
        assert(hs@ == before.insert(p as int, h));
        assert forall|x: int, y: int| 0 <= x < y < hs@.len() implies !seq_lt(
            #[trigger] hs@[y].harness@,
            #[trigger] hs@[x].harness@,
        ) by {
            if y < p {
                assert(hs@[x] == before[x] && hs@[y] == before[y]);
            } else if y == p {
                assert(hs@[x] == before[x]);
            } else if x == p {
                assert(hs@[y] == before[y - 1]);
                if seq_lt(before[y - 1].harness@, h.harness@) {
                    assert(seq_lt(h.harness@, before[p as int].harness@));
                    lemma_lt_transitive(before[y - 1].harness@, h.harness@, before[p as int].harness@);
                    if y - 1 == p {
                        lemma_lt_irreflexive(before[p as int].harness@);
                    }
                }
            } else if x < p {
                assert(hs@[x] == before[x] && hs@[y] == before[y - 1]);
            } else {
                assert(hs@[x] == before[x - 1] && hs@[y] == before[y - 1]);
            }
        }
        let bv = before.map_values(|x: DeployHarness| harness_view(x));
        assert(hs@.map_values(|x: DeployHarness| harness_view(x)) =~= bv.insert(p as int, hv));
        vstd::seq_lib::to_multiset_insert(bv, p as int, hv);
    }
    p
}

fn target_index(groups: &Vec<DeployGroup>, t: &[char]) -> (r: Option<usize>)
    ensures
        match r {
            Some(k) => k < groups@.len() && groups@[k as int].target@ == t@,
            None => forall|k: int| 0 <= k < groups@.len() ==> (#[trigger] groups@[k]).target@ != t@,
        },
{
    let mut k: usize = 0;
    while k < groups.len()
        invariant
            k <= groups.len(),
            forall|x: int| 0 <= x < k ==> (#[trigger] groups@[x]).target@ != t@,
        decreases groups.len() - k,
    {
        if eq(&chars_of(groups[k].target.as_str()), t) {
            return Some(k);
        }
        k = k + 1;
    }
    None
}

/// Groups deployment records by target location, in the order targets are
/// first seen; each group counts its records and verified records and lists
/// one harness row per record, ordered by harness, records of the same
/// harness in their order.
pub fn group_deployments(entries: &[&ProvenanceArtifact]) -> (r: Vec<DeployGroup>)
    ensures
        r@.len() == targets_in(entry_refs(entries@)).len(),
        forall|k: int|
            0 <= k < r@.len() ==> group_matches(
                #[trigger] r@[k],
                entry_refs(entries@),
                targets_in(entry_refs(entries@))[k],
            ),
{
    broadcast use vstd::seq_lib::to_multiset_build;
    let ghost es = entry_refs(entries@);
    let mut groups: Vec<DeployGroup> = Vec::new();
    let mut i: usize = 0;
    while i < entries.len()
        invariant
            i <= entries.len(),
            es == entry_refs(entries@),
            groups@.len() == targets_in(es.take(i as int)).len(),
            forall|k: int|
                0 <= k < groups@.len() ==> group_matches(
                    #[trigger] groups@[k],
                    es.take(i as int),
                    targets_in(es.take(i as int))[k],
                ),
            forall|k: int|
                0 <= k < groups@.len() ==> (#[trigger] groups@[k]).total <= i,
            forall|k: int|
                0 <= k < groups@.len() ==> (#[trigger] groups@[k]).verified <= groups@[k].total,
        decreases entries.len() - i,
    {
        let e = entries[i];
        let ghost pre = es.take(i as int);
        let ghost post = es.take(i + 1);
        proof {
            assert(post.drop_last() =~= pre);
            assert(post.last() == *e);
            lemma_targets_distinct(pre);
        }
        let t = chars_of(e.target.as_str());
        let dir = match rsplit_once(&chars_of(e.deployed_path.as_str()), '/') {
            Some((d, _)) => string_of(&d),
            None => String::new(),
        };
        let h = DeployHarness {
            harness: e.harness.clone(),
            deployed_path: e.deployed_path.clone(),
            deployed_dir: dir,
            verified: e.verified,
        };
        assert(harness_view(h) == harness_of(*e));
        let k = match target_index(&groups, &t) {
            Some(k) => k,
            None => {
                proof {
                    assert(!targets_in(pre).contains(e.target@)) by {
                        if targets_in(pre).contains(e.target@) {
                            let x = choose|x: int| 0 <= x < targets_in(pre).len() && targets_in(pre)[x] == e.target@;
                            assert(groups@[x].target@ == e.target@);
                        }
                    }
                    lemma_at_target_absent(pre, e.target@);
                }
                groups.push(DeployGroup { target: e.target.clone(), verified: 0, total: 0, harnesses: Vec::new() });
                proof {
                    assert(at_target(pre, e.target@).len() == 0);
                    assert(at_target(pre, e.target@).map_values(|x: ProvenanceArtifact| harness_of(x)) =~= Seq::empty());
                    assert(groups@[groups@.len() - 1].harnesses@.map_values(|x: DeployHarness| harness_view(x)) =~= Seq::empty());
                    assert(stable_order(at_target(pre, e.target@), Seq::<int>::empty()));
                    assert(stable_rows(groups@[groups@.len() - 1].harnesses@, at_target(pre, e.target@)));
                }
                groups.len() - 1
            },
        };
        proof {
            let tk = e.target@;
            assert(targets_in(post) =~= if targets_in(pre).contains(tk) { targets_in(pre) } else { targets_in(pre).push(tk) });
            if !targets_in(pre).contains(tk) {
                assert(targets_in(post)[k as int] == tk);
                assert(groups@[k as int].harnesses@.map_values(|x: DeployHarness| harness_view(x)) =~= Seq::empty());
                assert(at_target(pre, tk).map_values(|x: ProvenanceArtifact| harness_of(x)) =~= Seq::empty());
                assert(group_matches(groups@[k as int], pre, tk));
            } else {
                assert(group_matches(groups@[k as int], pre, targets_in(pre)[k as int]));
                assert(targets_in(pre)[k as int] == tk);
            }
            assert forall|x: int| 0 <= x < groups@.len() && x != k implies group_matches(
                #[trigger] groups@[x],
                pre,
                targets_in(post)[x],
            ) by {
                assert(targets_in(post)[x] == targets_in(pre)[x]);
            }
        }
        let ghost old_groups = groups@;
        let mut g = groups.remove(k);
        let ghost g0 = g;
        assert(g0 == old_groups[k as int]);
        g.total = g.total + 1;
        if e.verified {
            g.verified = g.verified + 1;
        }
        let ghost es_old = at_target(pre, e.target@);
        let ghost es_new = es_old.push(*e);
        let ghost q = choose|q: Seq<int>|
            #![trigger stable_order(es_old, q)]
            {
                &&& stable_order(es_old, q)
                &&& g0.harnesses@.len() == q.len()
                &&& forall|t: int| 0 <= t < q.len() ==> harness_view(g0.harnesses@[t]) == harness_of(es_old[q[t]])
            };
        proof {
            assert(group_matches(g0, pre, e.target@));
            lemma_orders_prefix_push(es_old, *e, q, es_old.len() as int);
            assert forall|t: int| 0 <= t < q.len() implies harness_view(#[trigger] g.harnesses@[t]) == harness_of(
                es_new[q[t]],
            ) by {
                assert(harness_view(g0.harnesses@[t]) == harness_of(es_old[q[t]]));
                assert(es_new[q[t]] == es_old[q[t]]);
            }
        }
        let p = insert_harness(&mut g.harnesses, h, Ghost(es_new), Ghost(q));
        proof {
            let q2 = q.insert(p as int, es_old.len() as int);
            assert forall|t: int| 0 <= t < q2.len() implies harness_view(g.harnesses@[t]) == harness_of(
                es_new[q2[t]],
            ) by {
                if t < p {
                    assert(g.harnesses@[t] == g0.harnesses@[t]);
                    assert(harness_view(g0.harnesses@[t]) == harness_of(es_old[q[t]]));
                } else if t > p {
                    assert(g.harnesses@[t] == g0.harnesses@[t - 1]);
                    assert(harness_view(g0.harnesses@[t - 1]) == harness_of(es_old[q[t - 1]]));
                }
            }
            assert(stable_order(es_new, q2));
            assert(stable_rows(g.harnesses@, es_new));
        }
        groups.insert(k, g);
        proof {
            assert(groups@ =~= old_groups.update(k as int, g));
            let tk = e.target@;
            assert(targets_in(post)[k as int] == tk);
            assert(at_target(post, tk) =~= at_target(pre, tk).push(*e));
            let hv_pre = at_target(pre, tk).map_values(|x: ProvenanceArtifact| harness_of(x));
            assert(at_target(post, tk).map_values(|x: ProvenanceArtifact| harness_of(x)) =~= hv_pre.push(harness_of(*e)));
            vstd::seq_lib::to_multiset_build(hv_pre, harness_of(*e));
            assert(at_target(post, tk).drop_last() =~= at_target(pre, tk));
            assert(verified_count(at_target(post, tk)) == verified_count(at_target(pre, tk)) + if e.verified { 1nat } else { 0nat });
            assert(group_matches(groups@[k as int], post, tk));
            lemma_targets_distinct(post);
            assert forall|x: int| 0 <= x < groups@.len() implies group_matches(
                #[trigger] groups@[x],
                post,
                targets_in(post)[x],
            ) by {
                if x != k {
                    let tx = targets_in(post)[x];
                    assert(tx != tk);
                    assert(at_target(post, tx) =~= at_target(pre, tx));
                    assert(groups@[x] == old_groups[x]);
                    assert(group_matches(old_groups[x], pre, tx));
                }
            }
        }
        i = i + 1;
    }
    assert(es.take(entries.len() as int) =~= es);
    groups
}

proof fn lemma_targets_distinct(entries: Seq<ProvenanceArtifact>)
    ensures
        forall|a: int, b: int|
            0 <= a < b < targets_in(entries).len() ==> #[trigger] targets_in(entries)[a] != #[trigger] targets_in(entries)[b],
        forall|k: int| 0 <= k < targets_in(entries).len() ==> exists|x: int| 0 <= x < entries.len() && entries[x].target@ == #[trigger] targets_in(entries)[k],
    decreases entries.len(),
{
    if entries.len() > 0 {
        lemma_targets_distinct(entries.drop_last());
        let prev = targets_in(entries.drop_last());
        assert forall|k: int| 0 <= k < targets_in(entries).len() implies exists|x: int| 0 <= x < entries.len() && entries[x].target@ == #[trigger] targets_in(entries)[k] by {
            if k < prev.len() {
                let x = choose|x: int| 0 <= x < entries.drop_last().len() && entries.drop_last()[x].target@ == prev[k];
                assert(entries[x] == entries.drop_last()[x]);
            } else {
                assert(entries[entries.len() - 1].target@ == targets_in(entries)[k]);
            }
        }
    }
}

proof fn lemma_at_target_absent(entries: Seq<ProvenanceArtifact>, t: Seq<char>)
    requires
        !targets_in(entries).contains(t),
    ensures
        at_target(entries, t).len() == 0,
    decreases entries.len(),
{
    if entries.len() > 0 {
        let prev = targets_in(entries.drop_last());
        if prev.contains(t) {
            let x = choose|x: int| 0 <= x < prev.len() && prev[x] == t;
            assert(targets_in(entries).contains(t)) by {
                if prev.contains(entries.last().target@) {
                    assert(targets_in(entries)[x] == t);
                } else {
                    assert(targets_in(entries)[x] == t);
                }
            }
        }
        assert(entries.last().target@ != t) by {
            if entries.last().target@ == t {
                if prev.contains(t) {
                } else {
                    assert(targets_in(entries)[prev.len() as int] == t);
                }
            }
        }
        lemma_at_target_absent(entries.drop_last(), t);
    }
}

// ---------------------------------------------------------------------------
// Small page helpers

/// A path with a `.md` or `.toml` extension removed, so the same artifact
/// deployed as `SKILL.md` and `SKILL.toml` compares equal.
pub open spec fn strip_extension_seq(path: Seq<char>) -> Seq<char> {
    match strip_suffix_seq(path, ".md"@) {
        Some(p) => p,
        None => match strip_suffix_seq(path, ".toml"@) {
            Some(p) => p,
            None => path,
        },
    }
}

/// Removes a `.md` or `.toml` extension (see `strip_extension_seq`).
pub fn strip_extension(path: &str) -> (r: String)
    ensures
        r@ == strip_extension_seq(path@),
{
    let p = chars_of(path);
    match strip_suffix(&p, &lit(".md")) {
        Some(s) => string_of(&s),
        None => match strip_suffix(&p, &lit(".toml")) {
            Some(s) => string_of(&s),
            None => string_of(&p),
        },
    }
}

/// The directory holding a kind's `.mdschema`: ADRs live under
/// `docs/decisions`, every other kind under its own directory.
pub fn schema_dir(kind: &str) -> (r: String)
    ensures
        r@ == if kind@ == "adr"@ {
            "docs/decisions"@
        } else {
            kind@
        },
{
    if eq(&chars_of(kind), &lit("adr")) {
        String::from_str("docs/decisions")
    } else {
        String::from_str(kind)
    }
}

/// The highlight language of a config file, from its (case-insensitive)
/// extension: `json`, `toml`, or `yaml` for `yaml`/`yml`.
pub open spec fn language_of(name: Seq<char>) -> Option<Seq<char>> {
    match file_name(name) {
        Some(f) => match name_extension(f) {
            Some(e) => {
                let x = ascii_lowercase(e);
                if x == "json"@ {
                    Some("json"@)
                } else if x == "toml"@ {
                    Some("toml"@)
                } else if x == "yaml"@ || x == "yml"@ {
                    Some("yaml"@)
                } else {
                    None
                }
            },
            None => None,
        },
        None => None,
    }
}

/// Maps a file name's extension to a highlight language (see
/// `language_of`).
pub fn extension_language(name: &str) -> (r: Option<String>)
    ensures
        match r {
            Some(l) => language_of(name@) == Some(l@),
            None => language_of(name@) is None,
        },
{
    let f = match path_file_name(&chars_of(name)) {
        Some(f) => f,
        None => {
            return None;
        },
    };
    let e = match extension_of(&f) {
        Some(e) => e,
        None => {
            return None;
        },
    };
    let x = to_ascii_lowercase(&e);
    if eq(&x, &lit("json")) {
        Some(String::from_str("json"))
    } else if eq(&x, &lit("toml")) {
        Some(String::from_str("toml"))
    } else if eq(&x, &lit("yaml")) || eq(&x, &lit("yml")) {
        Some(String::from_str("yaml"))
    } else {
        None
    }
}

/// A command wrapped as `sh -c '…'`, `bash -c "…"` or the like, split into
/// the wrapper (`sh -c`) and the inner script; other commands are returned
/// whole with an empty wrapper.
pub open spec fn unwrap_shell_seq(command: Seq<char>) -> (Seq<char>, Seq<char>) {
    let t = trim(command);
    let programs = shell_programs();
    let quotes = shell_quotes();
    match first_wrapper(t) {
        Some((p, q)) => (programs[p] + " -c"@, inner_of(t, programs[p], quotes[q])),
        None => (Seq::empty(), command),
    }
}

/// The first wrapper (program, then quote, in the listed order) that fits
/// `t`, as indices into the program and quote lists.
pub open spec fn first_wrapper(t: Seq<char>) -> Option<(int, int)> {
    let programs = shell_programs();
    let quotes = shell_quotes();
    if exists|p: int, q: int| 0 <= p < 3 && 0 <= q < 2 && wrapped_by(t, programs[p], quotes[q]) {
        Some(choose|p: int, q: int|
            0 <= p < 3 && 0 <= q < 2 && wrapped_by(t, programs[p], quotes[q]) && forall|p2: int, q2: int|
                0 <= p2 < 3 && 0 <= q2 < 2 && (p2 < p || (p2 == p && q2 < q)) ==> !wrapped_by(
                    t,
                    programs[p2],
                    quotes[q2],
                ))
    } else {
        None
    }
}

/// The shells whose `-c` wrapper is recognised, in the order tried.
pub open spec fn shell_programs() -> Seq<Seq<char>> {
    seq!["sh"@, "bash"@, "zsh"@]
}

/// The quotes a wrapped script may use, in the order tried.
pub open spec fn shell_quotes() -> Seq<char> {
    seq!['\'', '"']
}

/// The prefix `<program> -c <quote>`.
pub open spec fn shell_prefix(program: Seq<char>, quote: char) -> Seq<char> {
    program + " -c "@ + seq![quote]
}

/// `t` is `<program> -c <quote>…<quote>`.
pub open spec fn wrapped_by(t: Seq<char>, program: Seq<char>, quote: char) -> bool {
    match strip_prefix_seq(t, shell_prefix(program, quote)) {
        Some(rest) => strip_suffix_seq(rest, seq![quote]) is Some,
        None => false,
    }
}

/// The script inside a wrapper.
pub open spec fn inner_of(t: Seq<char>, program: Seq<char>, quote: char) -> Seq<char> {
    strip_suffix_seq(strip_prefix_seq(t, shell_prefix(program, quote))->Some_0, seq![quote])->Some_0
}

/// Splits a shell wrapper off a hook command (see `unwrap_shell_seq`).
pub fn unwrap_shell(command: &str) -> (r: (String, String))
    ensures
        (r.0@, r.1@) == unwrap_shell_seq(command@),
{
    let t = trim_chars(&chars_of(command));
    let programs = vec![lit("sh"), lit("bash"), lit("zsh")];
    let quotes = vec!['\'', '"'];
    assert(programs@[0]@ == shell_programs()[0] && programs@[1]@ == shell_programs()[1] && programs@[2]@ == shell_programs()[2]);
    assert(quotes@ =~= shell_quotes());
    let mut p: usize = 0;
    while p < 3
        invariant
            p <= 3,
            programs@.len() == 3,
            quotes@ == shell_quotes(),
            quotes@.len() == 2,
            forall|x: int| 0 <= x < 3 ==> (#[trigger] programs@[x])@ == shell_programs()[x],
            t@ == trim(command@),
            forall|p2: int, q2: int| 0 <= p2 < p && 0 <= q2 < 2 ==> !wrapped_by(t@, shell_programs()[p2], shell_quotes()[q2]),
        decreases 3 - p,
    {
        let mut q: usize = 0;
        while q < 2
            invariant
                q <= 2,
                p < 3,
                programs@.len() == 3,
                quotes@ == shell_quotes(),
                quotes@.len() == 2,
                forall|x: int| 0 <= x < 3 ==> (#[trigger] programs@[x])@ == shell_programs()[x],
                t@ == trim(command@),
                forall|p2: int, q2: int|
                    (0 <= p2 < p && 0 <= q2 < 2) || (p2 == p && 0 <= q2 < q) ==> !wrapped_by(t@, shell_programs()[p2], shell_quotes()[q2]),
            decreases 2 - q,
        {
            let mut prefix = programs[p].clone();
            extend(&mut prefix, &lit(" -c "));
            prefix.push(quotes[q]);
            assert(prefix@ =~= shell_prefix(shell_programs()[p as int], shell_quotes()[q as int]));
            match strip_prefix(&t, &prefix) {
                Some(rest) => {
                    let closing = vec![quotes[q]];
                    assert(closing@ =~= seq![shell_quotes()[q as int]]);
                    match strip_suffix(&rest, &closing) {
                        Some(inner) => {
                            let mut label = programs[p].clone();
                            extend(&mut label, &lit(" -c"));
                            proof {
                                assert(wrapped_by(t@, shell_programs()[p as int], shell_quotes()[q as int]));
                                assert(first_wrapper(t@) is Some);
                                let (cp, cq) = first_wrapper(t@)->Some_0;
                                assert(cp == p && cq == q) by {
                                    if cp < p || (cp == p && cq < q) {
                                    } else if cp > p || (cp == p && cq > q) {
                                        assert(!wrapped_by(t@, shell_programs()[p as int], shell_quotes()[q as int]));
                                    }
                                }
                                assert(label@ =~= shell_programs()[p as int] + " -c"@);
                            }
                            return (string_of(&label), string_of(&inner));
                        },
                        None => {},
                    }
                },
                None => {},
            }
            q = q + 1;
        }
        p = p + 1;
    }
    (String::new(), String::from_str(command))
}

// ---------------------------------------------------------------------------
// Status filter

/// An artifact matches a status filter: `attention` matches anything
/// needing review (broken references, modified or stale); any other value
/// must equal the overall status label.
pub open spec fn matches_status_seq(a: ArtifactView, status: Seq<char>) -> bool {
    if status == "attention"@ {
        a.broken_refs@.len() > 0 || overall_of(a.providers@) == OverallStatus::Modified || overall_of(
            a.providers@,
        ) == OverallStatus::Stale
    } else {
        status_label(overall_of(a.providers@)) == status
    }
}

/// Whether an artifact matches a status filter (see `matches_status_seq`).
pub fn matches_status(artifact: &ArtifactView, status: &str) -> (r: bool)
    ensures
        r == matches_status_seq(*artifact, status@),
{
    let s = chars_of(status);
    if eq(&s, &lit("attention")) {
        let o = artifact.overall();
        return artifact.has_broken_refs() || o == OverallStatus::Modified || o == OverallStatus::Stale;
    }
    eq(&chars_of(artifact.overall_status()), &s)
}

// ---------------------------------------------------------------------------
// Ordering search results

/// How search results are ordered.
#[derive(Debug, Clone, Copy, PartialEq, Eq, Structural)]
pub enum SortMode {
    /// Latest commit first; artifacts without history last.
    Recent,
    Name,
    /// By module, then name.
    Module,
    /// Most lines first.
    Size,
    /// Oldest first; artifacts without history last.
    Age,
    /// Worst signal first: broken references, then modified, then stale.
    Staleness,
}

/// The order a `sort` parameter asks for; unknown values mean `Recent`.
pub open spec fn sort_mode_of(sort: Seq<char>) -> SortMode {
    if sort == "name"@ {
        SortMode::Name
    } else if sort == "module"@ {
        SortMode::Module
    } else if sort == "size"@ {
        SortMode::Size
    } else if sort == "age"@ {
        SortMode::Age
    } else if sort == "staleness"@ {
        SortMode::Staleness
    } else {
        SortMode::Recent
    }
}

/// Parses a `sort` parameter (see `sort_mode_of`).
pub fn parse_sort(sort: &str) -> (r: SortMode)
    ensures
        r == sort_mode_of(sort@),
{
    let s = chars_of(sort);
    if eq(&s, &lit("name")) {
        SortMode::Name
    } else if eq(&s, &lit("module")) {
        SortMode::Module
    } else if eq(&s, &lit("size")) {
        SortMode::Size
    } else if eq(&s, &lit("age")) {
        SortMode::Age
    } else if eq(&s, &lit("staleness")) {
        SortMode::Staleness
    } else {
        SortMode::Recent
    }
}

/// A sort key: compared field by field, the fourth text descending and the
/// other fields ascending.
pub type SortKey = (int, int, Seq<char>, Seq<char>, Seq<char>);

/// The date of an artifact's newest commit, or empty.
pub open spec fn newest_date(a: ArtifactView) -> Seq<char> {
    if a.git_log@.len() > 0 {
        a.git_log@[0].date@
    } else {
        Seq::empty()
    }
}

/// The key a mode orders a result by; the name breaks every tie.
pub open spec fn sort_key(mode: SortMode, a: ArtifactView, module: Seq<char>) -> SortKey {
    let e = Seq::<char>::empty();
    match mode {
        SortMode::Name => (0, 0, e, e, a.name@),
        SortMode::Module => (0, 0, module, e, a.name@),
        SortMode::Size => (0, -saturated_total(a), e, e, a.name@),
        SortMode::Age => match a.age_days {
            Some(d) => (0, -(d as int), e, e, a.name@),
            None => (1, 0, e, e, a.name@),
        },
        SortMode::Staleness => (0, -staleness_rank_of(a), e, e, a.name@),
        SortMode::Recent => if newest_date(a).len() == 0 {
            (1, 0, e, e, a.name@)
        } else {
            (0, 0, e, newest_date(a), a.name@)
        },
    }
}

/// `a` orders strictly before `b`.
pub open spec fn key_lt(a: SortKey, b: SortKey) -> bool {
    a.0 < b.0 || (a.0 == b.0 && (a.1 < b.1 || (a.1 == b.1 && (seq_lt(a.2, b.2) || (a.2 == b.2 && (
    seq_lt(b.3, a.3) || (a.3 == b.3 && seq_lt(a.4, b.4))))))))
}

proof fn lemma_key_lt_transitive(a: SortKey, b: SortKey, c: SortKey)
    requires
        key_lt(a, b),
        key_lt(b, c),
    ensures
        key_lt(a, c),
{
    if seq_lt(a.2, b.2) && seq_lt(b.2, c.2) {
        lemma_lt_transitive(a.2, b.2, c.2);
    }
    if seq_lt(c.3, b.3) && seq_lt(b.3, a.3) {
        lemma_lt_transitive(c.3, b.3, a.3);
    }
    if seq_lt(a.4, b.4) && seq_lt(b.4, c.4) {
        lemma_lt_transitive(a.4, b.4, c.4);
    }
}

proof fn lemma_key_lt_irreflexive(a: SortKey)
    ensures
        !key_lt(a, a),
{
    lemma_lt_irreflexive(a.2);
    lemma_lt_irreflexive(a.3);
    lemma_lt_irreflexive(a.4);
}

/// A search result: the artifact and its module's name.
pub open spec fn result_view(r: (&ArtifactView, &String)) -> (ArtifactView, Seq<char>) {
    (*r.0, r.1@)
}

/// No result orders strictly before an earlier one.
pub open spec fn sorted_for(mode: SortMode, v: Seq<(&ArtifactView, &String)>) -> bool {
    forall|i: int, j: int|
        0 <= i < j < v.len() ==> !key_lt(
            sort_key(mode, *(#[trigger] v[j]).0, v[j].1@),
            sort_key(mode, *(#[trigger] v[i]).0, v[i].1@),
        )
}

/// The sort key of result `x` of `s`.
pub open spec fn key_at(mode: SortMode, s: Seq<(&ArtifactView, &String)>, x: int) -> SortKey {
    sort_key(mode, *s[x].0, s[x].1@)
}

/// Result `x` of `s` goes before result `y`: its key orders first, or the
/// keys are equal and it came first.
pub open spec fn placed_before(mode: SortMode, s: Seq<(&ArtifactView, &String)>, x: int, y: int) -> bool {
    ||| key_lt(key_at(mode, s, x), key_at(mode, s, y))
    ||| (key_at(mode, s, x) == key_at(mode, s, y) && x < y)
}

/// `q` lists the positions of `s` below `n`, each once, each going before
/// the later ones.
pub open spec fn result_order(mode: SortMode, s: Seq<(&ArtifactView, &String)>, q: Seq<int>, n: int) -> bool {
    &&& q.len() == n
    &&& forall|a: int| 0 <= a < q.len() ==> 0 <= #[trigger] q[a] < n
    &&& forall|k: int| 0 <= k < n ==> #[trigger] lists(q, k)
    &&& forall|a: int, b: int| #![trigger q[a], q[b]] 0 <= a < b < q.len() ==> placed_before(mode, s, q[a], q[b])
}

/// `r` is `s` sorted by key, results with equal keys in their order.
pub open spec fn stably_sorted_results(mode: SortMode, s: Seq<(&ArtifactView, &String)>, r: Seq<(&ArtifactView, &String)>) -> bool {
    exists|q: Seq<int>|
        #![trigger result_order(mode, s, q, s.len() as int)]
        {
            &&& result_order(mode, s, q, s.len() as int)
            &&& r.len() == s.len()
            &&& forall|t: int| 0 <= t < r.len() ==> r[t] == s[q[t]]
        }
}

proof fn lemma_key_total(a: SortKey, b: SortKey)
    ensures
        !key_lt(a, b) && !key_lt(b, a) ==> a == b,
{
    lemma_lt_total(a.2, b.2);
    lemma_lt_total(a.3, b.3);
    lemma_lt_total(a.4, b.4);
}

proof fn lemma_result_insert(mode: SortMode, s: Seq<(&ArtifactView, &String)>, q: Seq<int>, i: int, p: int)
    requires
        0 <= i < s.len(),
        result_order(mode, s, q, i),
        0 <= p <= q.len(),
        forall|a: int| 0 <= a < p ==> !key_lt(key_at(mode, s, i), #[trigger] key_at(mode, s, q[a])),
        p < q.len() ==> key_lt(key_at(mode, s, i), key_at(mode, s, q[p])),
    ensures
        result_order(mode, s, q.insert(p, i), i + 1),
{
    let q2 = q.insert(p, i);
    assert forall|a: int| 0 <= a < q2.len() implies 0 <= #[trigger] q2[a] < i + 1 by {
        if a < p {
            assert(q2[a] == q[a]);
        } else if a > p {
            assert(q2[a] == q[a - 1]);
        }
    }
    assert forall|k: int| 0 <= k < i + 1 implies #[trigger] lists(q2, k) by {
        if k == i {
            assert(q2[p] == i);
        } else {
            assert(lists(q, k));
            let a = choose|a: int| 0 <= a < q.len() && #[trigger] q[a] == k;
            if a < p {
                assert(q2[a] == k);
            } else {
                assert(q2[a + 1] == k);
            }
        }
    }
    assert forall|a: int, b: int| #![trigger q2[a], q2[b]] 0 <= a < b < q2.len() implies placed_before(
        mode,
        s,
        q2[a],
        q2[b],
    ) by {
        if a < p && b < p {
            assert(q2[a] == q[a] && q2[b] == q[b]);
        } else if a > p && b > p {
            assert(q2[a] == q[a - 1] && q2[b] == q[b - 1]);
        } else if a < p && b > p {
            assert(q2[a] == q[a] && q2[b] == q[b - 1]);
        } else if a < p && b == p {
            assert(q2[a] == q[a] && q2[b] == i);
            assert(!key_lt(key_at(mode, s, i), key_at(mode, s, q[a])));
            lemma_key_total(key_at(mode, s, i), key_at(mode, s, q[a]));
        } else {
            assert(q2[a] == i && q2[b] == q[b - 1]);
            let c = b - 1;
            if c > p {
                assert(placed_before(mode, s, q[p], q[c]));
                if key_lt(key_at(mode, s, q[p]), key_at(mode, s, q[c])) {
                    lemma_key_lt_transitive(key_at(mode, s, i), key_at(mode, s, q[p]), key_at(mode, s, q[c]));
                }
            }
        }
    }
}

fn goes_before(mode: SortMode, a: &ArtifactView, am: &String, b: &ArtifactView, bm: &String) -> (r: bool)
    ensures
        r == key_lt(sort_key(mode, *a, am@), sort_key(mode, *b, bm@)),
{
    let an = chars_of(a.name.as_str());
    let bn = chars_of(b.name.as_str());
    proof {
        lemma_lt_irreflexive(Seq::<char>::empty());
    }
    match mode {
        SortMode::Name => chars_lt(&an, &bn),
        SortMode::Module => {
            let x = chars_of(am.as_str());
            let y = chars_of(bm.as_str());
            chars_lt(&x, &y) || (eq(&x, &y) && chars_lt(&an, &bn))
        },
        SortMode::Size => {
            let ta = a.total_lines();
            let tb = b.total_lines();
            ta > tb || (ta == tb && chars_lt(&an, &bn))
        },
        SortMode::Age => match (a.age_days, b.age_days) {
            (Some(l), Some(r)) => l > r || (l == r && chars_lt(&an, &bn)),
            (Some(_), None) => true,
            (None, Some(_)) => false,
            (None, None) => chars_lt(&an, &bn),
        },
        SortMode::Staleness => {
            let ra = a.staleness_rank();
            let rb = b.staleness_rank();
            ra > rb || (ra == rb && chars_lt(&an, &bn))
        },
        SortMode::Recent => {
            let da = chars_of(a.latest_commit_date());
            let db = chars_of(b.latest_commit_date());
            if da.len() == 0 && db.len() == 0 {
                chars_lt(&an, &bn)
            } else if da.len() == 0 {
                false
            } else if db.len() == 0 {
                true
            } else {
                chars_lt(&db, &da) || (eq(&da, &db) && chars_lt(&an, &bn))
            }
        },
    }
}

/// Orders search results in place for a `sort` parameter: the order is a
/// rearrangement of the results in which none sorts strictly before an
/// earlier one (see `sort_key`); equal keys keep their relative order.
pub fn sort_results(matched: &mut Vec<(&ArtifactView, &String)>, sort: &str)
    ensures
        sorted_for(sort_mode_of(sort@), final(matched)@),
        stably_sorted_results(sort_mode_of(sort@), old(matched)@, final(matched)@),
        final(matched)@.map_values(|r: (&ArtifactView, &String)| result_view(r)).to_multiset()
            == old(matched)@.map_values(|r: (&ArtifactView, &String)| result_view(r)).to_multiset(),
{
    let mode = parse_sort(sort);
    let ghost src = matched@.map_values(|r: (&ArtifactView, &String)| result_view(r));
    let mut out: Vec<(&ArtifactView, &String)> = Vec::new();
    let mut i: usize = 0;
    let ghost mut q: Seq<int> = Seq::empty();
    assert(out@.map_values(|r: (&ArtifactView, &String)| result_view(r)) =~= src.take(0));
    while i < matched.len()
        invariant
            i <= matched.len(),
            mode == sort_mode_of(sort@),
            result_order(mode, matched@, q, i as int),
            out@.len() == i,
            forall|t: int| 0 <= t < i ==> out@[t] == matched@[q[t]],
            src == matched@.map_values(|r: (&ArtifactView, &String)| result_view(r)),
            sorted_for(mode, out@),
            out@.map_values(|r: (&ArtifactView, &String)| result_view(r)).to_multiset() == src.take(
                i as int,
            ).to_multiset(),
        decreases matched.len() - i,
    {
        let x = matched[i];
        let mut p: usize = 0;
        while p < out.len() && !goes_before(mode, x.0, x.1, out[p].0, out[p].1)
            invariant
                p <= out.len(),
                forall|q: int|
                    0 <= q < p ==> !key_lt(
                        sort_key(mode, *x.0, x.1@),
                        sort_key(mode, *(#[trigger] out@[q]).0, out@[q].1@),
                    ),
            decreases out.len() - p,
        {
            p = p + 1;
        }
        proof {
            assert forall|a: int| 0 <= a < p implies !key_lt(
                key_at(mode, matched@, i as int),
                #[trigger] key_at(mode, matched@, q[a]),
            ) by {
                assert(out@[a] == matched@[q[a]]);
            }
            if p < out.len() {
                assert(out@[p as int] == matched@[q[p as int]]);
            }
            lemma_result_insert(mode, matched@, q, i as int, p as int);
        }
        let ghost before = out@;
        out.insert(p, x);
        proof {
            let q2 = q.insert(p as int, i as int);
            assert forall|t: int| 0 <= t < i + 1 implies out@[t] == matched@[q2[t]] by {
                if t < p {
                    assert(out@[t] == before[t]);
                } else if t > p {
                    assert(out@[t] == before[t - 1]);
                }
            }
            q = q2;
        }
        proof {
            let kx = sort_key(mode, *x.0, x.1@);
            assert(out@ == before.insert(p as int, x));
            assert forall|a: int, b: int| 0 <= a < b < out@.len() implies !key_lt(
                sort_key(mode, *(#[trigger] out@[b]).0, out@[b].1@),
                sort_key(mode, *(#[trigger] out@[a]).0, out@[a].1@),
            ) by {
                if b < p {
                    assert(out@[a] == before[a] && out@[b] == before[b]);
                } else if b == p {
                    assert(out@[a] == before[a]);
                } else if a == p {
                    assert(out@[b] == before[b - 1]);
                    let kb = sort_key(mode, *before[b - 1].0, before[b - 1].1@);
                    let kp = sort_key(mode, *before[p as int].0, before[p as int].1@);
                    if key_lt(kb, kx) {
                        assert(key_lt(kx, kp));
                        lemma_key_lt_transitive(kb, kx, kp);
                        if b - 1 == p {
                            lemma_key_lt_irreflexive(kp);
                        }
                    }
                } else if a < p {
                    assert(out@[a] == before[a] && out@[b] == before[b - 1]);
                } else {
                    assert(out@[a] == before[a - 1] && out@[b] == before[b - 1]);
                }
            }
            let bv = before.map_values(|r: (&ArtifactView, &String)| result_view(r));
            assert(out@.map_values(|r: (&ArtifactView, &String)| result_view(r)) =~= bv.insert(
                p as int,
                result_view(x),
            ));
            vstd::seq_lib::to_multiset_insert(bv, p as int, result_view(x));
            assert(src.take(i + 1) =~= src.take(i as int).insert(i as int, src[i as int]));
            vstd::seq_lib::to_multiset_insert(src.take(i as int), i as int, src[i as int]);
        }
        i = i + 1;
    }
    assert(src.take(matched.len() as int) =~= src);
    assert(result_order(mode, old(matched)@, q, old(matched)@.len() as int));
    *matched = out;
}

// ---------------------------------------------------------------------------
// Search

/// Results per page.
pub const PAGE_SIZE: usize = 48;

/// The page asked for when none is given.
pub fn default_page() -> (r: usize)
    ensures
        r == 1,
{
    1
}

/// The query parameters of a search.
#[derive(Debug, Clone)]
pub struct SearchParams {
    pub query: String,
    pub kind: String,
    pub module: String,
    pub status: String,
    pub sort: String,
    pub page: usize,
}

/// Every artifact of the modules the filter admits (all modules when the
/// filter is empty), with its module's name, module by module.
pub open spec fn candidates(modules: Seq<ModuleView>, module_filter: Seq<char>) -> Seq<(ArtifactView, Seq<char>)>
    decreases modules.len(),
{
    if modules.len() == 0 {
        Seq::empty()
    } else {
        let m = modules.last();
        candidates(modules.drop_last(), module_filter) + if module_filter.len() == 0 || m.name@ == module_filter {
            m.artifacts@.map_values(|a: ArtifactView| (a, m.name@))
        } else {
            Seq::empty()
        }
    }
}

/// A candidate passes the kind, status and query filters (an empty filter
/// admits everything).
pub open spec fn passes(a: ArtifactView, kind: Seq<char>, status: Seq<char>, query_lower: Seq<char>) -> bool {
    &&& (kind.len() == 0 || a.kind@ == kind)
    &&& (status.len() == 0 || matches_status_seq(a, status))
    &&& (query_lower.len() == 0 || matches_query_seq(a, query_lower))
}

/// The candidates that pass the filters, in order.
pub open spec fn filtered(c: Seq<(ArtifactView, Seq<char>)>, kind: Seq<char>, status: Seq<char>, query_lower: Seq<char>) -> Seq<(ArtifactView, Seq<char>)>
    decreases c.len(),
{
    if c.len() == 0 {
        Seq::empty()
    } else if passes(c.last().0, kind, status, query_lower) {
        filtered(c.drop_last(), kind, status, query_lower).push(c.last())
    } else {
        filtered(c.drop_last(), kind, status, query_lower)
    }
}

/// The results a search finds, before ordering.
pub open spec fn search_hits(view: DashboardView, p: SearchParams) -> Seq<(ArtifactView, Seq<char>)> {
    filtered(candidates(view.modules@, p.module@), p.kind@, p.status@, unicode_lowercase(p.query@))
}

/// Number of pages for `total` results (none for no results).
pub open spec fn page_count(total: int) -> int {
    if total % (PAGE_SIZE as int) == 0 {
        total / (PAGE_SIZE as int)
    } else {
        total / (PAGE_SIZE as int) + 1
    }
}

/// The page shown: the one asked for, clamped to `1..=max(pages, 1)`.
pub open spec fn clamped_page(requested: int, pages: int) -> int {
    let last = if pages < 1 { 1 } else { pages };
    if requested < 1 {
        1
    } else if requested > last {
        last
    } else {
        requested
    }
}

/// The page, page count and index range shown for `total` results when
/// page `requested` is asked for.
pub fn page_bounds(total: usize, requested: usize) -> (r: (usize, usize, usize, usize))
    ensures
        r.1 == page_count(total as int),
        r.0 == clamped_page(requested as int, r.1 as int),
        r.2 == (r.0 - 1) * (PAGE_SIZE as int),
        r.3 == if r.2 + (PAGE_SIZE as int) <= total { r.2 + (PAGE_SIZE as int) } else { total as int },
        r.2 <= r.3 <= total || (total == 0 && r.2 == 0 && r.3 == 0),
{
    let pages = if total % PAGE_SIZE == 0 {
        total / PAGE_SIZE
    } else {
        total / PAGE_SIZE + 1
    };
    let last = if pages < 1 { 1 } else { pages };
    let page = if requested < 1 {
        1
    } else if requested > last {
        last
    } else {
        requested
    };
    assert(page >= 1 && page <= last);
    assert((page - 1) * 48 <= total) by (nonlinear_arith)
        requires
            page >= 1,
            page <= last,
            last as int == if pages < 1 { 1int } else { pages as int },
            pages as int == if total % 48 == 0 { (total / 48) as int } else { total / 48 + 1 },
    ;
    let start = (page - 1) * PAGE_SIZE;
    let end = if total - start >= PAGE_SIZE { start + PAGE_SIZE } else { total };
    (page, pages, start, end)
}

/// One page of search results.
#[derive(Debug, Clone)]
pub struct SearchPage<'a> {
    /// The results on this page, in order, with their module names.
    pub results: Vec<(&'a ArtifactView, &'a String)>,
    pub page: usize,
    pub total_pages: usize,
    pub total: usize,
}

/// Runs a search: the candidates that pass the filters are ordered for the
/// `sort` parameter and the requested page of them is returned.
pub fn search<'a>(view: &'a DashboardView, params: &SearchParams) -> (r: SearchPage<'a>)
    ensures
        r.total == search_hits(*view, *params).len(),
        r.total_pages == page_count(r.total as int),
        r.page == clamped_page(params.page as int, r.total_pages as int),
        exists|all: Seq<(&ArtifactView, &String)>|
            sorted_for(sort_mode_of(params.sort@), all) && all.map_values(
                |x: (&ArtifactView, &String)| result_view(x),
            ).to_multiset() == search_hits(*view, *params).to_multiset() && r.results@ == all.subrange(
                (r.page - 1) * (PAGE_SIZE as int),
                if r.page * (PAGE_SIZE as int) <= r.total { r.page * (PAGE_SIZE as int) } else { r.total as int },
            ),
        exists|found: Seq<(&ArtifactView, &String)>, all: Seq<(&ArtifactView, &String)>|
            #![trigger stably_sorted_results(sort_mode_of(params.sort@), found, all)]
            found.map_values(|x: (&ArtifactView, &String)| result_view(x)) == search_hits(*view, *params)
                && stably_sorted_results(sort_mode_of(params.sort@), found, all) && r.results@ == all.subrange(
                (r.page - 1) * (PAGE_SIZE as int),
                if r.page * (PAGE_SIZE as int) <= r.total { r.page * (PAGE_SIZE as int) } else { r.total as int },
            ),
{
    let q = chars_of(lowercase(params.query.as_str()).as_str());
    let module_filter = chars_of(params.module.as_str());
    let kind = chars_of(params.kind.as_str());
    let status = chars_of(params.status.as_str());
    let mut matched: Vec<(&'a ArtifactView, &'a String)> = Vec::new();
    let ghost hits_so_far = Seq::<(ArtifactView, Seq<char>)>::empty();
    let mut m: usize = 0;
    while m < view.modules.len()
        invariant
            m <= view.modules.len(),
            q@ == unicode_lowercase(params.query@),
            module_filter@ == params.module@,
            kind@ == params.kind@,
            status@ == params.status@,
            matched@.map_values(|x: (&ArtifactView, &String)| result_view(x)) == filtered(
                candidates(view.modules@.take(m as int), params.module@),
                params.kind@,
                params.status@,
                q@,
            ),
        decreases view.modules.len() - m,
    {
        let module = &view.modules[m];
        proof {
            let t = view.modules@.take(m + 1);
            assert(t.drop_last() =~= view.modules@.take(m as int));
            assert(t.last() == *module);
        }
        let take = module_filter.len() == 0 || eq(&chars_of(module.name.as_str()), &module_filter);
        let ghost base = candidates(view.modules@.take(m as int), params.module@);
        let ghost extra: Seq<(ArtifactView, Seq<char>)> = if take {
            module.artifacts@.map_values(|a: ArtifactView| (a, module.name@))
        } else {
            Seq::empty()
        };
        assert(candidates(view.modules@.take(m + 1), params.module@) == base + extra);
        if take {
            let mut a: usize = 0;
            while a < module.artifacts.len()
                invariant
                    a <= module.artifacts.len(),
                    q@ == unicode_lowercase(params.query@),
                    kind@ == params.kind@,
                    status@ == params.status@,
                    extra == module.artifacts@.map_values(|x: ArtifactView| (x, module.name@)),
                    matched@.map_values(|x: (&ArtifactView, &String)| result_view(x)) == filtered(
                        base + extra.take(a as int),
                        params.kind@,
                        params.status@,
                        q@,
                    ),
                decreases module.artifacts.len() - a,
            {
                let art = &module.artifacts[a];
                proof {
                    assert((base + extra.take(a + 1)).drop_last() =~= base + extra.take(a as int));
                    assert((base + extra.take(a + 1)).last() == (*art, module.name@));
                }
                let ok = (kind.len() == 0 || eq(&chars_of(art.kind.as_str()), &kind)) && (
                status.len() == 0 || matches_status(art, params.status.as_str())) && (q.len() == 0
                    || art.matches_query(lowercase(params.query.as_str()).as_str()));
                if ok {
                    let ghost old_m = matched@;
                    matched.push((art, &module.name));
                    assert(matched@.map_values(|x: (&ArtifactView, &String)| result_view(x)) =~= old_m.map_values(
                        |x: (&ArtifactView, &String)| result_view(x),
                    ).push((*art, module.name@)));
                }
                a = a + 1;
            }
            assert(extra.take(module.artifacts.len() as int) =~= extra);
        } else {
            assert(base + extra =~= base);
        }
        m = m + 1;
    }
    assert(view.modules@.take(view.modules.len() as int) =~= view.modules@);
    let ghost hits = matched@.map_values(|x: (&ArtifactView, &String)| result_view(x));
    let ghost found = matched@;
    sort_results(&mut matched, params.sort.as_str());
    let total = matched.len();
    proof {
        let after = matched@.map_values(|x: (&ArtifactView, &String)| result_view(x));
        assert(after.len() == total);
        vstd::seq_lib::to_multiset_len(after);
        vstd::seq_lib::to_multiset_len(hits);
        assert(hits == search_hits(*view, *params));
    }
    let (page, total_pages, start, end) = page_bounds(total, params.page);
    let mut results: Vec<(&'a ArtifactView, &'a String)> = Vec::new();
    let mut i = start;
    while i < end
        invariant
            start <= i <= end <= matched.len(),
            results@ == matched@.subrange(start as int, i as int),
        decreases end - i,
    {
        results.push(matched[i]);
        assert(results@ =~= matched@.subrange(start as int, i + 1));
        i = i + 1;
    }
    proof {
        assert(page * 48 == start + 48) by (nonlinear_arith)
            requires start == (page - 1) * 48, page >= 1;
        assert(stably_sorted_results(sort_mode_of(params.sort@), found, matched@));
    }
    SearchPage { results, page, total_pages, total }
}

// ---------------------------------------------------------------------------
// Artifact page

/// A resolved adoption dependency: `module` names the first module holding
/// a skill of that name, or is empty when none does.
#[derive(Debug, Clone)]
pub struct DepLink {
    pub name: String,
    pub uri: String,
    pub module: String,
}

/// The module holds a skill named `name`.
pub open spec fn has_skill(m: ModuleView, name: Seq<char>) -> bool {
    exists|j: int| 0 <= j < m.artifacts@.len() && is_artifact(#[trigger] m.artifacts@[j], "skills"@, name)
}

/// The name of the first module holding a skill named `name`, or empty.
pub open spec fn skill_module(modules: Seq<ModuleView>, name: Seq<char>) -> Seq<char>
    decreases modules.len(),
{
    if modules.len() == 0 {
        Seq::empty()
    } else if has_skill(modules[0], name) {
        modules[0].name@
    } else {
        skill_module(modules.drop_first(), name)
    }
}

/// Resolves each dependency of an adoption record to the module holding a
/// skill of that name (see `skill_module`); no record, no links.
pub fn resolve_dep_links(view: &DashboardView, adoption: Option<&Adoption>) -> (r: Vec<DepLink>)
    ensures
        match adoption {
            None => r@.len() == 0,
            Some(a) => r@.len() == a.dependencies@.len() && forall|i: int|
                0 <= i < r@.len() ==> {
                    &&& (#[trigger] r@[i]).name@ == a.dependencies@[i].name@
                    &&& r@[i].uri@ == a.dependencies@[i].uri@
                    &&& r@[i].module@ == skill_module(view.modules@, a.dependencies@[i].name@)
                },
        },
{
    let a = match adoption {
        Some(a) => a,
        None => {
            return Vec::new();
        },
    };
    let skills = lit("skills");
    let mut r: Vec<DepLink> = Vec::new();
    let mut i: usize = 0;
    while i < a.dependencies.len()
        invariant
            i <= a.dependencies.len(),
            skills@ == "skills"@,
            r@.len() == i,
            forall|x: int|
                0 <= x < i ==> {
                    &&& (#[trigger] r@[x]).name@ == a.dependencies@[x].name@
                    &&& r@[x].uri@ == a.dependencies@[x].uri@
                    &&& r@[x].module@ == skill_module(view.modules@, a.dependencies@[x].name@)
                },
        decreases a.dependencies.len() - i,
    {
        let dep = &a.dependencies[i];
        let n = chars_of(dep.name.as_str());
        let mut module = String::new();
        let mut m: usize = 0;
        let mut found = false;
        assert(view.modules@.skip(0) =~= view.modules@);
        while m < view.modules.len() && !found
            invariant
                m <= view.modules.len(),
                skills@ == "skills"@,
                n@ == dep.name@,
                found ==> module@ == skill_module(view.modules@, n@),
                !found ==> skill_module(view.modules@.skip(m as int), n@) == skill_module(view.modules@, n@),
                !found ==> module@.len() == 0,
            decreases view.modules.len() - m, (if found { 0int } else { 1int }),
        {
            proof {
                assert(view.modules@.skip(m as int)[0] == view.modules@[m as int]);
                assert(view.modules@.skip(m as int).drop_first() =~= view.modules@.skip(m + 1));
            }
            match find_in_module(&view.modules[m], &skills, &n) {
                Some(_) => {
                    module = view.modules[m].name.clone();
                    found = true;
                },
                None => {
                    m = m + 1;
                },
            }
        }
        proof {
            if !found {
                assert(view.modules@.skip(m as int).len() == 0);
            }
        }
        r.push(DepLink { name: dep.name.clone(), uri: dep.uri.clone(), module });
        i = i + 1;
    }
    r
}

/// The deployment records of an artifact: those whose deployed path equals
/// the artifact's relative path once a `.md`/`.toml` extension is dropped.
pub open spec fn is_deployment_of(e: ProvenanceArtifact, relative_path: Seq<char>) -> bool {
    strip_extension_seq(e.deployed_path@) == strip_extension_seq(relative_path)
}

/// The deployment records of an artifact among some records, in order.
pub open spec fn deployments_in(es: Seq<ProvenanceArtifact>, relative_path: Seq<char>) -> Seq<ProvenanceArtifact>
    decreases es.len(),
{
    if es.len() == 0 {
        Seq::empty()
    } else {
        let prev = deployments_in(es.drop_last(), relative_path);
        if is_deployment_of(es.last(), relative_path) {
            prev.push(es.last())
        } else {
            prev
        }
    }
}

/// The deployment records of an artifact in the provenance groups, group
/// by group, each record once, in order.
pub open spec fn deployments_across(gs: Seq<crate::view::ProvenanceView>, relative_path: Seq<char>) -> Seq<ProvenanceArtifact>
    decreases gs.len(),
{
    if gs.len() == 0 {
        Seq::empty()
    } else {
        deployments_across(gs.drop_last(), relative_path) + deployments_in(gs.last().artifacts@, relative_path)
    }
}

/// Collects an artifact's deployment records from all provenance groups, in
/// order (see `deployments_across`).
pub fn deployments_of<'a>(view: &'a DashboardView, relative_path: &str) -> (r: Vec<&'a ProvenanceArtifact>)
    ensures
        derefs(r@) == deployments_across(view.provenance@, relative_path@),
        forall|i: int| 0 <= i < r@.len() ==> is_deployment_of(*(#[trigger] r@[i]), relative_path@),
        forall|g: int, k: int|
            0 <= g < view.provenance@.len() && 0 <= k < view.provenance@[g].artifacts@.len()
                && is_deployment_of(view.provenance@[g].artifacts@[k], relative_path@) ==> exists|i: int|
                0 <= i < r@.len() && *r@[i] == view.provenance@[g].artifacts@[k],
{
    let stem = chars_of(strip_extension(relative_path).as_str());
    let mut r: Vec<&'a ProvenanceArtifact> = Vec::new();
    let mut g: usize = 0;
    while g < view.provenance.len()
        invariant
            g <= view.provenance.len(),
            stem@ == strip_extension_seq(relative_path@),
            derefs(r@) == deployments_across(view.provenance@.take(g as int), relative_path@),
            forall|i: int| 0 <= i < r@.len() ==> is_deployment_of(*(#[trigger] r@[i]), relative_path@),
            forall|g2: int, k: int|
                0 <= g2 < g && 0 <= k < view.provenance@[g2].artifacts@.len()
                    && is_deployment_of(view.provenance@[g2].artifacts@[k], relative_path@) ==> exists|i: int|
                    0 <= i < r@.len() && *r@[i] == view.provenance@[g2].artifacts@[k],
        decreases view.provenance.len() - g,
    {
        let group = &view.provenance[g];
        let ghost base = derefs(r@);
        let mut k: usize = 0;
        while k < group.artifacts.len()
            invariant
                k <= group.artifacts.len(),
                g < view.provenance.len(),
                *group == view.provenance@[g as int],
                stem@ == strip_extension_seq(relative_path@),
                base == deployments_across(view.provenance@.take(g as int), relative_path@),
                derefs(r@) == base + deployments_in(group.artifacts@.take(k as int), relative_path@),
                forall|i: int| 0 <= i < r@.len() ==> is_deployment_of(*(#[trigger] r@[i]), relative_path@),
                forall|g2: int, k2: int|
                    ((0 <= g2 < g && 0 <= k2 < view.provenance@[g2].artifacts@.len()) || (g2 == g && 0 <= k2 < k))
                        && is_deployment_of(view.provenance@[g2].artifacts@[k2], relative_path@) ==> exists|i: int|
                        0 <= i < r@.len() && *r@[i] == view.provenance@[g2].artifacts@[k2],
            decreases group.artifacts.len() - k,
        {
            let e = &group.artifacts[k];
            proof {
                assert(group.artifacts@.take(k + 1).drop_last() =~= group.artifacts@.take(k as int));
                assert(group.artifacts@.take(k + 1).last() == group.artifacts@[k as int]);
            }
            if eq(&chars_of(strip_extension(e.deployed_path.as_str()).as_str()), &stem) {
                let ghost before = r@;
                r.push(e);
                assert(derefs(r@) =~= derefs(before).push(*e));
                proof {
                    assert(*r@[r@.len() - 1] == view.provenance@[g as int].artifacts@[k as int]);
                    assert forall|g2: int, k2: int|
                        ((0 <= g2 < g && 0 <= k2 < view.provenance@[g2].artifacts@.len()) || (g2 == g && 0 <= k2 < k))
                            && is_deployment_of(view.provenance@[g2].artifacts@[k2], relative_path@) implies exists|i: int|
                            0 <= i < r@.len() && *r@[i] == view.provenance@[g2].artifacts@[k2] by {
                        let i = choose|i: int| 0 <= i < before.len() && *before[i] == view.provenance@[g2].artifacts@[k2];
                        assert(r@[i] == before[i]);
                    }
                }
            }
            k = k + 1;
        }
        proof {
            assert(group.artifacts@.take(group.artifacts.len() as int) =~= group.artifacts@);
            assert(view.provenance@.take(g + 1).drop_last() =~= view.provenance@.take(g as int));
            assert(view.provenance@.take(g + 1).last() == view.provenance@[g as int]);
        }
        g = g + 1;
    }
    assert(view.provenance@.take(view.provenance.len() as int) =~= view.provenance@);
    r
}

/// The target directory configured for a harness, if any (the first entry
/// with that name).
pub fn provider_dir_for(targets: &[(String, String)], harness: &str) -> (r: Option<String>)
    ensures
        match r {
            Some(d) => exists|i: int|
                0 <= i < targets@.len() && targets@[i].0@ == harness@ && d@ == targets@[i].1@ && forall|j: int|
                    0 <= j < i ==> (#[trigger] targets@[j]).0@ != harness@,
            None => forall|i: int| 0 <= i < targets@.len() ==> (#[trigger] targets@[i]).0@ != harness@,
        },
{
    let h = chars_of(harness);
    let mut i: usize = 0;
    while i < targets.len()
        invariant
            i <= targets.len(),
            h@ == harness@,
            forall|j: int| 0 <= j < i ==> (#[trigger] targets@[j]).0@ != harness@,
        decreases targets.len() - i,
    {
        if eq(&chars_of(targets[i].0.as_str()), &h) {
            return Some(targets[i].1.clone());
        }
        i = i + 1;
    }
    None
}

/// The relative path of a deployed file's `assemble/v1` sidecar:
/// `<parent>/.provenance/<stem>.yaml` (no parent prefix at the top level).
pub open spec fn deployed_sidecar_seq(deployed_path: Seq<char>) -> Option<Seq<char>> {
    match file_name(deployed_path) {
        Some(f) => {
            let prefix = match parent(deployed_path) {
                Some(d) => d + "/"@,
                None => Seq::<char>::empty(),
            };
            Some(prefix + ".provenance/"@ + name_stem(f) + ".yaml"@)
        },
        None => None,
    }
}

/// Where a deployed file's sidecar lives (see `deployed_sidecar_seq`).
pub fn deployed_sidecar_path(deployed_path: &str) -> (r: Option<String>)
    ensures
        match r {
            Some(p) => deployed_sidecar_seq(deployed_path@) == Some(p@),
            None => deployed_sidecar_seq(deployed_path@) is None,
        },
{
    let p = chars_of(deployed_path);
    let f = match path_file_name(&p) {
        Some(f) => f,
        None => {
            return None;
        },
    };
    let ghost prefix = match parent(p@) {
        Some(d) => d + "/"@,
        None => Seq::<char>::empty(),
    };
    let mut out: Vec<char> = Vec::new();
    match path_parent(&p) {
        Some(d) => {
            extend(&mut out, &d);
            extend(&mut out, &lit("/"));
        },
        None => {},
    }
    assert(out@ =~= prefix);
    extend(&mut out, &lit(".provenance/"));
    extend(&mut out, &file_stem_of(&f));
    extend(&mut out, &lit(".yaml"));
    Some(string_of(&out))
}

// ---------------------------------------------------------------------------
// Config files

/// A read-only config, settings or schema file shown by the dashboard.
#[derive(Debug, Clone)]
pub struct ConfigFile {
    pub label: String,
    pub path: String,
    pub language: String,
    pub content: String,
}

/// A file shown as a card in a grid.
#[derive(Debug, Clone)]
pub struct FileCard {
    pub label: String,
    pub path: String,
    pub language: String,
    pub lines: usize,
    pub href: String,
}

/// A titled group of file cards.
#[derive(Debug, Clone)]
pub struct FileCardGroup {
    pub title: String,
    pub cards: Vec<FileCard>,
}

/// One hook registered in a settings file.
#[derive(Debug, Clone)]
pub struct HookEntry {
    pub event: String,
    pub matcher: String,
    pub command: String,
    pub source: String,
}

/// The settings files of one harness.
#[derive(Debug, Clone)]
pub struct HarnessFiles {
    pub harness: String,
    pub files: Vec<ConfigFile>,
}

/// The hooks of one harness.
#[derive(Debug, Clone)]
pub struct HarnessHooks {
    pub harness: String,
    pub hooks: Vec<HookEntry>,
}

/// Schema and manifest files from one source.
#[derive(Debug, Clone)]
pub struct SchemaGroup {
    pub source: String,
    pub files: Vec<ConfigFile>,
}

/// One integrity problem listed on the provenance page.
#[derive(Debug, Clone)]
pub struct IntegrityProblem {
    pub kind: String,
    pub name: String,
    pub module: String,
    pub issue: String,
    pub detail: String,
}

/// The card for a config file: its label, path and language, its line
/// count, and the link to its page.
pub fn file_card(file: &ConfigFile, href: String) -> (r: FileCard)
    ensures
        r.label@ == file.label@,
        r.path@ == file.path@,
        r.language@ == file.language@,
        r.lines == line_count(file.content@),
        r.href@ == href@,
{
    FileCard {
        label: file.label.clone(),
        path: file.path.clone(),
        language: file.language.clone(),
        lines: count_lines(file.content.as_str()),
        href,
    }
}

/// A path for display: below the home directory it is written `~/<rest>`.
pub open spec fn display_path_seq(path: Seq<char>, home: Option<Seq<char>>) -> Seq<char> {
    match home {
        Some(h) => match path_strip_prefix(path, h) {
            Some(rest) => "~/"@ + rest,
            None => path,
        },
        None => path,
    }
}

/// Abbreviates the home directory in a path (see `display_path_seq`).
pub fn display_path(path: &str, home: Option<&str>) -> (r: String)
    ensures
        r@ == display_path_seq(path@, opt_str(home)),
{
    let p = chars_of(path);
    match home {
        Some(h) => match strip_path_prefix(&p, &chars_of(h)) {
            Some(rest) => {
                let mut out = lit("~/");
                extend(&mut out, &rest);
                string_of(&out)
            },
            None => string_of(&p),
        },
        None => string_of(&p),
    }
}

// ---------------------------------------------------------------------------
// Companion detail

/// The first skill named `parent` among `arts`.
pub open spec fn skill_named(arts: Seq<ArtifactView>, parent: Seq<char>) -> Option<ArtifactView>
    decreases arts.len(),
{
    if arts.len() == 0 {
        None
    } else if is_artifact(arts[0], "skills"@, parent) {
        Some(arts[0])
    } else {
        skill_named(arts.drop_first(), parent)
    }
}

/// The first companion named `name` among `cs`.
pub open spec fn companion_named(cs: Seq<Companion>, name: Seq<char>) -> Option<Companion>
    decreases cs.len(),
{
    if cs.len() == 0 {
        None
    } else if cs[0].name@ == name {
        Some(cs[0])
    } else {
        companion_named(cs.drop_first(), name)
    }
}

/// The companion `name` of the module's first skill named `parent`.
pub open spec fn companion_in(m: ModuleView, parent: Seq<char>, name: Seq<char>) -> Option<Companion> {
    match skill_named(m.artifacts@, parent) {
        Some(a) => companion_named(a.companions@, name),
        None => None,
    }
}

/// The first module whose skill `parent` has companion `name`: its source
/// and the companion.
pub open spec fn find_companion_seq(modules: Seq<ModuleView>, parent: Seq<char>, name: Seq<char>) -> Option<
    (Seq<char>, Companion),
>
    decreases modules.len(),
{
    if modules.len() == 0 {
        None
    } else {
        match companion_in(modules[0], parent, name) {
            Some(c) => Some((modules[0].source_uri@, c)),
            None => find_companion_seq(modules.drop_first(), parent, name),
        }
    }
}

fn companion_of_module<'a>(m: &'a ModuleView, parent: &[char], name: &[char]) -> (r: Option<&'a Companion>)
    ensures
        match r {
            Some(c) => companion_in(*m, parent@, name@) == Some(*c),
            None => companion_in(*m, parent@, name@) is None,
        },
{
    let skills = lit("skills");
    let mut i: usize = 0;
    assert(m.artifacts@.skip(0) =~= m.artifacts@);
    while i < m.artifacts.len()
        invariant
            i <= m.artifacts.len(),
            skills@ == "skills"@,
            skill_named(m.artifacts@.skip(i as int), parent@) == skill_named(m.artifacts@, parent@),
        decreases m.artifacts.len() - i,
    {
        let a = &m.artifacts[i];
        proof {
            assert(m.artifacts@.skip(i as int)[0] == *a);
            assert(m.artifacts@.skip(i as int).drop_first() =~= m.artifacts@.skip(i + 1));
        }
        if eq(&chars_of(a.kind.as_str()), &skills) && eq(&chars_of(a.name.as_str()), parent) {
            assert(skill_named(m.artifacts@, parent@) == Some(*a));
            let mut k: usize = 0;
            assert(a.companions@.skip(0) =~= a.companions@);
            while k < a.companions.len()
                invariant
                    k <= a.companions.len(),
                    skill_named(m.artifacts@, parent@) == Some(*a),
                    companion_named(a.companions@.skip(k as int), name@) == companion_named(
                        a.companions@,
                        name@,
                    ),
                decreases a.companions.len() - k,
            {
                proof {
                    assert(a.companions@.skip(k as int)[0] == a.companions@[k as int]);
                    assert(a.companions@.skip(k as int).drop_first() =~= a.companions@.skip(k + 1));
                }
                if eq(&chars_of(a.companions[k].name.as_str()), name) {
                    assert(companion_named(a.companions@, name@) == Some(a.companions@[k as int]));
                    return Some(&a.companions[k]);
                }
                k = k + 1;
            }
            assert(a.companions@.skip(k as int).len() == 0);
            return None;
        }
        i = i + 1;
    }
    assert(m.artifacts@.skip(i as int).len() == 0);
    None
}

/// Finds a skill companion for its detail page (see `find_companion_seq`).
pub fn find_companion<'a>(view: &'a DashboardView, parent: &str, name: &str) -> (r: Option<(String, &'a Companion)>)
    ensures
        match r {
            Some((u, c)) => find_companion_seq(view.modules@, parent@, name@) == Some((u@, *c)),
            None => find_companion_seq(view.modules@, parent@, name@) is None,
        },
{
    let pc = chars_of(parent);
    let nc = chars_of(name);
    let mut i: usize = 0;
    assert(view.modules@.skip(0) =~= view.modules@);
    while i < view.modules.len()
        invariant
            i <= view.modules.len(),
            pc@ == parent@,
            nc@ == name@,
            find_companion_seq(view.modules@.skip(i as int), parent@, name@) == find_companion_seq(
                view.modules@,
                parent@,
                name@,
            ),
        decreases view.modules.len() - i,
    {
        let m = &view.modules[i];
        proof {
            assert(view.modules@.skip(i as int)[0] == *m);
            assert(view.modules@.skip(i as int).drop_first() =~= view.modules@.skip(i + 1));
        }
        match companion_of_module(m, &pc, &nc) {
            Some(c) => {
                return Some((m.source_uri.clone(), c));
            },
            None => {},
        }
        i = i + 1;
    }
    assert(view.modules@.skip(i as int).len() == 0);
    None
}

/// The provider status a deployment record stands for: unchanged when
/// verified, else modified, with the deployed digest as fingerprint.
pub open spec fn record_status(e: ProvenanceArtifact) -> (FileStatus, Option<Seq<char>>) {
    (if e.verified { FileStatus::Unchanged } else { FileStatus::Modified }, Some(e.deployed_sha@))
}

/// The last record of `harness` among `es`.
pub open spec fn last_record(es: Seq<ProvenanceArtifact>, harness: Seq<char>) -> Option<ProvenanceArtifact>
    decreases es.len(),
{
    if es.len() == 0 {
        None
    } else if es.last().harness@ == harness {
        Some(es.last())
    } else {
        last_record(es.drop_last(), harness)
    }
}

/// A provider status as (status, fingerprint).
pub open spec fn status_view(s: ProviderStatus) -> (FileStatus, Option<Seq<char>>) {
    (s.status, match s.fingerprint {
        Some(f) => Some(f@),
        None => None,
    })
}

/// The status comes from the last record of its harness.
pub open spec fn from_last_record(es: Seq<ProvenanceArtifact>, p: (String, ProviderStatus)) -> bool {
    match last_record(es, p.0@) {
        Some(e) => status_view(p.1) == record_status(e),
        None => false,
    }
}

/// The records themselves.
pub open spec fn derefs(es: Seq<&ProvenanceArtifact>) -> Seq<ProvenanceArtifact> {
    es.map_values(|e: &ProvenanceArtifact| *e)
}

/// One provider status per harness of the records, in harness order, from
/// the last record of each harness.
pub fn providers_from_records(entries: &[&ProvenanceArtifact]) -> (r: Vec<(String, ProviderStatus)>)
    ensures
        strictly_sorted(r@.map_values(|p: (String, ProviderStatus)| p.0@)),
        r@.map_values(|p: (String, ProviderStatus)| p.0@).to_set() == Set::new(
            |h: Seq<char>| last_record(derefs(entries@), h) is Some,
        ),
        forall|i: int| 0 <= i < r@.len() ==> from_last_record(derefs(entries@), #[trigger] r@[i]),
{
    let ghost es = derefs(entries@);
    let mut names: Vec<String> = Vec::new();
    assert(views(names@).to_set() =~= Set::<Seq<char>>::empty());
    let mut i: usize = 0;
    while i < entries.len()
        invariant
            i <= entries.len(),
            es == derefs(entries@),
            strictly_sorted(views(names@)),
            views(names@).to_set() == Set::new(|h: Seq<char>| last_record(es.take(i as int), h) is Some),
        decreases entries.len() - i,
    {
        proof {
            assert(es.take(i + 1).drop_last() =~= es.take(i as int));
            assert(es.take(i + 1).last() == *entries@[i as int]);
        }
        let ghost before = Set::new(|h: Seq<char>| last_record(es.take(i as int), h) is Some);
        insert_sorted(&mut names, entries[i].harness.clone());
        assert(Set::new(|h: Seq<char>| last_record(es.take(i + 1), h) is Some) =~= before.insert(
            entries@[i as int].harness@,
        ));
        i = i + 1;
    }
    assert(es.take(entries.len() as int) =~= es);
    let mut r: Vec<(String, ProviderStatus)> = Vec::new();
    let mut j: usize = 0;
    while j < names.len()
        invariant
            j <= names.len(),
            es == derefs(entries@),
            views(names@).to_set() == Set::new(|h: Seq<char>| last_record(es, h) is Some),
            r@.len() == j,
            forall|t: int| 0 <= t < j ==> #[trigger] r@[t].0@ == names@[t]@,
            forall|t: int| 0 <= t < j ==> from_last_record(es, #[trigger] r@[t]),
        decreases names.len() - j,
    {
        let hc = chars_of(names[j].as_str());
        proof {
            assert(views(names@)[j as int] == names@[j as int]@);
            assert(views(names@).contains(names@[j as int]@));
            assert(views(names@).to_set().contains(names@[j as int]@));
            assert(last_record(es, hc@) is Some);
        }
        let mut k: usize = entries.len();
        assert(es.take(k as int) =~= es);
        let mut found: Option<usize> = None;
        while k > 0 && found.is_none()
            invariant
                k <= entries.len(),
                j < names.len(),
                es == derefs(entries@),
                hc@ == names@[j as int]@,
                last_record(es, hc@) is Some,
                match found {
                    Some(x) => x < entries.len() && last_record(es, hc@) == Some(es[x as int]),
                    None => last_record(es.take(k as int), hc@) == last_record(es, hc@),
                },
            decreases k, (if found is None { 1int } else { 0int }),
        {
            proof {
                assert(es.take(k as int).last() == es[k - 1]);
                assert(es.take(k as int).drop_last() =~= es.take(k - 1));
            }
            if eq(&chars_of(entries[k - 1].harness.as_str()), &hc) {
                found = Some(k - 1);
            } else {
                k = k - 1;
            }
        }
        let e = match found {
            Some(x) => {
                assert(es[x as int] == *entries@[x as int]);
                entries[x]
            },
            None => {
                proof {
                    assert(es.take(0) =~= Seq::<ProvenanceArtifact>::empty());
                    assert(false);
                }
                entries[0]
            },
        };
        let status = ProviderStatus {
            status: if e.verified { FileStatus::Unchanged } else { FileStatus::Modified },
            fingerprint: Some(e.deployed_sha.clone()),
        };
        assert(last_record(es, hc@) == Some(*e));
        assert(status_view(status) == record_status(*e));
        let ghost old_r = r@;
        r.push((names[j].clone(), status));
        assert(r@[j as int].0@ == hc@);
        assert(r@[j as int].1 == status);
        assert(forall|t: int| 0 <= t < j ==> r@[t] == old_r[t]);
        assert forall|t: int| 0 <= t < j + 1 implies #[trigger] r@[t].0@ == names@[t]@ by {
            if t < j {
                assert(r@[t] == old_r[t]);
            }
        }
        assert(from_last_record(es, r@[j as int]));
        assert forall|t: int| 0 <= t < j + 1 implies from_last_record(es, #[trigger] r@[t]) by {
            if t < j {
                assert(r@[t] == old_r[t]);
            }
        }
        j = j + 1;
    }
    assert(r@.map_values(|p: (String, ProviderStatus)| p.0@) =~= views(names@));
    r
}

/// The artifact shown on a companion's detail page: the companion's name,
/// path, description and content as a skill, with the given deployment
/// statuses, history and adoption, and nothing else.
pub fn companion_artifact(
    companion: &Companion,
    providers: Vec<(String, ProviderStatus)>,
    git_log: Vec<GitCommit>,
    adoption: Option<Adoption>,
) -> (r: ArtifactView)
    ensures
        r.name@ == companion.name@,
        r.kind@ == "skills"@,
        r.module@.len() == 0,
        r.relative_path@ == companion.relative_path@,
        r.source_path@.len() == 0,
        r.description@ == companion.description@,
        r.content_preview@.len() == 0,
        r.content_body@ == companion.content_body@,
        r.raw_source@ == companion.raw_source@,
        r.metadata@.len() == 0,
        r.providers@ == providers@,
        r.git_log@ == git_log@,
        r.adoption == adoption,
        r.sidecar_warning@.len() == 0,
        r.broken_refs@.len() == 0,
        r.age_days is None,
        r.module_tint == 0,
        r.companions@.len() == 0,
        r.variants@.len() == 0,
        r.vcs is None,
{
    ArtifactView {
        name: companion.name.clone(),
        kind: String::from_str("skills"),
        module: String::new(),
        relative_path: companion.relative_path.clone(),
        source_path: String::new(),
        description: companion.description.clone(),
        content_preview: String::new(),
        content_body: companion.content_body.clone(),
        raw_source: companion.raw_source.clone(),
        metadata: Vec::new(),
        providers,
        git_log,
        adoption,
        sidecar_warning: String::new(),
        broken_refs: Vec::new(),
        age_days: None,
        module_tint: 0,
        companions: Vec::new(),
        variants: Vec::new(),
        vcs: None,
    }
}

} // verus!
