//! Provenance sidecars of deployed files: where a sidecar lives, whether a
//! deployed file still matches the digest recorded for it, and the
//! per-source summary of a deployment directory.

use vstd::prelude::*;
use crate::text::{chars_of, contains, contains_seq, eq, extend, lit, string_of};
use crate::paths::{file_name, file_stem_of, join_path, name_stem, parent, path_file_name, path_join, path_parent};
use crate::digest::{content_sha256, sha256_hex};
use crate::order::{chars_lt, lemma_lt_irreflexive, lemma_lt_total, lemma_lt_transitive, seq_lt, strictly_sorted};

verus! {

/// The directory, next to deployed files, that holds their sidecars.
pub open spec fn provenance_directory() -> Seq<char> {
    ".provenance"@
}

/// The two places a deployed file's sidecar may be: named by the file's
/// stem (`agents/.provenance/Dev.yaml` for `agents/Dev.md`), or by its full
/// name (`skills/.provenance/CleanCode.md.yaml`).
pub open spec fn sidecar_candidates_seq(file_path: Seq<char>) -> (Seq<char>, Seq<char>) {
    let par = match parent(file_path) {
        Some(p) => p,
        None => "."@,
    };
    let dir = join_path(par, provenance_directory());
    let base = match file_name(file_path) {
        Some(f) => f,
        None => Seq::empty(),
    };
    (join_path(dir, name_stem(base) + ".yaml"@), join_path(dir, base + ".yaml"@))
}

/// Computes both sidecar locations (see `sidecar_candidates_seq`).
pub fn sidecar_candidates(file_path: &str) -> (r: (String, String))
    ensures
        (r.0@, r.1@) == sidecar_candidates_seq(file_path@),
{
    let p = chars_of(file_path);
    let par = match path_parent(&p) {
        Some(d) => d,
        None => lit("."),
    };
    let dir = path_join(&par, &lit(".provenance"));
    let base = match path_file_name(&p) {
        Some(f) => f,
        None => Vec::new(),
    };
    let mut stem_name = file_stem_of(&base);
    extend(&mut stem_name, &lit(".yaml"));
    let mut full_name = base.clone();
    extend(&mut full_name, &lit(".yaml"));
    (string_of(&path_join(&dir, &stem_name)), string_of(&path_join(&dir, &full_name)))
}

/// Picks a deployed file's sidecar: the stem-named one when it exists, else
/// the full-name one when that exists, else the stem-named one (so a missing
/// sidecar is reported under the usual name).
pub fn resolve_sidecar_path(file_path: &str, stem_exists: bool, full_name_exists: bool) -> (r: String)
    ensures
        r@ == if !stem_exists && full_name_exists {
            sidecar_candidates_seq(file_path@).1
        } else {
            sidecar_candidates_seq(file_path@).0
        },
{
    let (stem_path, full_path) = sidecar_candidates(file_path);
    if stem_exists {
        stem_path
    } else if full_name_exists {
        full_path
    } else {
        stem_path
    }
}

/// Whether a deployed file still has the digest its sidecar recorded.
pub fn chain_verified(deployed_content: &str, recorded_sha256: &str) -> (r: bool)
    ensures
        r == (sha256_hex(deployed_content@) == recorded_sha256@),
{
    eq(&chars_of(content_sha256(deployed_content).as_str()), &chars_of(recorded_sha256))
}

// ---------------------------------------------------------------------------
// Directory summary

/// What was found for one deployed markdown file: the source named by its
/// sidecar and whether its digest matches, or no readable sidecar.
#[derive(Debug, Clone)]
pub struct DeployedRecord {
    pub relative_path: String,
    /// `None` for a file without a readable sidecar (an orphan).
    pub source: Option<String>,
    pub verified: bool,
}

/// Per-source counts of a deployment directory, by source.
#[derive(Debug, Clone)]
pub struct ProvenanceSummary {
    /// `(source, verified, total)`, sorted by source.
    pub by_source: Vec<(String, usize, usize)>,
    /// Files without provenance, in the order met.
    pub orphans: Vec<String>,
    /// The process exit code: 1 when orphans are shown and there is an
    /// orphan or an unverified file, else 0.
    pub exit_code: i32,
}

/// Files with a sidecar naming `source`, and how many of them verify.
pub open spec fn tally(records: Seq<DeployedRecord>, source: Seq<char>) -> (nat, nat)
    decreases records.len(),
{
    if records.len() == 0 {
        (0, 0)
    } else {
        let (v, t) = tally(records.drop_last(), source);
        let r = records.last();
        if r.source is Some && r.source->Some_0@ == source {
            (if r.verified { v + 1 } else { v }, t + 1)
        } else {
            (v, t)
        }
    }
}

/// The sources named by the records, kept when the filter (if any) is a
/// substring of them.
pub open spec fn listed_source(records: Seq<DeployedRecord>, filter: Option<Seq<char>>, s: Seq<char>) -> bool {
    (exists|i: int| 0 <= i < records.len() && (#[trigger] records[i]).source is Some && records[i].source->Some_0@ == s)
        && match filter {
        Some(f) => contains_seq(s, f),
        None => true,
    }
}

/// The orphans among the records, in order.
pub open spec fn orphans_of(records: Seq<DeployedRecord>) -> Seq<Seq<char>>
    decreases records.len(),
{
    if records.len() == 0 {
        Seq::empty()
    } else if records.last().source is None {
        orphans_of(records.drop_last()).push(records.last().relative_path@)
    } else {
        orphans_of(records.drop_last())
    }
}

/// The views of a summary's rows.
pub open spec fn row_sources(v: Seq<(String, usize, usize)>) -> Seq<Seq<char>> {
    v.map_values(|r: (String, usize, usize)| r.0@)
}

fn find_row(rows: &Vec<(String, usize, usize)>, s: &[char]) -> (r: Option<usize>)
    ensures
        match r {
            Some(k) => k < rows@.len() && rows@[k as int].0@ == s@,
            None => forall|k: int| 0 <= k < rows@.len() ==> (#[trigger] rows@[k]).0@ != s@,
        },
{
    let mut k: usize = 0;
    while k < rows.len()
        invariant
            k <= rows.len(),
            forall|x: int| 0 <= x < k ==> (#[trigger] rows@[x]).0@ != s@,
        decreases rows.len() - k,
    {
        if eq(&chars_of(rows[k].0.as_str()), s) {
            return Some(k);
        }
        k = k + 1;
    }
    None
}

/// Summarises a deployment directory: one row per source named by a
/// sidecar (and matching the filter), sorted by source, with its verified
/// and total counts; the orphans; and the exit code.
pub fn summarize(records: &[DeployedRecord], source_filter: Option<&str>, show_orphans: bool) -> (r: ProvenanceSummary)
    requires
        records@.len() <= usize::MAX,
    ensures
        strictly_sorted(row_sources(r.by_source@)),
        forall|s: Seq<char>|
            row_sources(r.by_source@).contains(s) <==> listed_source(
                records@,
                match source_filter {
                    Some(f) => Some(f@),
                    None => None,
                },
                s,
            ),
        forall|k: int|
            0 <= k < r.by_source@.len() ==> ((#[trigger] r.by_source@[k]).1 as nat, r.by_source@[k].2 as nat)
                == tally(records@, r.by_source@[k].0@),
        crate::order::views(r.orphans@) == orphans_of(records@),
        r.exit_code == if show_orphans && (r.orphans@.len() > 0 || exists|k: int|
            0 <= k < r.by_source@.len() && (#[trigger] r.by_source@[k]).1 != r.by_source@[k].2) {
            1i32
        } else {
            0i32
        },
{
    let ghost filter_view = match source_filter {
        Some(f) => Some(f@),
        None => None::<Seq<char>>,
    };
    let filter = match source_filter {
        Some(f) => Some(chars_of(f)),
        None => None,
    };
    let mut rows: Vec<(String, usize, usize)> = Vec::new();
    let mut orphans: Vec<String> = Vec::new();
    let mut i: usize = 0;
    while i < records.len()
        invariant
            i <= records.len(),
            match filter {
                Some(f) => filter_view == Some(f@),
                None => filter_view is None,
            },
            filter_view == match source_filter {
                Some(f) => Some(f@),
                None => None,
            },
            strictly_sorted(row_sources(rows@)),
            forall|s: Seq<char>|
                row_sources(rows@).contains(s) <==> listed_source(records@.take(i as int), filter_view, s),
            forall|k: int|
                0 <= k < rows@.len() ==> ((#[trigger] rows@[k]).1 as nat, rows@[k].2 as nat) == tally(
                    records@.take(i as int),
                    rows@[k].0@,
                ),
            forall|k: int| 0 <= k < rows@.len() ==> (#[trigger] rows@[k]).2 <= i,
            forall|k: int| 0 <= k < rows@.len() ==> (#[trigger] rows@[k]).1 <= rows@[k].2,
            crate::order::views(orphans@) == orphans_of(records@.take(i as int)),
        decreases records.len() - i,
    {
        let rec = &records[i];
        let ghost pre = records@.take(i as int);
        let ghost post = records@.take(i + 1);
        proof {
            assert(post.drop_last() =~= pre);
            assert(post.last() == *rec);
            assert forall|s: Seq<char>| #[trigger] tally(post, s) == if rec.source is Some && rec.source->Some_0@ == s {
                (if rec.verified { tally(pre, s).0 + 1 } else { tally(pre, s).0 }, tally(pre, s).1 + 1)
            } else {
                tally(pre, s)
            } by {}
        }
        match &rec.source {
            None => {
                let ghost before = orphans@;
                orphans.push(rec.relative_path.clone());
                proof {
                    assert(crate::order::views(orphans@) =~= crate::order::views(before).push(rec.relative_path@));
                    assert forall|s: Seq<char>| listed_source(post, filter_view, s) == listed_source(pre, filter_view, s) by {
                        if listed_source(post, filter_view, s) {
                            let j = choose|j: int| 0 <= j < post.len() && (#[trigger] post[j]).source is Some && post[j].source->Some_0@ == s;
                            assert(j < i);
                            assert(pre[j] == post[j]);
                        }
                        if listed_source(pre, filter_view, s) {
                            let j = choose|j: int| 0 <= j < pre.len() && (#[trigger] pre[j]).source is Some && pre[j].source->Some_0@ == s;
                            assert(post[j] == pre[j]);
                        }
                    }
                    assert(forall|x: Seq<char>| row_sources(rows@).contains(x) <==> listed_source(post, filter_view, x));
                }
            },
            Some(src) => {
                let sc = chars_of(src.as_str());
                let keep = match &filter {
                    Some(f) => contains(&sc, f),
                    None => true,
                };
                proof {
                    assert forall|s: Seq<char>| listed_source(post, filter_view, s) == (listed_source(pre, filter_view, s) || (s == src@ && keep)) by {
                        if listed_source(post, filter_view, s) {
                            let j = choose|j: int| 0 <= j < post.len() && (#[trigger] post[j]).source is Some && post[j].source->Some_0@ == s;
                            if j < i {
                                assert(pre[j] == post[j]);
                            }
                        }
                        if listed_source(pre, filter_view, s) {
                            let j = choose|j: int| 0 <= j < pre.len() && (#[trigger] pre[j]).source is Some && pre[j].source->Some_0@ == s;
                            assert(post[j] == pre[j]);
                        }
                        if s == src@ && keep {
                            assert(post[i as int].source is Some);
                        }
                    }
                }
                if keep {
                    match find_row(&rows, &sc) {
                        Some(k) => {
                            let ghost before = rows@;
                            let (name, v, t) = rows.remove(k);
                            assert((name, v, t) == before[k as int]);
                            let nv = if rec.verified { v + 1 } else { v };
                            rows.insert(k, (name, nv, t + 1));
                            proof {
                                assert(rows@ =~= before.update(k as int, (name, nv, (t + 1) as usize)));
                                assert(row_sources(rows@) =~= row_sources(before));
                                assert(row_sources(rows@)[k as int] == src@);
                                assert forall|x: Seq<char>| row_sources(rows@).contains(x) <==> listed_source(post, filter_view, x) by {
                                    if x == src@ {
                                        assert(row_sources(rows@).contains(x));
                                    }
                                }
                                assert forall|x: int| 0 <= x < rows@.len() implies ((#[trigger] rows@[x]).1 as nat, rows@[x].2 as nat) == tally(post, rows@[x].0@) by {
                                    if x != k {
                                        assert(rows@[x] == before[x]);
                                        assert(rows@[x].0@ != src@) by {
                                            assert(seq_lt(row_sources(before)[x], row_sources(before)[k as int]) || seq_lt(row_sources(before)[k as int], row_sources(before)[x]));
                                            lemma_lt_irreflexive(src@);
                                        }
                                    }
                                }
                            }
                        },
                        None => {
                            let mut p: usize = 0;
                            while p < rows.len() && chars_lt(&chars_of(rows[p].0.as_str()), &sc)
                                invariant
                                    p <= rows.len(),
                                    forall|q: int| 0 <= q < p ==> seq_lt(#[trigger] rows@[q].0@, sc@),
                                decreases rows.len() - p,
                            {
                                p = p + 1;
                            }
                            let ghost before = rows@;
                            rows.insert(p, (src.clone(), if rec.verified { 1 } else { 0 }, 1));
                            proof {
                                let bs = row_sources(before);
                                assert(row_sources(rows@) =~= bs.insert(p as int, sc@));
                                assert forall|x: Seq<char>| row_sources(rows@).contains(x) <==> (bs.contains(x) || x == sc@) by {
                                    let rs = row_sources(rows@);
                                    if rs.contains(x) {
                                        let q = choose|q: int| 0 <= q < rs.len() && rs[q] == x;
                                        if q < p {
                                            assert(bs[q] == x);
                                        } else if q > p {
                                            assert(bs[q - 1] == x);
                                        }
                                    }
                                    if bs.contains(x) {
                                        let q = choose|q: int| 0 <= q < bs.len() && bs[q] == x;
                                        if q < p {
                                            assert(rs[q] == x);
                                        } else {
                                            assert(rs[q + 1] == x);
                                        }
                                    }
                                    if x == sc@ {
                                        assert(rs[p as int] == x);
                                    }
                                }
                                assert forall|x: Seq<char>| row_sources(rows@).contains(x) <==> listed_source(post, filter_view, x) by {
                                    assert(row_sources(before).contains(x) <==> listed_source(pre, filter_view, x));
                                }
                                if p < before.len() {
                                    lemma_lt_total(bs[p as int], sc@);
                                }
                                assert forall|x: int, y: int| 0 <= x < y < rows@.len() implies seq_lt(
                                    #[trigger] row_sources(rows@)[x],
                                    #[trigger] row_sources(rows@)[y],
                                ) by {
                                    let rs = row_sources(rows@);
                                    if y < p {
                                        assert(rs[x] == bs[x] && rs[y] == bs[y]);
                                    } else if y == p {
                                        assert(rs[x] == bs[x]);
                                    } else if x == p {
                                        assert(rs[y] == bs[y - 1]);
                                        if y - 1 > p {
                                            lemma_lt_transitive(sc@, bs[p as int], bs[y - 1]);
                                        }
                                    } else if x < p {
                                        assert(rs[x] == bs[x] && rs[y] == bs[y - 1]);
                                    } else {
                                        assert(rs[x] == bs[x - 1] && rs[y] == bs[y - 1]);
                                    }
                                }
                                assert forall|x: int| 0 <= x < rows@.len() implies ((#[trigger] rows@[x]).1 as nat, rows@[x].2 as nat) == tally(post, rows@[x].0@) by {
                                    if x < p {
                                        assert(rows@[x] == before[x]);
                                    } else if x > p {
                                        assert(rows@[x] == before[x - 1]);
                                    } else {
                                        assert(tally(pre, sc@) == (0nat, 0nat)) by {
                                            if exists|j: int| 0 <= j < pre.len() && (#[trigger] pre[j]).source is Some && pre[j].source->Some_0@ == sc@ {
                                                assert(listed_source(pre, filter_view, sc@));
                                                assert(row_sources(before).contains(sc@));
                                                let q = choose|q: int| 0 <= q < before.len() && row_sources(before)[q] == sc@;
                                                assert(before[q].0@ == sc@);
                                            }
                                            lemma_tally_absent(pre, sc@);
                                        }
                                    }
                                }
                            }
                        },
                    }
                } else {
                    proof {
                        assert(forall|x: Seq<char>| row_sources(rows@).contains(x) <==> listed_source(post, filter_view, x));
                        assert forall|x: int| 0 <= x < rows@.len() implies ((#[trigger] rows@[x]).1 as nat, rows@[x].2 as nat) == tally(post, rows@[x].0@) by {
                            if rows@[x].0@ == src@ {
                                assert(row_sources(rows@)[x] == src@);
                                assert(row_sources(rows@).contains(src@));
                            }
                        }
                    }
                }
            },
        }
        i = i + 1;
    }
    assert(records@.take(records.len() as int) =~= records@);
    let mut problem = orphans.len() > 0;
    let mut k: usize = 0;
    while k < rows.len()
        invariant
            k <= rows.len(),
            problem == (orphans@.len() > 0 || exists|x: int| 0 <= x < k && (#[trigger] rows@[x]).1 != rows@[x].2),
        decreases rows.len() - k,
    {
        if rows[k].1 != rows[k].2 {
            problem = true;
        }
        k = k + 1;
    }
    let exit_code: i32 = if show_orphans && problem { 1 } else { 0 };
    ProvenanceSummary { by_source: rows, orphans, exit_code }
}

proof fn lemma_tally_absent(records: Seq<DeployedRecord>, s: Seq<char>)
    requires
        !exists|j: int| 0 <= j < records.len() && (#[trigger] records[j]).source is Some && records[j].source->Some_0@ == s,
    ensures
        tally(records, s) == (0nat, 0nat),
    decreases records.len(),
{
    if records.len() > 0 {
        assert forall|j: int| 0 <= j < records.drop_last().len() implies !((#[trigger] records.drop_last()[j]).source is Some && records.drop_last()[j].source->Some_0@ == s) by {
            assert(records.drop_last()[j] == records[j]);
        }
        lemma_tally_absent(records.drop_last(), s);
        assert(!(records[records.len() - 1].source is Some && records[records.len() - 1].source->Some_0@ == s));
    }
}

} // verus!
