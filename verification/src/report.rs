//! The terminal report of an action: deployed files counted by provider and
//! content kind, the skipped files of each provider, and the summary line.

use vstd::prelude::*;
use crate::text::{
    chars_of, contains, contains_seq, extend, has_prefix, join_seqs, lit, seqs_of, split_char,
    split_on, string_of,
};
use crate::order::{insert_sorted, strictly_sorted, views};
use crate::result::{ActionResult, DeployedFile, SkipReason, SkippedFile};
use crate::dotforge::{decimal, decimal_seq};

verus! {

/// The content kind of a deployed path: the first of `agents`, `skills`,
/// `rules` that appears as a directory in it, else `files`.
pub open spec fn content_kind(path: Seq<char>) -> Seq<char> {
    if contains_seq(path, "/agents/"@) {
        "agents"@
    } else if contains_seq(path, "/skills/"@) {
        "skills"@
    } else if contains_seq(path, "/rules/"@) {
        "rules"@
    } else {
        "files"@
    }
}

/// The content kind of a deployed path (see `content_kind`).
pub fn extract_content_kind(path: &str) -> (r: &'static str)
    ensures
        r@ == content_kind(path@),
{
    let p = chars_of(path);
    if contains(&p, &lit("/agents/")) {
        "agents"
    } else if contains(&p, &lit("/skills/")) {
        "skills"
    } else if contains(&p, &lit("/rules/")) {
        "rules"
    } else {
        "files"
    }
}

/// The last three `/`-separated segments of a path, or the whole path
/// when it has fewer.
pub open spec fn relative_tail(path: Seq<char>) -> Seq<char> {
    let pieces = split_char(path, '/');
    if pieces.len() > 3 {
        join_seqs(pieces.skip(pieces.len() - 3), "/"@)
    } else {
        path
    }
}

/// The short form of a skipped path (see `relative_tail`).
pub fn extract_relative_path(path: &str) -> (r: String)
    ensures
        r@ == relative_tail(path@),
{
    let pieces = split_on(&chars_of(path), '/');
    if pieces.len() > 3 {
        let mut tail: Vec<Vec<char>> = Vec::new();
        let mut i: usize = pieces.len() - 3;
        let ghost pv = seqs_of(pieces@);
        let ghost start = (pieces.len() - 3) as int;
        while i < pieces.len()
            invariant
                pieces.len() > 3,
                start == pieces.len() - 3,
                start <= i <= pieces.len(),
                pv == seqs_of(pieces@),
                seqs_of(tail@) == pv.subrange(start, i as int),
            decreases pieces.len() - i,
        {
            let ghost before = seqs_of(tail@);
            let piece = crate::text::slice(&pieces[i], 0, pieces[i].len());
            assert(piece@ =~= pieces@[i as int]@);
            tail.push(piece);
            assert(seqs_of(tail@) =~= before.push(pv[i as int]));
            assert(seqs_of(tail@) =~= pv.subrange(start, i + 1));
            i = i + 1;
        }
        assert(pv.subrange(start, pieces.len() as int) =~= pv.skip(start));
        string_of(&crate::text::join(&tail, &lit("/")))
    } else {
        String::from_str(path)
    }
}

/// The label of a skip reason.
pub open spec fn reason_label(r: SkipReason) -> Seq<char> {
    match r {
        SkipReason::UserModified => "user modified"@,
        SkipReason::Unchanged => "unchanged"@,
        SkipReason::TargetMismatch => "target mismatch"@,
    }
}

/// The label of a skip reason (see `reason_label`).
pub fn skip_reason_label(r: SkipReason) -> (s: &'static str)
    ensures
        s@ == reason_label(r),
{
    match r {
        SkipReason::UserModified => "user modified",
        SkipReason::Unchanged => "unchanged",
        SkipReason::TargetMismatch => "target mismatch",
    }
}

// ---------------------------------------------------------------------------
// Grouping by provider

/// The deployed files and skips of one provider.
#[derive(Debug, Clone)]
pub struct ProviderGroup {
    pub provider: String,
    /// `(kind, count)` of the deployed files, by kind in alphabetical order,
    /// kinds without files left out.
    pub kinds: Vec<(String, usize)>,
    /// The provider's skipped files, in the order met.
    pub skips: Vec<SkippedFile>,
}

/// The content kinds in alphabetical order.
pub open spec fn kind_names() -> Seq<Seq<char>> {
    seq!["agents"@, "files"@, "rules"@, "skills"@]
}

/// How many deployed files of `provider` have kind `kind`.
pub open spec fn kind_count(installed: Seq<DeployedFile>, provider: Seq<char>, kind: Seq<char>) -> nat
    decreases installed.len(),
{
    if installed.len() == 0 {
        0
    } else {
        let e = installed.last();
        kind_count(installed.drop_last(), provider, kind) + if e.provider@ == provider
            && content_kind(e.target@) == kind {
            1nat
        } else {
            0nat
        }
    }
}

/// The skipped files of `provider`, in order.
pub open spec fn skips_of(skipped: Seq<SkippedFile>, provider: Seq<char>) -> Seq<SkippedFile>
    decreases skipped.len(),
{
    if skipped.len() == 0 {
        Seq::empty()
    } else {
        let prev = skips_of(skipped.drop_last(), provider);
        if skipped.last().provider@ == provider {
            prev.push(skipped.last())
        } else {
            prev
        }
    }
}

/// The providers that deployed or skipped a file.
pub open spec fn providers_of(r: ActionResult) -> Set<Seq<char>> {
    Set::new(
        |p: Seq<char>|
            (exists|i: int| 0 <= i < r.installed@.len() && #[trigger] r.installed@[i].provider@ == p)
                || (exists|i: int| 0 <= i < r.skipped@.len() && #[trigger] r.skipped@[i].provider@ == p),
    )
}

/// The kinds with at least one file of `provider`, with their counts.
pub open spec fn kinds_with_counts(installed: Seq<DeployedFile>, provider: Seq<char>, upto: int) -> Seq<(Seq<char>, nat)>
    decreases upto,
{
    if upto <= 0 {
        Seq::empty()
    } else {
        let prev = kinds_with_counts(installed, provider, upto - 1);
        let k = kind_names()[upto - 1];
        let n = kind_count(installed, provider, k);
        if n > 0 {
            prev.push((k, n))
        } else {
            prev
        }
    }
}

/// The view of a group's kind counts.
pub open spec fn kind_views(v: Seq<(String, usize)>) -> Seq<(Seq<char>, nat)> {
    v.map_values(|e: (String, usize)| (e.0@, e.1 as nat))
}

/// A group as the result lays it out for its provider.
pub open spec fn group_matches(g: ProviderGroup, r: ActionResult) -> bool {
    &&& kind_views(g.kinds@) == kinds_with_counts(r.installed@, g.provider@, 4)
    &&& g.skips@ == skips_of(r.skipped@, g.provider@)
}

/// The providers of a list of groups.
pub open spec fn group_providers(gs: Seq<ProviderGroup>) -> Seq<Seq<char>> {
    gs.map_values(|g: ProviderGroup| g.provider@)
}

fn count_kind(installed: &Vec<DeployedFile>, provider: &str, kind: &str) -> (n: usize)
    ensures
        n == kind_count(installed@, provider@, kind@),
{
    let pc = chars_of(provider);
    let kc = chars_of(kind);
    let mut n: usize = 0;
    let mut i: usize = 0;
    while i < installed.len()
        invariant
            i <= installed.len(),
            pc@ == provider@,
            kc@ == kind@,
            n == kind_count(installed@.take(i as int), provider@, kind@),
            n <= i,
        decreases installed.len() - i,
    {
        proof {
            assert(installed@.take(i + 1).drop_last() =~= installed@.take(i as int));
            assert(installed@.take(i + 1).last() == installed@[i as int]);
        }
        let e = &installed[i];
        let k = extract_content_kind(e.target.as_str());
        if crate::text::eq(&chars_of(e.provider.as_str()), &pc) && crate::text::eq(
            &chars_of(k),
            &kc,
        ) {
            n = n + 1;
        }
        i = i + 1;
    }
    assert(installed@.take(installed.len() as int) =~= installed@);
    n
}

fn skips_for(skipped: &Vec<SkippedFile>, provider: &str) -> (r: Vec<SkippedFile>)
    ensures
        r@ == skips_of(skipped@, provider@),
{
    let pc = chars_of(provider);
    let mut r: Vec<SkippedFile> = Vec::new();
    let mut i: usize = 0;
    while i < skipped.len()
        invariant
            i <= skipped.len(),
            pc@ == provider@,
            r@ == skips_of(skipped@.take(i as int), provider@),
        decreases skipped.len() - i,
    {
        proof {
            assert(skipped@.take(i + 1).drop_last() =~= skipped@.take(i as int));
            assert(skipped@.take(i + 1).last() == skipped@[i as int]);
        }
        if crate::text::eq(&chars_of(skipped[i].provider.as_str()), &pc) {
            let s = SkippedFile {
                target: skipped[i].target.clone(),
                provider: skipped[i].provider.clone(),
                reason: skipped[i].reason,
            };
            assert(s == skipped@[i as int]);
            r.push(s);
        }
        i = i + 1;
    }
    assert(skipped@.take(skipped.len() as int) =~= skipped@);
    r
}

/// The sorted, distinct providers that deployed or skipped a file.
fn provider_names(r: &ActionResult) -> (v: Vec<String>)
    ensures
        strictly_sorted(views(v@)),
        views(v@).to_set() == providers_of(*r),
{
    let mut v: Vec<String> = Vec::new();
    assert(views(v@).to_set() =~= Set::<Seq<char>>::empty());
    let mut i: usize = 0;
    while i < r.installed.len()
        invariant
            i <= r.installed.len(),
            strictly_sorted(views(v@)),
            views(v@).to_set() == Set::new(
                |p: Seq<char>| exists|j: int| 0 <= j < i && #[trigger] r.installed@[j].provider@ == p,
            ),
        decreases r.installed.len() - i,
    {
        let ghost before = views(v@).to_set();
        insert_sorted(&mut v, r.installed[i].provider.clone());
        proof {
            let after = Set::new(
                |p: Seq<char>| exists|j: int| 0 <= j < i + 1 && #[trigger] r.installed@[j].provider@ == p,
            );
            assert forall|p: Seq<char>| after.contains(p) implies before.insert(
                r.installed@[i as int].provider@,
            ).contains(p) by {
                let j = choose|j: int| 0 <= j < i + 1 && #[trigger] r.installed@[j].provider@ == p;
                if j < i {
                    assert(before.contains(p));
                }
            }
            assert(after =~= before.insert(r.installed@[i as int].provider@));
        }
        i = i + 1;
    }
    let ghost from_installed = views(v@).to_set();
    let mut k: usize = 0;
    while k < r.skipped.len()
        invariant
            k <= r.skipped.len(),
            strictly_sorted(views(v@)),
            views(v@).to_set() == from_installed.union(
                Set::new(
                    |p: Seq<char>| exists|j: int| 0 <= j < k && #[trigger] r.skipped@[j].provider@ == p,
                ),
            ),
        decreases r.skipped.len() - k,
    {
        let ghost before = Set::new(
            |p: Seq<char>| exists|j: int| 0 <= j < k && #[trigger] r.skipped@[j].provider@ == p,
        );
        insert_sorted(&mut v, r.skipped[k].provider.clone());
        proof {
            let after = Set::new(
                |p: Seq<char>| exists|j: int| 0 <= j < k + 1 && #[trigger] r.skipped@[j].provider@ == p,
            );
            assert forall|p: Seq<char>| after.contains(p) implies before.insert(
                r.skipped@[k as int].provider@,
            ).contains(p) by {
                let j = choose|j: int| 0 <= j < k + 1 && #[trigger] r.skipped@[j].provider@ == p;
                if j < k {
                    assert(before.contains(p));
                }
            }
            assert(after =~= before.insert(r.skipped@[k as int].provider@));
            assert(views(v@).to_set() =~= from_installed.union(after));
        }
        k = k + 1;
    }
    assert(views(v@).to_set() =~= providers_of(*r));
    v
}

/// Groups an action's records by provider, in provider order: each group
/// counts the provider's deployed files by kind and lists its skips.
pub fn group_by_provider(r: &ActionResult) -> (gs: Vec<ProviderGroup>)
    ensures
        strictly_sorted(group_providers(gs@)),
        group_providers(gs@).to_set() == providers_of(*r),
        forall|i: int| 0 <= i < gs@.len() ==> group_matches(#[trigger] gs@[i], *r),
{
    let names = provider_names(r);
    let mut gs: Vec<ProviderGroup> = Vec::new();
    let mut i: usize = 0;
    while i < names.len()
        invariant
            i <= names.len(),
            gs@.len() == i,
            forall|j: int| 0 <= j < i ==> (#[trigger] gs@[j]).provider@ == names@[j]@,
            forall|j: int| 0 <= j < i ==> group_matches(#[trigger] gs@[j], *r),
        decreases names.len() - i,
    {
        let p = names[i].as_str();
        let mut kinds: Vec<(String, usize)> = Vec::new();
        let kind_list = ["agents", "files", "rules", "skills"];
        let mut k: usize = 0;
        while k < 4
            invariant
                k <= 4,
                kind_list@.len() == 4,
                forall|t: int| 0 <= t < 4 ==> (#[trigger] kind_list@[t])@ == kind_names()[t],
                kind_views(kinds@) == kinds_with_counts(r.installed@, p@, k as int),
            decreases 4 - k,
        {
            let n = count_kind(&r.installed, p, kind_list[k]);
            if n > 0 {
                let ghost before = kind_views(kinds@);
                kinds.push((String::from_str(kind_list[k]), n));
                assert(kind_views(kinds@) =~= before.push((kind_names()[k as int], n as nat)));
            }
            k = k + 1;
        }
        let g = ProviderGroup {
            provider: names[i].clone(),
            kinds,
            skips: skips_for(&r.skipped, p),
        };
        gs.push(g);
        i = i + 1;
    }
    assert(group_providers(gs@) =~= views(names@));
    gs
}

// ---------------------------------------------------------------------------
// Report text

/// An error mentions the provider, as `(provider)`.
pub open spec fn mentions_provider(errors: Seq<String>, provider: Seq<char>) -> bool {
    exists|i: int|
        0 <= i < errors.len() && contains_seq(#[trigger] errors[i]@, "("@ + provider + ")"@)
}

/// Whether an error was recorded for the provider (see `mentions_provider`).
pub fn provider_has_errors(errors: &Vec<String>, provider: &str) -> (b: bool)
    ensures
        b == mentions_provider(errors@, provider@),
{
    let mut tag = lit("(");
    extend(&mut tag, &chars_of(provider));
    extend(&mut tag, &lit(")"));
    let mut i: usize = 0;
    while i < errors.len()
        invariant
            i <= errors.len(),
            tag@ == "("@ + provider@ + ")"@,
            forall|j: int| 0 <= j < i ==> !contains_seq(#[trigger] errors@[j]@, tag@),
        decreases errors.len() - i,
    {
        if contains(&chars_of(errors[i].as_str()), &tag) {
            return true;
        }
        i = i + 1;
    }
    false
}

/// The summary parts: deployed count with the verb, skipped count, and the
/// error count (singular for one), each only when not zero.
pub open spec fn summary_parts_seq(installed: nat, skipped: nat, errors: nat, verb: Seq<char>) -> Seq<Seq<char>> {
    let a = if installed > 0 {
        seq!["● "@ + decimal_seq(installed) + " "@ + verb]
    } else {
        Seq::empty()
    };
    let b = if skipped > 0 {
        a.push("○ "@ + decimal_seq(skipped) + " skipped"@)
    } else {
        a
    };
    if errors > 0 {
        b.push("✗ "@ + decimal_seq(errors) + " "@ + (if errors == 1 { "error"@ } else { "errors"@ }))
    } else {
        b
    }
}

/// The parts of the summary line (see `summary_parts_seq`); empty when
/// nothing happened.
pub fn summary_parts(r: &ActionResult, verb: &str) -> (v: Vec<String>)
    ensures
        views(v@) == summary_parts_seq(
            r.installed@.len(),
            r.skipped@.len(),
            r.errors@.len(),
            verb@,
        ),
{
    let mut v: Vec<String> = Vec::new();
    let a = r.installed.len();
    let s = r.skipped.len();
    let e = r.errors.len();
    if a > 0 {
        let mut t = lit("● ");
        extend(&mut t, &decimal(a as u64));
        extend(&mut t, &lit(" "));
        extend(&mut t, &chars_of(verb));
        v.push(string_of(&t));
    }
    let ghost va = views(v@);
    if s > 0 {
        let mut t = lit("○ ");
        extend(&mut t, &decimal(s as u64));
        extend(&mut t, &lit(" skipped"));
        v.push(string_of(&t));
        assert(views(v@) =~= va.push(t@));
    }
    let ghost vb = views(v@);
    if e > 0 {
        let mut t = lit("✗ ");
        extend(&mut t, &decimal(e as u64));
        extend(&mut t, &lit(" "));
        extend(&mut t, &lit(if e == 1 { "error" } else { "errors" }));
        v.push(string_of(&t));
        assert(views(v@) =~= vb.push(t@));
    }
    assert(views(v@) =~= summary_parts_seq(a as nat, s as nat, e as nat, verb@));
    v
}

} // verus!
