//! Drift between a module's files and their upstream sources: each file is
//! compared by frontmatter and body digests, heading-only differences are
//! normalised away, changed frontmatter keys are listed, and keys the user
//! chose to ignore soften the verdict.

use vstd::prelude::*;
use crate::text::{chars_of, eq, lit, string_of};
use crate::frontmatter::{split_frontmatter, split_frontmatter_seq, strip_heading, strip_heading_seq};
use crate::digest::{content_sha256, sha256_hex};
use crate::order::{chars_lt, insert_sorted, lemma_lt_total, lemma_lt_transitive, seq_lt, strictly_sorted, views};

verus! {

/// The verdict for one file.
#[derive(Debug, Clone, Copy, PartialEq, Eq, Structural)]
pub enum DriftStatus {
    Identical,
    FrontmatterOnly,
    BodyOnly,
    Both,
    Expected,
    LocalOnly,
    UpstreamOnly,
}

/// One compared file.
#[derive(Debug, Clone)]
pub struct DriftEntry {
    pub name: String,
    pub status: DriftStatus,
    pub category: String,
    pub changed_keys: Vec<String>,
}

/// All compared files, plus errors met on the way.
#[derive(Debug, Clone)]
pub struct DriftResult {
    pub entries: Vec<DriftEntry>,
    pub errors: Vec<String>,
}

impl DriftResult {
    /// An empty result.
    pub fn new() -> (r: DriftResult)
        ensures
            r.entries@.len() == 0,
            r.errors@.len() == 0,
    {
        DriftResult { entries: Vec::new(), errors: Vec::new() }
    }
}

/// The verdict before ignored keys are taken into account.
pub open spec fn raw_status(frontmatter_match: bool, body_match: bool) -> DriftStatus {
    if frontmatter_match && body_match {
        DriftStatus::Identical
    } else if body_match {
        DriftStatus::FrontmatterOnly
    } else if frontmatter_match {
        DriftStatus::BodyOnly
    } else {
        DriftStatus::Both
    }
}

/// The pseudo-key that stands for the body in the ignore list.
pub open spec fn body_key() -> Seq<char> {
    seq!['b', 'o', 'd', 'y']
}

/// Every changed key is ignored (and there is at least one).
pub open spec fn all_keys_ignored(changed: Seq<Seq<char>>, ignored: Seq<Seq<char>>) -> bool {
    changed.len() > 0 && forall|i: int| 0 <= i < changed.len() ==> ignored.contains(#[trigger] changed[i])
}

/// The verdict once ignored keys (and `body`) are discounted: a drift made
/// only of ignored parts becomes `Expected`; a two-sided drift loses the
/// ignored side.
pub open spec fn filter_status(
    raw: DriftStatus,
    changed: Seq<Seq<char>>,
    ignored: Seq<Seq<char>>,
) -> DriftStatus {
    if ignored.len() == 0 {
        raw
    } else {
        let body_ignored = ignored.contains(body_key());
        let keys_ignored = all_keys_ignored(changed, ignored);
        match raw {
            DriftStatus::FrontmatterOnly => if keys_ignored {
                DriftStatus::Expected
            } else {
                raw
            },
            DriftStatus::BodyOnly => if body_ignored {
                DriftStatus::Expected
            } else {
                raw
            },
            DriftStatus::Both => if keys_ignored && body_ignored {
                DriftStatus::Expected
            } else if keys_ignored {
                DriftStatus::BodyOnly
            } else if body_ignored {
                DriftStatus::FrontmatterOnly
            } else {
                raw
            },
            _ => raw,
        }
    }
}

/// Whether `s` is one of the strings in `v`.
pub fn contains_string(v: &[String], s: &[char]) -> (r: bool)
    ensures
        r == views(v@).contains(s@),
{
    let mut i: usize = 0;
    while i < v.len()
        invariant
            i <= v.len(),
            forall|j: int| 0 <= j < i ==> v@[j]@ != s@,
        decreases v.len() - i,
    {
        if eq(&chars_of(v[i].as_str()), s) {
            assert(views(v@)[i as int] == s@);
            return true;
        }
        i = i + 1;
    }
    proof {
        if views(v@).contains(s@) {
            let j = choose|j: int| 0 <= j < views(v@).len() && views(v@)[j] == s@;
            assert(v@[j]@ == s@);
        }
    }
    false
}

/// Applies the ignore list to a raw verdict (see `filter_status`).
pub fn apply_ignore_filter(
    raw_status: DriftStatus,
    changed_keys: &[String],
    ignored: &[String],
) -> (r: DriftStatus)
    ensures
        r == filter_status(raw_status, views(changed_keys@), views(ignored@)),
{
    if ignored.len() == 0 {
        return raw_status;
    }
    let body_ignored = contains_string(ignored, &lit("body"));
    proof {
        reveal_strlit("body");
        assert("body"@ =~= body_key());
    }
    let mut keys_ignored = changed_keys.len() > 0;
    let mut i: usize = 0;
    while i < changed_keys.len()
        invariant
            i <= changed_keys.len(),
            keys_ignored == (changed_keys.len() > 0 && forall|j: int|
                0 <= j < i ==> views(ignored@).contains(#[trigger] views(changed_keys@)[j])),
        decreases changed_keys.len() - i,
    {
        let c = chars_of(changed_keys[i].as_str());
        assert(views(changed_keys@)[i as int] == c@);
        if !contains_string(ignored, &c) {
            keys_ignored = false;
        }
        i = i + 1;
    }
    assert(keys_ignored == all_keys_ignored(views(changed_keys@), views(ignored@)));
    match raw_status {
        DriftStatus::FrontmatterOnly => if keys_ignored {
            DriftStatus::Expected
        } else {
            raw_status
        },
        DriftStatus::BodyOnly => if body_ignored {
            DriftStatus::Expected
        } else {
            raw_status
        },
        DriftStatus::Both => if keys_ignored && body_ignored {
            DriftStatus::Expected
        } else if keys_ignored {
            DriftStatus::BodyOnly
        } else if body_ignored {
            DriftStatus::FrontmatterOnly
        } else {
            raw_status
        },
        _ => raw_status,
    }
}

/// A document split into frontmatter and body; without frontmatter the
/// whole text is the body.
pub open spec fn parts(content: Seq<char>) -> (Seq<char>, Seq<char>) {
    match split_frontmatter_seq(content) {
        Some((frontmatter, body)) => (frontmatter, body),
        None => (Seq::empty(), content),
    }
}

/// Splits a document into `(frontmatter, body)` (see `parts`).
pub fn split_parts(content: &str) -> (r: (String, String))
    ensures
        (r.0@, r.1@) == parts(content@),
{
    let c = chars_of(content);
    match split_frontmatter(&c) {
        Some((frontmatter, body)) => (string_of(&frontmatter), string_of(&body)),
        None => (String::new(), string_of(&c)),
    }
}

// ---------------------------------------------------------------------------
// Frontmatter keys

/// The top-level entries of a YAML mapping, in document order: the key when
/// it is a string, and the value serialised back to YAML text. `None` when
/// the text does not parse, or is not a mapping.
pub uninterp spec fn yaml_top_level_entries(text: Seq<char>) -> Option<
    Seq<(Option<Seq<char>>, Seq<char>)>,
>;

/// The views of a list of YAML entries.
pub open spec fn entry_views(v: Seq<(Option<String>, String)>) -> Seq<
    (Option<Seq<char>>, Seq<char>),
> {
    v.map_values(
        |e: (Option<String>, String)|
            (
                match e.0 {
                    Some(k) => Some(k@),
                    None => None,
                },
                e.1@,
            ),
    )
}

/// Lists a YAML text's top-level entries, through `serde_yaml::from_str`,
/// `Value::as_mapping`, `Value::as_str` and `serde_yaml::to_string`.
///
/// Trusted: the result is `yaml_top_level_entries` of the text. A value that
/// fails to serialise is reported as the empty string.
#[verifier::external_body]
fn top_level_entries(text: &str) -> (r: Option<Vec<(Option<String>, String)>>)
    ensures
        match r {
            Some(v) => yaml_top_level_entries(text@) == Some(entry_views(v@)),
            None => yaml_top_level_entries(text@) is None,
        },
{
    let parsed: serde_yaml::Value = serde_yaml::from_str(text).ok()?;
    let mapping = parsed.as_mapping()?;
    Some(
        mapping.iter().map(
            |(key, value)|
                (key.as_str().map(String::from), serde_yaml::to_string(value).unwrap_or_default()),
        ).collect(),
    )
}

/// The value of the last entry with key `key` (a later duplicate wins).
pub open spec fn last_value(e: Seq<(Option<Seq<char>>, Seq<char>)>, key: Seq<char>) -> Option<
    Seq<char>,
>
    decreases e.len(),
{
    if e.len() == 0 {
        None
    } else if e.last().0 == Some(key) {
        Some(e.last().1)
    } else {
        last_value(e.drop_last(), key)
    }
}

/// Some entry of `e` has key `key`.
pub open spec fn has_key(e: Seq<(Option<Seq<char>>, Seq<char>)>, key: Seq<char>) -> bool {
    exists|i: int| 0 <= i < e.len() && e[i].0 == Some(key)
}

/// The serialised value of a top-level frontmatter key, if present.
pub open spec fn top_level_value(text: Seq<char>, key: Seq<char>) -> Option<Seq<char>> {
    match yaml_top_level_entries(text) {
        Some(e) => last_value(e, key),
        None => None,
    }
}

/// The keys whose value differs between two frontmatter texts (present on
/// one side only, or with different values).
pub open spec fn changed_key_set(a: Seq<char>, b: Seq<char>) -> Set<Seq<char>> {
    Set::new(|k: Seq<char>| top_level_value(a, k) != top_level_value(b, k))
}

proof fn lemma_last_value_has_key(e: Seq<(Option<Seq<char>>, Seq<char>)>, key: Seq<char>)
    ensures
        last_value(e, key) is Some ==> has_key(e, key),
    decreases e.len(),
{
    if e.len() > 0 && e.last().0 != Some(key) {
        lemma_last_value_has_key(e.drop_last(), key);
        if last_value(e.drop_last(), key) is Some {
            let i = choose|i: int| 0 <= i < e.drop_last().len() && e.drop_last()[i].0 == Some(key);
            assert(e[i].0 == Some(key));
        }
    } else if e.len() > 0 {
        assert(e[e.len() - 1].0 == Some(key));
    }
}

/// The views of an optional string.
pub open spec fn opt_view(o: Option<String>) -> Option<Seq<char>> {
    match o {
        Some(s) => Some(s@),
        None => None,
    }
}

/// Looks up the last entry with key `key`.
fn value_of(entries: &[(Option<String>, String)], key: &[char]) -> (r: Option<String>)
    ensures
        opt_view(r) == last_value(entry_views(entries@), key@),
{
    let ghost ev = entry_views(entries@);
    let mut i: usize = entries.len();
    assert(ev.take(i as int) =~= ev);
    while i > 0
        invariant
            i <= entries.len(),
            ev == entry_views(entries@),
            last_value(ev.take(i as int), key@) == last_value(ev, key@),
        decreases i,
    {
        i = i - 1;
        proof {
            assert(ev.take(i + 1).last() == ev[i as int]);
            assert(ev.take(i + 1).drop_last() =~= ev.take(i as int));
        }
        match &entries[i].0 {
            Some(k) => {
                if eq(&chars_of(k.as_str()), key) {
                    return Some(entries[i].1.clone());
                }
            },
            None => {},
        }
    }
    None
}

/// Whether two optional strings are equal.
fn opt_eq(a: &Option<String>, b: &Option<String>) -> (r: bool)
    ensures
        r == (opt_view(*a) == opt_view(*b)),
{
    match (a, b) {
        (Some(x), Some(y)) => eq(&chars_of(x.as_str()), &chars_of(y.as_str())),
        (None, None) => true,
        _ => false,
    }
}

proof fn lemma_has_key_step(kf: Seq<(Option<Seq<char>>, Seq<char>)>, i: int)
    requires
        0 <= i < kf.len(),
    ensures
        forall|x: Seq<char>|
            #[trigger] has_key(kf.take(i + 1), x) <==> (has_key(kf.take(i), x) || kf[i].0 == Some(
                x,
            )),
{
    let pre = kf.take(i);
    let post = kf.take(i + 1);
    assert forall|x: Seq<char>| #[trigger] has_key(post, x) implies (has_key(pre, x) || kf[i].0
        == Some(x)) by {
        let j = choose|j: int| 0 <= j < post.len() && post[j].0 == Some(x);
        if j < i {
            assert(pre[j] == post[j]);
        }
    }
    assert forall|x: Seq<char>| (has_key(pre, x) || kf[i].0 == Some(x)) implies #[trigger] has_key(
        post,
        x,
    ) by {
        if kf[i].0 == Some(x) {
            assert(post[i].0 == Some(x));
        } else {
            let j = choose|j: int| 0 <= j < pre.len() && pre[j].0 == Some(x);
            assert(post[j] == pre[j]);
        }
    }
}

/// Adds to `changed` each key of `keys_from` whose value differs between
/// the entry lists `a` and `b`.
fn add_changed(
    changed: &mut Vec<String>,
    keys_from: &[(Option<String>, String)],
    a: &[(Option<String>, String)],
    b: &[(Option<String>, String)],
)
    requires
        strictly_sorted(views(old(changed)@)),
    ensures
        strictly_sorted(views(final(changed)@)),
        views(final(changed)@).to_set() == views(old(changed)@).to_set().union(
            Set::new(
                |k: Seq<char>|
                    has_key(entry_views(keys_from@), k) && last_value(entry_views(a@), k)
                        != last_value(entry_views(b@), k),
            ),
        ),
{
    let ghost start = views(changed@).to_set();
    let ghost kf = entry_views(keys_from@);
    let ghost ea = entry_views(a@);
    let ghost eb = entry_views(b@);
    let mut i: usize = 0;
    while i < keys_from.len()
        invariant
            i <= keys_from.len(),
            kf == entry_views(keys_from@),
            ea == entry_views(a@),
            eb == entry_views(b@),
            strictly_sorted(views(changed@)),
            views(changed@).to_set() == start.union(
                Set::new(
                    |k: Seq<char>|
                        has_key(kf.take(i as int), k) && last_value(ea, k) != last_value(eb, k),
                ),
            ),
        decreases keys_from.len() - i,
    {
        let ghost old_set = Set::new(
            |k: Seq<char>| has_key(kf.take(i as int), k) && last_value(ea, k) != last_value(eb, k),
        );
        let ghost new_set = Set::new(
            |k: Seq<char>|
                has_key(kf.take(i + 1), k) && last_value(ea, k) != last_value(eb, k),
        );
        proof {
            lemma_has_key_step(kf, i as int);
        }
        match &keys_from[i].0 {
            Some(k) => {
                let kc = chars_of(k.as_str());
                let va = value_of(a, &kc);
                let vb = value_of(b, &kc);
                assert(kf[i as int].0 == Some(k@));
                if !opt_eq(&va, &vb) {
                    insert_sorted(changed, k.clone());
                    assert(new_set =~= old_set.insert(k@));
                    assert(views(changed@).to_set() =~= start.union(new_set));
                } else {
                    assert(new_set =~= old_set);
                }
            },
            None => {
                assert(kf[i as int].0 is None);
                assert(new_set =~= old_set);
            },
        }
        i = i + 1;
    }
    assert(kf.take(keys_from.len() as int) =~= kf);
}

/// The frontmatter keys whose values differ between two YAML texts, in
/// sorted order without repeats.
pub fn diff_frontmatter_keys(module_yaml: &str, upstream_yaml: &str) -> (r: Vec<String>)
    ensures
        strictly_sorted(views(r@)),
        views(r@).to_set() == changed_key_set(module_yaml@, upstream_yaml@),
{
    let a = match top_level_entries(module_yaml) {
        Some(v) => v,
        None => Vec::new(),
    };
    let b = match top_level_entries(upstream_yaml) {
        Some(v) => v,
        None => Vec::new(),
    };
    proof {
        assert forall|k: Seq<char>| last_value(entry_views(a@), k) == top_level_value(
            module_yaml@,
            k,
        ) by {
            if yaml_top_level_entries(module_yaml@) is None {
                assert(entry_views(a@).len() == 0);
            }
        }
        assert forall|k: Seq<char>| last_value(entry_views(b@), k) == top_level_value(
            upstream_yaml@,
            k,
        ) by {
            if yaml_top_level_entries(upstream_yaml@) is None {
                assert(entry_views(b@).len() == 0);
            }
        }
    }
    let mut changed: Vec<String> = Vec::new();
    assert(views(changed@).to_set() =~= Set::empty());
    add_changed(&mut changed, &a, &a, &b);
    add_changed(&mut changed, &b, &a, &b);
    proof {
        let ea = entry_views(a@);
        let eb = entry_views(b@);
        assert(views(changed@).to_set() =~= changed_key_set(module_yaml@, upstream_yaml@)) by {
            assert forall|k: Seq<char>| changed_key_set(module_yaml@, upstream_yaml@).contains(
                k,
            ) implies views(changed@).to_set().contains(k) by {
                lemma_last_value_has_key(ea, k);
                lemma_last_value_has_key(eb, k);
            }
        }
    }
    changed
}

proof fn lemma_has_key_last_value(e: Seq<(Option<Seq<char>>, Seq<char>)>, key: Seq<char>)
    ensures
        has_key(e, key) ==> last_value(e, key) is Some,
    decreases e.len(),
{
    if e.len() > 0 && e.last().0 != Some(key) {
        if has_key(e, key) {
            let i = choose|i: int| 0 <= i < e.len() && e[i].0 == Some(key);
            assert(i != e.len() - 1);
            assert(e.drop_last()[i].0 == Some(key));
        }
        lemma_has_key_last_value(e.drop_last(), key);
    }
}

/// The keys of a list of (key, value) pairs.
pub open spec fn pair_keys(v: Seq<(String, String)>) -> Seq<Seq<char>> {
    v.map_values(|p: (String, String)| p.0@)
}

/// The top-level keys of a YAML text with their values serialised back to
/// YAML, in key order; empty when the text is not a YAML mapping. Keys that
/// are not strings are skipped.
pub fn parse_top_level_keys(yaml_text: &str) -> (r: Vec<(String, String)>)
    ensures
        strictly_sorted(pair_keys(r@)),
        pair_keys(r@).to_set() == Set::new(|k: Seq<char>| top_level_value(yaml_text@, k) is Some),
        forall|i: int|
            0 <= i < r@.len() ==> top_level_value(yaml_text@, #[trigger] r@[i].0@) == Some(
                r@[i].1@,
            ),
{
    let entries = match top_level_entries(yaml_text) {
        Some(v) => v,
        None => Vec::new(),
    };
    let ghost ev = entry_views(entries@);
    proof {
        assert forall|k: Seq<char>| last_value(ev, k) == top_level_value(yaml_text@, k) by {
            if yaml_top_level_entries(yaml_text@) is None {
                assert(ev.len() == 0);
            }
        }
    }
    let mut keys: Vec<String> = Vec::new();
    let mut i: usize = 0;
    assert(views(keys@).to_set() =~= Set::<Seq<char>>::empty());
    while i < entries.len()
        invariant
            i <= entries.len(),
            ev == entry_views(entries@),
            strictly_sorted(views(keys@)),
            views(keys@).to_set() == Set::new(|k: Seq<char>| has_key(ev.take(i as int), k)),
        decreases entries.len() - i,
    {
        proof {
            lemma_has_key_step(ev, i as int);
        }
        let ghost before = Set::new(|k: Seq<char>| has_key(ev.take(i as int), k));
        let ghost after = Set::new(|k: Seq<char>| has_key(ev.take(i + 1), k));
        match &entries[i].0 {
            Some(k) => {
                assert(ev[i as int].0 == Some(k@));
                insert_sorted(&mut keys, k.clone());
                assert(after =~= before.insert(k@));
            },
            None => {
                assert(ev[i as int].0 is None);
                assert(after =~= before);
            },
        }
        i = i + 1;
    }
    assert(ev.take(entries.len() as int) =~= ev);
    let mut r: Vec<(String, String)> = Vec::new();
    let mut j: usize = 0;
    while j < keys.len()
        invariant
            j <= keys.len(),
            ev == entry_views(entries@),
            forall|k: Seq<char>| last_value(ev, k) == top_level_value(yaml_text@, k),
            views(keys@).to_set() == Set::new(|k: Seq<char>| has_key(ev, k)),
            r@.len() == j,
            forall|t: int| 0 <= t < j ==> #[trigger] r@[t].0@ == keys@[t]@,
            forall|t: int|
                0 <= t < j ==> top_level_value(yaml_text@, #[trigger] r@[t].0@) == Some(
                    r@[t].1@,
                ),
        decreases keys.len() - j,
    {
        let kc = chars_of(keys[j].as_str());
        let v = value_of(&entries, &kc);
        proof {
            assert(views(keys@)[j as int] == keys@[j as int]@);
            assert(views(keys@).contains(keys@[j as int]@));
            assert(views(keys@).to_set().contains(keys@[j as int]@));
            lemma_has_key_last_value(ev, keys@[j as int]@);
        }
        let value = match v {
            Some(x) => x,
            None => String::new(),
        };
        r.push((keys[j].clone(), value));
        j = j + 1;
    }
    proof {
        assert(pair_keys(r@) =~= views(keys@));
        assert forall|k: Seq<char>| #![auto] has_key(ev, k) == (top_level_value(yaml_text@, k) is Some) by {
            lemma_has_key_last_value(ev, k);
            lemma_last_value_has_key(ev, k);
        }
        assert(pair_keys(r@).to_set() =~= Set::new(|k: Seq<char>| top_level_value(yaml_text@, k) is Some));
    }
    r
}

// ---------------------------------------------------------------------------
// File comparison

/// What comparing one module file with its upstream copy reports, given
/// the entry `r` produced for them.
pub open spec fn compared_entry(
    r: DriftEntry,
    name: Seq<char>,
    module_content: Seq<char>,
    upstream_content: Seq<char>,
    category: Seq<char>,
    ignored: Seq<Seq<char>>,
) -> bool {
    let (mf, mb) = parts(module_content);
    let (uf, ub) = parts(upstream_content);
    let frontmatter_match = sha256_hex(mf) == sha256_hex(uf);
    let body_match = sha256_hex(strip_heading_seq(mb)) == sha256_hex(strip_heading_seq(ub));
    &&& r.name@ == name
    &&& r.category@ == category
    &&& if sha256_hex(module_content) == sha256_hex(upstream_content) {
        r.status == DriftStatus::Identical && r.changed_keys@.len() == 0
    } else {
        &&& frontmatter_match ==> r.changed_keys@.len() == 0
        &&& !frontmatter_match ==> strictly_sorted(views(r.changed_keys@)) && views(
            r.changed_keys@,
        ).to_set() == changed_key_set(mf, uf)
        &&& r.status == filter_status(
            raw_status(frontmatter_match, body_match),
            views(r.changed_keys@),
            ignored,
        )
    }
}

/// Compares a module file with its upstream copy: equal digests are
/// identical; otherwise frontmatter and heading-normalised bodies are
/// compared separately, changed keys are listed, and the ignore list
/// applies.
pub fn compare_file_content(
    name: &str,
    module_content: &str,
    upstream_content: &str,
    category: &str,
    ignored: &[String],
) -> (r: DriftEntry)
    ensures
        compared_entry(r, name@, module_content@, upstream_content@, category@, views(ignored@)),
{
    let full_match = eq(
        &chars_of(content_sha256(module_content).as_str()),
        &chars_of(content_sha256(upstream_content).as_str()),
    );
    if full_match {
        return DriftEntry {
            name: String::from_str(name),
            status: DriftStatus::Identical,
            category: String::from_str(category),
            changed_keys: Vec::new(),
        };
    }
    let (module_frontmatter, module_body) = split_parts(module_content);
    let (upstream_frontmatter, upstream_body) = split_parts(upstream_content);
    let normalized_upstream = string_of(&strip_heading(&chars_of(upstream_body.as_str())));
    let normalized_module = string_of(&strip_heading(&chars_of(module_body.as_str())));
    let frontmatter_match = eq(
        &chars_of(content_sha256(module_frontmatter.as_str()).as_str()),
        &chars_of(content_sha256(upstream_frontmatter.as_str()).as_str()),
    );
    let body_match = eq(
        &chars_of(content_sha256(normalized_module.as_str()).as_str()),
        &chars_of(content_sha256(normalized_upstream.as_str()).as_str()),
    );
    let changed_keys = if frontmatter_match {
        Vec::new()
    } else {
        diff_frontmatter_keys(module_frontmatter.as_str(), upstream_frontmatter.as_str())
    };
    let raw = if frontmatter_match && body_match {
        DriftStatus::Identical
    } else if body_match {
        DriftStatus::FrontmatterOnly
    } else if frontmatter_match {
        DriftStatus::BodyOnly
    } else {
        DriftStatus::Both
    };
    let status = apply_ignore_filter(raw, &changed_keys, ignored);
    DriftEntry {
        name: String::from_str(name),
        status,
        category: String::from_str(category),
        changed_keys,
    }
}

// ---------------------------------------------------------------------------
// Directory comparison

/// One name of the merged listings, with the module's and the upstream's
/// content for it (absent on the side that lacks the file).
pub type Paired = (Seq<char>, Option<Seq<char>>, Option<Seq<char>>);

/// Merges two listings of `(name, content)` by name, the way two sorted
/// maps are walked together: the smaller name comes first, and a name on
/// both sides is paired.
pub open spec fn pairing(ms: Seq<(String, String)>, us: Seq<(String, String)>) -> Seq<Paired>
    decreases ms.len() + us.len(),
{
    if ms.len() == 0 && us.len() == 0 {
        Seq::empty()
    } else if us.len() == 0 || (ms.len() > 0 && seq_lt(ms[0].0@, us[0].0@)) {
        seq![(ms[0].0@, Some(ms[0].1@), None)] + pairing(ms.drop_first(), us)
    } else if ms.len() == 0 || seq_lt(us[0].0@, ms[0].0@) {
        seq![(us[0].0@, None, Some(us[0].1@))] + pairing(ms, us.drop_first())
    } else {
        seq![(ms[0].0@, Some(ms[0].1@), Some(us[0].1@))] + pairing(ms.drop_first(), us.drop_first())
    }
}

/// The entry reported for one paired name.
pub open spec fn entry_matches(
    r: DriftEntry,
    p: Paired,
    category: Seq<char>,
    ignored: Seq<Seq<char>>,
) -> bool {
    match (p.1, p.2) {
        (Some(m), Some(u)) => compared_entry(r, p.0, m, u, category, ignored),
        (Some(_), None) => r.name@ == p.0 && r.status == DriftStatus::LocalOnly && r.category@
            == category && r.changed_keys@.len() == 0,
        (None, Some(_)) => r.name@ == p.0 && r.status == DriftStatus::UpstreamOnly
            && r.category@ == category && r.changed_keys@.len() == 0,
        (None, None) => false,
    }
}

/// The names of a listing.
pub open spec fn names_of(files: Seq<(String, String)>) -> Seq<Seq<char>> {
    files.map_values(|f: (String, String)| f.0@)
}

/// Compares the markdown files of one category: every name found on either
/// side yields one entry, in name order, compared when both sides have it
/// and marked local-only or upstream-only otherwise.
pub fn compare_listings(
    module_files: &[(String, String)],
    upstream_files: &[(String, String)],
    category: &str,
    ignored: &[String],
) -> (r: Vec<DriftEntry>)
    ensures
        r@.len() == pairing(module_files@, upstream_files@).len(),
        forall|k: int|
            0 <= k < r@.len() ==> entry_matches(
                #[trigger] r@[k],
                pairing(module_files@, upstream_files@)[k],
                category@,
                views(ignored@),
            ),
{
    let ghost all = pairing(module_files@, upstream_files@);
    let ghost mut done: Seq<Paired> = Seq::empty();
    let mut r: Vec<DriftEntry> = Vec::new();
    let mut i: usize = 0;
    let mut j: usize = 0;
    assert(module_files@.skip(0) =~= module_files@);
    assert(upstream_files@.skip(0) =~= upstream_files@);
    while i < module_files.len() || j < upstream_files.len()
        invariant
            i <= module_files.len(),
            j <= upstream_files.len(),
            all == pairing(module_files@, upstream_files@),
            all == done + pairing(module_files@.skip(i as int), upstream_files@.skip(j as int)),
            r@.len() == done.len(),
            forall|k: int|
                0 <= k < r@.len() ==> entry_matches(
                    #[trigger] r@[k],
                    done[k],
                    category@,
                    views(ignored@),
                ),
        decreases (module_files.len() - i) + (upstream_files.len() - j),
    {
        let ghost ms = module_files@.skip(i as int);
        let ghost us = upstream_files@.skip(j as int);
        proof {
            if i < module_files.len() {
                assert(ms.drop_first() =~= module_files@.skip(i + 1));
                assert(ms[0] == module_files@[i as int]);
            }
            if j < upstream_files.len() {
                assert(us.drop_first() =~= upstream_files@.skip(j + 1));
                assert(us[0] == upstream_files@[j as int]);
            }
        }
        let take_module = j >= upstream_files.len() || (i < module_files.len() && chars_lt(
            &chars_of(module_files[i].0.as_str()),
            &chars_of(upstream_files[j].0.as_str()),
        ));
        let take_upstream = !take_module && (i >= module_files.len() || chars_lt(
            &chars_of(upstream_files[j].0.as_str()),
            &chars_of(module_files[i].0.as_str()),
        ));
        let ghost step: Paired;
        if take_module {
            let e = DriftEntry {
                name: module_files[i].0.clone(),
                status: DriftStatus::LocalOnly,
                category: String::from_str(category),
                changed_keys: Vec::new(),
            };
            proof {
                step = (ms[0].0@, Some(ms[0].1@), None);
            }
            r.push(e);
            i = i + 1;
        } else if take_upstream {
            let e = DriftEntry {
                name: upstream_files[j].0.clone(),
                status: DriftStatus::UpstreamOnly,
                category: String::from_str(category),
                changed_keys: Vec::new(),
            };
            proof {
                step = (us[0].0@, None, Some(us[0].1@));
            }
            r.push(e);
            j = j + 1;
        } else {
            let e = compare_file_content(
                module_files[i].0.as_str(),
                module_files[i].1.as_str(),
                upstream_files[j].1.as_str(),
                category,
                ignored,
            );
            proof {
                step = (ms[0].0@, Some(ms[0].1@), Some(us[0].1@));
            }
            r.push(e);
            i = i + 1;
            j = j + 1;
        }
        proof {
            let nd = done.push(step);
            assert(all =~= nd + pairing(module_files@.skip(i as int), upstream_files@.skip(j as int)));
            assert forall|k: int| 0 <= k < r@.len() implies entry_matches(
                #[trigger] r@[k],
                nd[k],
                category@,
                views(ignored@),
            ) by {
                if k < done.len() {
                    assert(nd[k] == done[k]);
                }
            }
            done = nd;
        }
    }
    proof {
        assert(module_files@.skip(i as int).len() == 0);
        assert(upstream_files@.skip(j as int).len() == 0);
        assert(done =~= all);
    }
    r
}

/// The names a pairing reports, in order.
pub open spec fn paired_names(p: Seq<Paired>) -> Seq<Seq<char>> {
    p.map_values(|x: Paired| x.0)
}

/// Every name of a listing sorts after `lo`.
pub open spec fn all_after(names: Seq<Seq<char>>, lo: Seq<char>) -> bool {
    forall|i: int| 0 <= i < names.len() ==> seq_lt(lo, #[trigger] names[i])
}

/// When both listings are sorted by name (as directory maps are), the
/// comparison reports each name found on either side exactly once, in
/// sorted order.
pub proof fn lemma_pairing_sorted_union(ms: Seq<(String, String)>, us: Seq<(String, String)>)
    requires
        strictly_sorted(names_of(ms)),
        strictly_sorted(names_of(us)),
    ensures
        strictly_sorted(paired_names(pairing(ms, us))),
        paired_names(pairing(ms, us)).to_set() == names_of(ms).to_set().union(
            names_of(us).to_set(),
        ),
    decreases ms.len() + us.len(),
{
    let p = pairing(ms, us);
    if ms.len() == 0 && us.len() == 0 {
        assert(paired_names(p).to_set() =~= Set::empty());
        assert(names_of(ms).to_set() =~= Set::empty());
        assert(names_of(us).to_set() =~= Set::empty());
        return;
    }
    let take_m = us.len() == 0 || (ms.len() > 0 && seq_lt(ms[0].0@, us[0].0@));
    let take_u = !take_m && (ms.len() == 0 || seq_lt(us[0].0@, ms[0].0@));
    let ms2 = if take_m || !take_u { ms.drop_first() } else { ms };
    let us2 = if take_m { us } else { us.drop_first() };
    let head = if take_m || !take_u { ms[0].0@ } else { us[0].0@ };
    if ms.len() > 0 {
        assert(names_of(ms.drop_first()) =~= names_of(ms).drop_first());
    }
    if us.len() > 0 {
        assert(names_of(us.drop_first()) =~= names_of(us).drop_first());
    }
    lemma_sorted_tail(names_of(ms));
    lemma_sorted_tail(names_of(us));
    lemma_pairing_sorted_union(ms2, us2);
    let rest = paired_names(pairing(ms2, us2));
    assert(paired_names(p) =~= seq![head] + rest);
    if !take_m && !take_u {
        lemma_lt_total(ms[0].0@, us[0].0@);
    }
    // every later name sorts after the head
    assert forall|x: Seq<char>| rest.to_set().contains(x) implies seq_lt(head, x) by {
        assert(rest.to_set().contains(x));
        assert(names_of(ms2).to_set().union(names_of(us2).to_set()).contains(x));
        if names_of(ms2).to_set().contains(x) {
            let i = choose|i: int| 0 <= i < names_of(ms2).len() && names_of(ms2)[i] == x;
            if take_m || !take_u {
                assert(names_of(ms)[i + 1] == x);
                assert(seq_lt(names_of(ms)[0], names_of(ms)[i + 1]));
            } else {
                assert(names_of(ms)[i] == x);
                if i > 0 {
                    assert(seq_lt(names_of(ms)[0], names_of(ms)[i]));
                    lemma_lt_transitive(head, names_of(ms)[0], x);
                }
            }
        } else {
            let i = choose|i: int| 0 <= i < names_of(us2).len() && names_of(us2)[i] == x;
            if take_m {
                assert(names_of(us)[i] == x);
                if i > 0 {
                    assert(seq_lt(names_of(us)[0], names_of(us)[i]));
                    lemma_lt_transitive(head, names_of(us)[0], x);
                }
            } else {
                assert(names_of(us)[i + 1] == x);
                assert(seq_lt(names_of(us)[0], names_of(us)[i + 1]));
                if !take_u {
                    assert(head == names_of(us)[0]);
                }
            }
        }
    }
    assert forall|a: int, b: int| 0 <= a < b < paired_names(p).len() implies seq_lt(
        #[trigger] paired_names(p)[a],
        #[trigger] paired_names(p)[b],
    ) by {
        if a == 0 {
            assert(paired_names(p)[b] == rest[b - 1]);
            assert(rest.to_set().contains(rest[b - 1]));
        } else {
            assert(paired_names(p)[a] == rest[a - 1]);
            assert(paired_names(p)[b] == rest[b - 1]);
        }
    }
    lemma_cons_to_set(head, rest);
    if ms.len() > 0 && (take_m || !take_u) {
        assert(names_of(ms) =~= seq![ms[0].0@] + names_of(ms2));
        lemma_cons_to_set(ms[0].0@, names_of(ms2));
    } else {
        assert(names_of(ms) =~= names_of(ms2));
    }
    if us.len() > 0 && !take_m {
        assert(names_of(us) =~= seq![us[0].0@] + names_of(us2));
        lemma_cons_to_set(us[0].0@, names_of(us2));
    } else {
        assert(names_of(us) =~= names_of(us2));
    }
    assert(paired_names(p).to_set() =~= names_of(ms).to_set().union(names_of(us).to_set()));
}

proof fn lemma_cons_to_set(head: Seq<char>, rest: Seq<Seq<char>>)
    ensures
        (seq![head] + rest).to_set() == rest.to_set().insert(head),
{
    let whole = seq![head] + rest;
    assert forall|x: Seq<char>| whole.to_set().contains(x) implies rest.to_set().insert(head).contains(x) by {
        let i = choose|i: int| 0 <= i < whole.len() && whole[i] == x;
        if i > 0 {
            assert(rest[i - 1] == x);
        }
    }
    assert forall|x: Seq<char>| rest.to_set().insert(head).contains(x) implies whole.to_set().contains(x) by {
        if x == head {
            assert(whole[0] == x);
        } else {
            let i = choose|i: int| 0 <= i < rest.len() && rest[i] == x;
            assert(whole[i + 1] == x);
        }
    }
    assert(whole.to_set() =~= rest.to_set().insert(head));
}

proof fn lemma_sorted_tail(s: Seq<Seq<char>>)
    requires
        strictly_sorted(s),
    ensures
        s.len() > 0 ==> strictly_sorted(s.drop_first()),
{
    if s.len() > 0 {
        assert forall|i: int, j: int| 0 <= i < j < s.drop_first().len() implies seq_lt(
            #[trigger] s.drop_first()[i],
            #[trigger] s.drop_first()[j],
        ) by {
            assert(s.drop_first()[i] == s[i + 1]);
            assert(s.drop_first()[j] == s[j + 1]);
        }
    }
}

/// A verdict that counts as drift for the exit code.
pub open spec fn is_drift(s: DriftStatus) -> bool {
    s == DriftStatus::FrontmatterOnly || s == DriftStatus::BodyOnly || s == DriftStatus::Both
        || s == DriftStatus::UpstreamOnly
}

/// Whether any entry drifted (the command then exits with status 1).
pub fn has_drift(entries: &[DriftEntry]) -> (r: bool)
    ensures
        r == exists|i: int| 0 <= i < entries@.len() && is_drift(#[trigger] entries@[i].status),
{
    let mut i: usize = 0;
    while i < entries.len()
        invariant
            i <= entries.len(),
            forall|j: int| 0 <= j < i ==> !is_drift(#[trigger] entries@[j].status),
        decreases entries.len() - i,
    {
        let s = entries[i].status;
        if s == DriftStatus::FrontmatterOnly || s == DriftStatus::BodyOnly || s
            == DriftStatus::Both || s == DriftStatus::UpstreamOnly {
            assert(is_drift(entries@[i as int].status));
            return true;
        }
        i = i + 1;
    }
    false
}

/// A file compared with an identical copy is reported identical, with no
/// changed keys, whatever the ignore list holds.
pub proof fn lemma_same_content_identical(
    r: DriftEntry,
    name: Seq<char>,
    content: Seq<char>,
    category: Seq<char>,
    ignored: Seq<Seq<char>>,
)
    requires
        compared_entry(r, name, content, content, category, ignored),
    ensures
        r.status == DriftStatus::Identical,
        r.changed_keys@.len() == 0,
{
}

/// A difference in the leading `# Title` heading alone (same frontmatter,
/// same body once the heading is stripped) is not drift.
pub proof fn lemma_heading_only_difference_is_identical(
    r: DriftEntry,
    name: Seq<char>,
    module_content: Seq<char>,
    upstream_content: Seq<char>,
    category: Seq<char>,
    ignored: Seq<Seq<char>>,
)
    requires
        compared_entry(r, name, module_content, upstream_content, category, ignored),
        parts(module_content).0 == parts(upstream_content).0,
        strip_heading_seq(parts(module_content).1) == strip_heading_seq(parts(upstream_content).1),
    ensures
        r.status == DriftStatus::Identical,
{
}

/// Discounting ignored keys never adds drift: the filtered status is the
/// raw status, `Expected`, or one side of a two-sided drift, and an empty
/// ignore list changes nothing.
pub proof fn lemma_filter_never_adds_drift(
    raw: DriftStatus,
    changed: Seq<Seq<char>>,
    ignored: Seq<Seq<char>>,
)
    ensures
        ignored.len() == 0 ==> filter_status(raw, changed, ignored) == raw,
        filter_status(raw, changed, ignored) == raw || filter_status(raw, changed, ignored)
            == DriftStatus::Expected || (raw == DriftStatus::Both && (filter_status(
            raw,
            changed,
            ignored,
        ) == DriftStatus::BodyOnly || filter_status(raw, changed, ignored)
            == DriftStatus::FrontmatterOnly)),
{
}

/// An ignore list hides frontmatter drift only when it names every changed
/// key, and body drift only when it names `body`; a one-sided drift is
/// either hidden or left as it is, and a two-sided drift loses only a side
/// that is fully ignored.
pub proof fn lemma_ignore_hides_only_named_parts(
    raw: DriftStatus,
    changed: Seq<Seq<char>>,
    ignored: Seq<Seq<char>>,
)
    ensures
        raw == DriftStatus::FrontmatterOnly && filter_status(raw, changed, ignored) == DriftStatus::Expected
            ==> changed.len() > 0 && forall|i: int| 0 <= i < changed.len() ==> ignored.contains(#[trigger] changed[i]),
        raw == DriftStatus::FrontmatterOnly ==> (filter_status(raw, changed, ignored) == DriftStatus::Expected
            || filter_status(raw, changed, ignored) == raw),
        raw == DriftStatus::BodyOnly && filter_status(raw, changed, ignored) == DriftStatus::Expected
            ==> ignored.contains(seq!['b', 'o', 'd', 'y']),
        raw == DriftStatus::BodyOnly ==> (filter_status(raw, changed, ignored) == DriftStatus::Expected
            || filter_status(raw, changed, ignored) == raw),
        raw == DriftStatus::Both && (filter_status(raw, changed, ignored) == DriftStatus::Expected
            || filter_status(raw, changed, ignored) == DriftStatus::BodyOnly) ==> changed.len() > 0
            && forall|i: int| 0 <= i < changed.len() ==> ignored.contains(#[trigger] changed[i]),
        raw == DriftStatus::Both && (filter_status(raw, changed, ignored) == DriftStatus::Expected
            || filter_status(raw, changed, ignored) == DriftStatus::FrontmatterOnly) ==> ignored.contains(
            seq!['b', 'o', 'd', 'y'],
        ),
        !ignored.contains(seq!['b', 'o', 'd', 'y']) && (changed.len() == 0 || exists|i: int|
            0 <= i < changed.len() && !ignored.contains(#[trigger] changed[i])) ==> filter_status(
            raw,
            changed,
            ignored,
        ) == raw,
{
    assert(body_key() =~= seq!['b', 'o', 'd', 'y']);
}

} // verus!
