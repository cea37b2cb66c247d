//! Provider configuration: assembly rules, model tables, tool-name
//! remapping and qualifier validation.

use vstd::prelude::*;
use crate::text::{chars_of, contains, contains_seq, eq, extend, lit, string_of};
use crate::order::{chars_lt, seq_lt, strictly_sorted, lemma_lt_total, lemma_lt_transitive};

verus! {

/// A per-provider transform applied during assembly.
#[derive(Debug, Clone, Copy, PartialEq, Eq, Structural)]
pub enum AssemblyRule {
    KebabCase,
    RemapTools,
    AgentsToToml,
}

/// The rule named `name`, if it is one of the known rule names.
pub open spec fn rule_named(name: Seq<char>) -> Option<AssemblyRule> {
    if name == "kebab-case"@ {
        Some(AssemblyRule::KebabCase)
    } else if name == "remap-tools"@ {
        Some(AssemblyRule::RemapTools)
    } else if name == "agents-to-toml"@ {
        Some(AssemblyRule::AgentsToToml)
    } else {
        None
    }
}

/// The error message for an unknown rule name.
pub open spec fn unknown_rule_message(name: Seq<char>) -> Seq<char> {
    "unknown assembly rule: '"@ + name + "'"@
}

impl AssemblyRule {
    /// Parses a rule name; unknown names are an error naming the rule.
    pub fn from_name(name: &str) -> (r: Result<AssemblyRule, String>)
        ensures
            match r {
                Ok(rule) => rule_named(name@) == Some(rule),
                Err(msg) => rule_named(name@) is None && msg@ == unknown_rule_message(name@),
            },
    {
        let n = chars_of(name);
        if eq(&n, &lit("kebab-case")) {
            Ok(AssemblyRule::KebabCase)
        } else if eq(&n, &lit("remap-tools")) {
            Ok(AssemblyRule::RemapTools)
        } else if eq(&n, &lit("agents-to-toml")) {
            Ok(AssemblyRule::AgentsToToml)
        } else {
            let mut msg = lit("unknown assembly rule: '");
            extend(&mut msg, &n);
            extend(&mut msg, &lit("'"));
            Err(string_of(&msg))
        }
    }
}

/// A provider's deployment configuration.
#[derive(Debug, Clone)]
pub struct ProviderConfig {
    pub target: String,
    pub assembly: Option<Vec<String>>,
    pub deploy: Option<Vec<String>>,
}

/// Model identifiers per provider, one entry per provider name.
pub type ModelTable = Vec<(String, Vec<String>)>;

/// The model identifiers listed for `provider` (the first entry with that
/// name).
pub open spec fn models_for(models: Seq<(String, Vec<String>)>, provider: Seq<char>) -> Option<
    Seq<String>,
>
    decreases models.len(),
{
    if models.len() == 0 {
        None
    } else if models[0].0@ == provider {
        Some(models[0].1@)
    } else {
        models_for(models.drop_first(), provider)
    }
}

/// Finds the model list of a provider.
pub fn lookup_models(models: &[(String, Vec<String>)], provider: &[char]) -> (r: Option<usize>)
    ensures
        match r {
            Some(i) => i < models@.len() && models_for(models@, provider@) == Some(
                models@[i as int].1@,
            ),
            None => models_for(models@, provider@) is None,
        },
{
    let mut i: usize = 0;
    assert(models@.skip(0) =~= models@);
    while i < models.len()
        invariant
            i <= models.len(),
            models_for(models@.skip(i as int), provider@) == models_for(models@, provider@),
        decreases models.len() - i,
    {
        proof {
            assert(models@.skip(i as int)[0] == models@[i as int]);
            assert(models@.skip(i as int).drop_first() =~= models@.skip(i + 1));
        }
        if eq(&chars_of(models[i].0.as_str()), provider) {
            return Some(i);
        }
        i = i + 1;
    }
    assert(models@.skip(i as int) =~= Seq::<(String, Vec<String>)>::empty());
    None
}

/// A qualifier directory applies to a provider when it is the provider's
/// own name, or a substring of one of the provider's model identifiers.
pub open spec fn qualifier_matches(
    qualifier: Seq<char>,
    provider: Seq<char>,
    models: Seq<(String, Vec<String>)>,
) -> bool {
    qualifier == provider || match models_for(models, provider) {
        Some(ids) => exists|k: int| 0 <= k < ids.len() && contains_seq(ids[k]@, qualifier),
        None => false,
    }
}

/// Whether a qualifier directory matches a provider (see
/// `qualifier_matches`).
pub fn qualifier_matches_provider(
    qualifier: &str,
    provider_name: &str,
    models: &[(String, Vec<String>)],
) -> (r: bool)
    ensures
        r == qualifier_matches(qualifier@, provider_name@, models@),
{
    let q = chars_of(qualifier);
    let p = chars_of(provider_name);
    if eq(&q, &p) {
        return true;
    }
    match lookup_models(models, &p) {
        None => false,
        Some(i) => {
            let ids = &models[i].1;
            let mut k: usize = 0;
            while k < ids.len()
                invariant
                    k <= ids.len(),
                    i < models.len(),
                    ids@ == models@[i as int].1@,
                    models_for(models@, provider_name@) == Some(ids@),
                    q@ == qualifier@,
                    p@ == provider_name@,
                    q@ != p@,
                    forall|j: int| 0 <= j < k ==> !contains_seq(ids@[j]@, q@),
                decreases ids.len() - k,
            {
                if contains(&chars_of(ids[k].as_str()), &q) {
                    let ghost found = models_for(models@, provider_name@)->Some_0;
                    assert(found == ids@);
                    assert(0 <= k < found.len() && contains_seq(found[k as int]@, qualifier@));
                    return true;
                }
                k = k + 1;
            }
            false
        },
    }
}

/// A qualifier is valid when it is `user`, a provider name, or a known
/// model identifier.
pub open spec fn qualifier_valid(qualifier: Seq<char>, models: Seq<(String, Vec<String>)>) -> bool {
    qualifier == "user"@ || (exists|i: int| 0 <= i < models.len() && models[i].0@ == qualifier)
        || (exists|i: int, k: int|
        0 <= i < models.len() && 0 <= k < models[i].1@.len() && models[i].1@[k]@ == qualifier)
}

/// The error message for an unknown qualifier.
pub open spec fn unknown_qualifier_message(q: Seq<char>) -> Seq<char> {
    "unknown qualifier '"@ + q + "': not a provider or model"@
}

/// Validates a qualifier directory name (see `qualifier_valid`).
pub fn validate_qualifier(qualifier_name: &str, models: &[(String, Vec<String>)]) -> (r: Result<
    (),
    String,
>)
    ensures
        r is Ok <==> qualifier_valid(qualifier_name@, models@),
        r matches Err(msg) ==> msg@ == unknown_qualifier_message(qualifier_name@),
{
    let q = chars_of(qualifier_name);
    if eq(&q, &lit("user")) {
        return Ok(());
    }
    let mut i: usize = 0;
    while i < models.len()
        invariant
            i <= models.len(),
            q@ == qualifier_name@,
            forall|j: int| 0 <= j < i ==> models@[j].0@ != q@,
        decreases models.len() - i,
    {
        if eq(&chars_of(models[i].0.as_str()), &q) {
            return Ok(());
        }
        i = i + 1;
    }
    let mut i: usize = 0;
    while i < models.len()
        invariant
            i <= models.len(),
            q@ == qualifier_name@,
            forall|j: int, k: int|
                0 <= j < i && 0 <= k < models@[j].1@.len() ==> models@[j].1@[k]@ != q@,
        decreases models.len() - i,
    {
        let ids = &models[i].1;
        let mut k: usize = 0;
        while k < ids.len()
            invariant
                k <= ids.len(),
                i < models.len(),
                q@ == qualifier_name@,
                ids@ == models@[i as int].1@,
                forall|m: int| 0 <= m < k ==> ids@[m]@ != q@,
            decreases ids.len() - k,
        {
            if eq(&chars_of(ids[k].as_str()), &q) {
                assert(0 <= i < models@.len() && 0 <= k < models@[i as int].1@.len()
                    && models@[i as int].1@[k as int]@ == qualifier_name@);
                return Ok(());
            }
            k = k + 1;
        }
        i = i + 1;
    }
    let mut msg = lit("unknown qualifier '");
    extend(&mut msg, &q);
    extend(&mut msg, &lit("': not a provider or model"));
    Err(string_of(&msg))
}

/// The value mapped to `key` (the first pair with that key).
pub open spec fn lookup_pair(pairs: Seq<(String, String)>, key: Seq<char>) -> Option<Seq<char>>
    decreases pairs.len(),
{
    if pairs.len() == 0 {
        None
    } else if pairs[0].0@ == key {
        Some(pairs[0].1@)
    } else {
        lookup_pair(pairs.drop_first(), key)
    }
}

/// Maps a tool name through the provider's mappings; unmapped names stay.
pub fn map_tool(tool: &str, mappings: &[(String, String)]) -> (r: String)
    ensures
        r@ == match lookup_pair(mappings@, tool@) {
            Some(m) => m,
            None => tool@,
        },
{
    let t = chars_of(tool);
    let mut i: usize = 0;
    assert(mappings@.skip(0) =~= mappings@);
    while i < mappings.len()
        invariant
            i <= mappings.len(),
            t@ == tool@,
            lookup_pair(mappings@.skip(i as int), tool@) == lookup_pair(mappings@, tool@),
        decreases mappings.len() - i,
    {
        proof {
            assert(mappings@.skip(i as int)[0] == mappings@[i as int]);
            assert(mappings@.skip(i as int).drop_first() =~= mappings@.skip(i + 1));
        }
        if eq(&chars_of(mappings[i].0.as_str()), &t) {
            return mappings[i].1.clone();
        }
        i = i + 1;
    }
    assert(mappings@.skip(i as int) =~= Seq::<(String, String)>::empty());
    String::from_str(tool)
}

// ---------------------------------------------------------------------------
// Loading the YAML tables

/// `models.yaml` read as a map from provider name to model identifiers:
/// the entries in key order, or the parser's error message.
pub uninterp spec fn yaml_string_lists(text: Seq<char>) -> Result<
    Seq<(Seq<char>, Seq<Seq<char>>)>,
    Seq<char>,
>;

/// `remap-tools.yaml` read as a map from provider name to a map from tool
/// name to replacement: the entries in key order, or the parser's error.
pub uninterp spec fn yaml_string_maps(text: Seq<char>) -> Result<
    Seq<(Seq<char>, Seq<(Seq<char>, Seq<char>)>)>,
    Seq<char>,
>;

/// The views of a model table.
pub open spec fn model_views(v: Seq<(String, Vec<String>)>) -> Seq<(Seq<char>, Seq<Seq<char>>)> {
    v.map_values(
        |e: (String, Vec<String>)| (e.0@, e.1@.map_values(|m: String| m@)),
    )
}

/// The views of a list of string pairs.
pub open spec fn pair_views(v: Seq<(String, String)>) -> Seq<(Seq<char>, Seq<char>)> {
    v.map_values(|e: (String, String)| (e.0@, e.1@))
}

/// The views of a table of string maps.
pub open spec fn map_table_views(v: Seq<(String, Vec<(String, String)>)>) -> Seq<
    (Seq<char>, Seq<(Seq<char>, Seq<char>)>),
> {
    v.map_values(|e: (String, Vec<(String, String)>)| (e.0@, pair_views(e.1@)))
}

/// Parses a YAML map of string lists with `serde_yaml::from_str` into a
/// `BTreeMap<String, Vec<String>>`.
///
/// Trusted: `Ok` holds `yaml_string_lists` of the text, its entries in
/// ascending key order (as a `BTreeMap` is walked); `Err` holds the
/// parser's message.
#[verifier::external_body]
fn parse_string_lists(text: &str) -> (r: Result<Vec<(String, Vec<String>)>, String>)
    ensures
        match r {
            Ok(v) => yaml_string_lists(text@) == Ok::<_, Seq<char>>(model_views(v@)) && strictly_sorted(
                v@.map_values(|e: (String, Vec<String>)| e.0@),
            ),
            Err(e) => yaml_string_lists(text@) == Err::<Seq<(Seq<char>, Seq<Seq<char>>)>, _>(e@),
        },
{
    serde_yaml::from_str::<std::collections::BTreeMap<String, Vec<String>>>(text).map(
        |m| m.into_iter().collect(),
    ).map_err(|e| e.to_string())
}

/// Parses a YAML map of string maps with `serde_yaml::from_str` into a
/// `BTreeMap<String, BTreeMap<String, String>>`.
///
/// Trusted: `Ok` holds `yaml_string_maps` of the text, outer and inner
/// entries in ascending key order; `Err` holds the parser's message.
#[verifier::external_body]
fn parse_string_maps(text: &str) -> (r: Result<Vec<(String, Vec<(String, String)>)>, String>)
    ensures
        match r {
            Ok(v) => yaml_string_maps(text@) == Ok::<_, Seq<char>>(map_table_views(v@)),
            Err(e) => yaml_string_maps(text@) == Err::<
                Seq<(Seq<char>, Seq<(Seq<char>, Seq<char>)>)>,
                _,
            >(e@),
        },
{
    serde_yaml::from_str::<
        std::collections::BTreeMap<String, std::collections::BTreeMap<String, String>>,
    >(text).map(|m| m.into_iter().map(|(k, v)| (k, v.into_iter().collect())).collect()).map_err(
        |e| e.to_string(),
    )
}

/// The error for a YAML table that failed to parse.
pub open spec fn parse_failure(label: Seq<char>, err: Seq<char>) -> Seq<char> {
    "failed to parse "@ + label + ": "@ + err
}

fn parse_failure_message(label: &str, err: &str) -> (r: String)
    ensures
        r@ == parse_failure(label@, err@),
{
    let mut m = lit("failed to parse ");
    extend(&mut m, &chars_of(label));
    extend(&mut m, &lit(": "));
    extend(&mut m, &chars_of(err));
    string_of(&m)
}

/// Reads the model table from `models.yaml` text.
pub fn load_models(models_content: &str) -> (r: Result<ModelTable, String>)
    ensures
        match yaml_string_lists(models_content@) {
            Ok(t) => r matches Ok(v) && model_views(v@) == t,
            Err(e) => r matches Err(m) && m@ == parse_failure("models"@, e),
        },
{
    match parse_string_lists(models_content) {
        Ok(v) => Ok(v),
        Err(e) => Err(parse_failure_message("models", e.as_str())),
    }
}

/// The text of an optional string.
pub open spec fn text_of(t: Option<&str>) -> Option<Seq<char>> {
    match t {
        Some(s) => Some(s@),
        None => None,
    }
}

/// The model table the tools use: the module's `models.yaml` when there is
/// one and it parses; else the built-in table when it parses; else none.
pub open spec fn chosen_models(module: Option<Seq<char>>, builtin: Option<Seq<char>>) -> Seq<
    (Seq<char>, Seq<Seq<char>>),
> {
    let from_module = match module {
        Some(t) => yaml_string_lists(t),
        None => Err(Seq::empty()),
    };
    let from_builtin = match builtin {
        Some(t) => yaml_string_lists(t),
        None => Err(Seq::empty()),
    };
    match from_module {
        Ok(v) => v,
        Err(_) => match from_builtin {
            Ok(v) => v,
            Err(_) => Seq::empty(),
        },
    }
}

/// Chooses the model table (see `chosen_models`): `module` is the text of
/// the module's `models.yaml` when it could be read, `builtin` the text of
/// the built-in table when there is one.
pub fn choose_models(module: Option<&str>, builtin: Option<&str>) -> (r: ModelTable)
    ensures
        model_views(r@) == chosen_models(text_of(module), text_of(builtin)),
{
    let parsed = match module {
        Some(t) => load_models(t),
        None => Err(String::new()),
    };
    match parsed {
        Ok(v) => v,
        Err(_) => {
            let fallback = match builtin {
                Some(t) => load_models(t),
                None => Err(String::new()),
            };
            match fallback {
                Ok(v) => v,
                Err(_) => {
                    let empty: ModelTable = Vec::new();
                    assert(model_views(empty@) =~= Seq::empty());
                    empty
                },
            }
        },
    }
}

/// The replacement table for `provider` in a parsed remap table (empty
/// when the provider has none).
pub open spec fn mappings_for(
    table: Seq<(Seq<char>, Seq<(Seq<char>, Seq<char>)>)>,
    provider: Seq<char>,
) -> Seq<(Seq<char>, Seq<char>)>
    decreases table.len(),
{
    if table.len() == 0 {
        Seq::empty()
    } else if table[0].0 == provider {
        table[0].1
    } else {
        mappings_for(table.drop_first(), provider)
    }
}

/// Reads one provider's tool-name mappings from `remap-tools.yaml` text.
pub fn load_tool_mappings(remap_content: &str, provider_name: &str) -> (r: Result<
    Vec<(String, String)>,
    String,
>)
    ensures
        match yaml_string_maps(remap_content@) {
            Ok(t) => r matches Ok(v) && pair_views(v@) == mappings_for(t, provider_name@),
            Err(e) => r matches Err(m) && m@ == parse_failure("remap-tools"@, e),
        },
{
    let table = match parse_string_maps(remap_content) {
        Ok(t) => t,
        Err(e) => {
            return Err(parse_failure_message("remap-tools", e.as_str()));
        },
    };
    let ghost tv = map_table_views(table@);
    let p = chars_of(provider_name);
    let mut i: usize = 0;
    assert(tv.skip(0) =~= tv);
    while i < table.len()
        invariant
            i <= table.len(),
            tv == map_table_views(table@),
            yaml_string_maps(remap_content@) == Ok::<_, Seq<char>>(tv),
            p@ == provider_name@,
            mappings_for(tv.skip(i as int), provider_name@) == mappings_for(tv, provider_name@),
        decreases table.len() - i,
    {
        proof {
            assert(tv.skip(i as int)[0] == tv[i as int]);
            assert(tv.skip(i as int).drop_first() =~= tv.skip(i + 1));
        }
        if eq(&chars_of(table[i].0.as_str()), &p) {
            let ghost at = table@[i as int];
            assert(tv[i as int] == (at.0@, pair_views(at.1@)));
            let mut table = table;
            let entry = table.remove(i);
            assert(entry == at);
            assert(pair_views(entry.1@) == mappings_for(tv, provider_name@));
            assert(yaml_string_maps(remap_content@) == Ok::<_, Seq<char>>(tv));
            return Ok(entry.1);
        }
        i = i + 1;
    }
    assert(tv.skip(i as int).len() == 0);
    Ok(Vec::new())
}

/// The provider table the tools use: the module's own configuration when
/// it parsed, else the built-in defaults.
pub open spec fn chosen_providers<T>(
    module: Result<T, Seq<char>>,
    embedded: Result<T, Seq<char>>,
) -> Result<T, Seq<char>> {
    match module {
        Ok(p) => Ok(p),
        Err(_) => match embedded {
            Ok(p) => Ok(p),
            Err(e) => Err(
                "failed to load embedded provider config: "@ + parse_failure("providers"@, e),
            ),
        },
    }
}

/// The views of a parse outcome whose error is a message.
pub open spec fn err_view<T>(r: Result<T, String>) -> Result<T, Seq<char>> {
    match r {
        Ok(v) => Ok(v),
        Err(e) => Err(e@),
    }
}

/// Chooses between the module's provider table and the built-in one (see
/// `chosen_providers`); each argument is a YAML parse of the `providers:`
/// section, with the parser's message on failure.
pub fn load_providers(
    module: Result<Vec<(String, ProviderConfig)>, String>,
    embedded: Result<Vec<(String, ProviderConfig)>, String>,
) -> (r: Result<Vec<(String, ProviderConfig)>, String>)
    ensures
        err_view(r) == chosen_providers(err_view(module), err_view(embedded)),
{
    match module {
        Ok(p) => Ok(p),
        Err(_) => match embedded {
            Ok(p) => Ok(p),
            Err(e) => {
                let mut m = lit("failed to load embedded provider config: ");
                extend(&mut m, &chars_of(parse_failure_message("providers", e.as_str()).as_str()));
                Err(string_of(&m))
            },
        },
    }
}

/// A provider name with its target, as plain text.
pub open spec fn target_view(e: (String, String)) -> (Seq<char>, Seq<char>) {
    (e.0@, e.1@)
}

/// No name of the list sorts after a later one.
pub open spec fn sorted_by_name(v: Seq<(String, String)>) -> bool {
    forall|i: int, j: int| 0 <= i < j < v.len() ==> !seq_lt(#[trigger] v[j].0@, #[trigger] v[i].0@)
}

/// Provider names with their deployment targets, sorted by name.
pub fn provider_targets(providers: &[(String, ProviderConfig)]) -> (r: Vec<(String, String)>)
    ensures
        sorted_by_name(r@),
        r@.map_values(|e: (String, String)| target_view(e)).to_multiset() == providers@.map_values(
            |e: (String, ProviderConfig)| (e.0@, e.1.target@),
        ).to_multiset(),
{
    broadcast use vstd::seq_lib::to_multiset_insert;
    let ghost src = providers@.map_values(|e: (String, ProviderConfig)| (e.0@, e.1.target@));
    let mut r: Vec<(String, String)> = Vec::new();
    let mut i: usize = 0;
    assert(r@.map_values(|e: (String, String)| target_view(e)) =~= src.take(0));
    while i < providers.len()
        invariant
            i <= providers.len(),
            src == providers@.map_values(|e: (String, ProviderConfig)| (e.0@, e.1.target@)),
            sorted_by_name(r@),
            r@.map_values(|e: (String, String)| target_view(e)).to_multiset() == src.take(
                i as int,
            ).to_multiset(),
        decreases providers.len() - i,
    {
        let name = providers[i].0.clone();
        let target = providers[i].1.target.clone();
        let mut p: usize = 0;
        while p < r.len() && chars_lt(&chars_of(r[p].0.as_str()), &chars_of(name.as_str()))
            invariant
                p <= r.len(),
                forall|q: int| 0 <= q < p ==> seq_lt(#[trigger] r@[q].0@, name@),
            decreases r.len() - p,
        {
            p = p + 1;
        }
        let ghost before = r@;
        proof {
            assert(p < r.len() ==> !seq_lt(r@[p as int].0@, name@));
        }
        r.insert(p, (name, target));
        proof {
            assert(r@ == before.insert(p as int, (name, target)));
            assert forall|x: int, y: int| 0 <= x < y < r@.len() implies !seq_lt(
                #[trigger] r@[y].0@,
                #[trigger] r@[x].0@,
            ) by {
                if y < p {
                    assert(r@[x] == before[x] && r@[y] == before[y]);
                } else if y == p {
                    assert(r@[x] == before[x]);
                    lemma_lt_total(name@, before[x].0@);
                } else if x == p {
                    assert(r@[y] == before[y - 1]);
                    if seq_lt(before[y - 1].0@, name@) {
                        if y - 1 > p {
                            lemma_lt_total(before[p as int].0@, before[y - 1].0@);
                            if seq_lt(before[p as int].0@, before[y - 1].0@) {
                                lemma_lt_transitive(
                                    before[p as int].0@,
                                    before[y - 1].0@,
                                    name@,
                                );
                            }
                        }
                    }
                } else if x < p {
                    assert(r@[x] == before[x] && r@[y] == before[y - 1]);
                    if y - 1 >= p {
                        if seq_lt(before[y - 1].0@, before[x].0@) {
                            assert(seq_lt(before[x].0@, name@));
                            lemma_lt_transitive(before[y - 1].0@, before[x].0@, name@);
                            if y - 1 > p {
                                lemma_lt_total(before[p as int].0@, before[y - 1].0@);
                                if seq_lt(before[p as int].0@, before[y - 1].0@) {
                                    lemma_lt_transitive(
                                        before[p as int].0@,
                                        before[y - 1].0@,
                                        name@,
                                    );
                                }
                            }
                        }
                    }
                } else {
                    assert(r@[x] == before[x - 1] && r@[y] == before[y - 1]);
                }
            }
            assert(r@.map_values(|e: (String, String)| target_view(e)) =~= before.map_values(
                |e: (String, String)| target_view(e),
            ).insert(p as int, (name@, target@)));
            assert(src.take(i + 1) =~= src.take(i as int).push(src[i as int]));
            assert(src.take(i as int).push(src[i as int]) =~= src.take(i as int).insert(
                i as int,
                src[i as int],
            ));
            assert(src[i as int] == (name@, target@));
            let mb = before.map_values(|e: (String, String)| target_view(e));
            vstd::seq_lib::to_multiset_insert(mb, p as int, (name@, target@));
            vstd::seq_lib::to_multiset_insert(src.take(i as int), i as int, src[i as int]);
        }
        i = i + 1;
    }
    assert(src.take(providers.len() as int) =~= src);
    r
}

} // verus!
