//! `package.json` manifests: entry points, and the conditional targets of
//! `exports` and `imports` maps.
use vstd::prelude::*;

use crate::alias::{apply_alias_target, apply_captures, match_alias, match_alias_spec, positions, wildcard_order, wildcard_order_exec};
use crate::collections::{contains_str, str_views};
use crate::paths::{join_clean, join_clean_spec, parent, parent_spec};
use crate::text::{chars_of, find_char, first_pos, owned, starts_with, str_contains_char, str_eq, str_starts_with, str_starts_with_char};

verus! {

/// A JSON value, object entries in the order the parser yields them.
#[derive(Debug)]
pub enum JsonValue {
    Null,
    Bool(bool),
    Number(String),
    Str(String),
    Array(Vec<JsonValue>),
    Object(Vec<(String, JsonValue)>),
}

/// The value of the first entry named `key`.
pub open spec fn entry_spec(entries: Seq<(String, JsonValue)>, key: Seq<char>) -> Option<JsonValue>
    decreases entries.len(),
{
    if entries.len() == 0 {
        None
    } else if entries[0].0@ == key {
        Some(entries[0].1)
    } else {
        entry_spec(entries.skip(1), key)
    }
}

/// `s` without repeated elements, first occurrences kept in order.
pub open spec fn dedupe_spec(s: Seq<Seq<char>>) -> Seq<Seq<char>>
    decreases s.len(),
{
    if s.len() == 0 {
        s
    } else {
        let d = dedupe_spec(s.drop_last());
        if d.contains(s.last()) { d } else { d.push(s.last()) }
    }
}

/// The condition names tried before any custom condition, in order.
pub open spec fn source_conditions() -> Seq<Seq<char>> {
    seq![seq!['d', 'e', 'v', 'e', 'l', 'o', 'p', 'm', 'e', 'n', 't'], seq!['d', 'e', 'v'], seq!['s', 'o', 'u', 'r', 'c', 'e'], seq!['t', 'y', 'p', 'e', 's']]
}

/// The runtime fallback condition names, tried last, in order.
pub open spec fn runtime_conditions() -> Seq<Seq<char>> {
    seq![seq!['i', 'm', 'p', 'o', 'r', 't'], seq!['r', 'e', 'q', 'u', 'i', 'r', 'e'], seq!['d', 'e', 'f', 'a', 'u', 'l', 't']]
}

/// A condition name that is neither a source nor a runtime condition.
pub open spec fn is_custom_condition(key: Seq<char>) -> bool {
    !source_conditions().contains(key) && !runtime_conditions().contains(key)
}

/// The file targets of an `exports`/`imports` value, most source-like first:
/// a string is its own target; an array concatenates its members' targets;
/// an object tries the source conditions, then custom conditions in entry
/// order, then the runtime conditions, keeping each target once.
pub open spec fn cond_targets(v: JsonValue) -> Seq<Seq<char>>
    decreases v, 0nat,
{
    match v {
        JsonValue::Str(p) => seq![p@],
        JsonValue::Array(items) => list_targets(items@),
        JsonValue::Object(entries) => dedupe_spec(
            named_targets(entries@, source_conditions()) + custom_targets(entries@) + named_targets(
                entries@,
                runtime_conditions(),
            ),
        ),
        _ => Seq::empty(),
    }
}

pub open spec fn list_targets(items: Seq<JsonValue>) -> Seq<Seq<char>>
    decreases items, items.len(),
{
    if items.len() == 0 {
        Seq::empty()
    } else {
        list_targets(items.drop_last()) + cond_targets(items.last())
    }
}

/// The targets of the entries named by `keys`, in the order of `keys`.
pub open spec fn named_targets(entries: Seq<(String, JsonValue)>, keys: Seq<Seq<char>>) -> Seq<Seq<char>>
    decreases entries, entries.len() + keys.len() + 1,
{
    if keys.len() == 0 {
        Seq::empty()
    } else {
        named_targets(entries, keys.drop_last()) + lookup_targets(entries, keys.last())
    }
}

/// The targets of the first entry named `key`, if there is one.
pub open spec fn lookup_targets(entries: Seq<(String, JsonValue)>, key: Seq<char>) -> Seq<Seq<char>>
    decreases entries, entries.len(),
{
    if entries.len() == 0 {
        Seq::empty()
    } else if entries[0].0@ == key {
        cond_targets(entries[0].1)
    } else {
        lookup_targets(entries.subrange(1, entries.len() as int), key)
    }
}

/// The targets of the custom-condition entries, in entry order.
pub open spec fn custom_targets(entries: Seq<(String, JsonValue)>) -> Seq<Seq<char>>
    decreases entries, entries.len(),
{
    if entries.len() == 0 {
        Seq::empty()
    } else {
        custom_targets(entries.drop_last()) + if is_custom_condition(entries.last().0@) {
            cond_targets(entries.last().1)
        } else {
            Seq::empty()
        }
    }
}


fn source_condition_names() -> (r: Vec<String>)
    ensures
        str_views(r@) == source_conditions(),
{
    proof {
        reveal_strlit("development");
        reveal_strlit("dev");
        reveal_strlit("source");
        reveal_strlit("types");
        assert("development"@ =~= seq!['d', 'e', 'v', 'e', 'l', 'o', 'p', 'm', 'e', 'n', 't']);
        assert("dev"@ =~= seq!['d', 'e', 'v']);
        assert("source"@ =~= seq!['s', 'o', 'u', 'r', 'c', 'e']);
        assert("types"@ =~= seq!['t', 'y', 'p', 'e', 's']);
    }
    let r = vec![owned("development"), owned("dev"), owned("source"), owned("types")];
    proof {
        assert(str_views(r@) =~= source_conditions());
    }
    r
}

fn runtime_condition_names() -> (r: Vec<String>)
    ensures
        str_views(r@) == runtime_conditions(),
{
    proof {
        reveal_strlit("import");
        reveal_strlit("require");
        reveal_strlit("default");
        assert("import"@ =~= seq!['i', 'm', 'p', 'o', 'r', 't']);
        assert("require"@ =~= seq!['r', 'e', 'q', 'u', 'i', 'r', 'e']);
        assert("default"@ =~= seq!['d', 'e', 'f', 'a', 'u', 'l', 't']);
    }
    let r = vec![owned("import"), owned("require"), owned("default")];
    proof {
        assert(str_views(r@) =~= runtime_conditions());
    }
    r
}

/// `values` without repeats, first occurrences kept in order.
pub fn dedupe(values: Vec<String>) -> (r: Vec<String>)
    ensures
        str_views(r@) == dedupe_spec(str_views(values@)),
{
    let ghost vs = str_views(values@);
    let mut deduped: Vec<String> = Vec::new();
    let mut i: usize = 0;
    while i < values.len()
        invariant
            i <= values.len(),
            vs == str_views(values@),
            str_views(deduped@) == dedupe_spec(vs.take(i as int)),
        decreases values.len() - i,
    {
        proof {
            assert(vs.take(i + 1).drop_last() =~= vs.take(i as int));
            assert(vs.take(i + 1).last() == values@[i as int]@);
        }
        if !contains_str(&deduped, values[i].as_str()) {
            let ghost before = str_views(deduped@);
            deduped.push(values[i].clone());
            proof {
                assert(str_views(deduped@) =~= before.push(values@[i as int]@));
            }
        }
        i = i + 1;
    }
    proof {
        assert(vs.take(values.len() as int) =~= vs);
    }
    deduped
}

fn append_strings(out: &mut Vec<String>, more: Vec<String>)
    ensures
        str_views(final(out)@) == str_views(old(out)@) + str_views(more@),
{
    let ghost start = str_views(out@);
    let mut i: usize = 0;
    while i < more.len()
        invariant
            i <= more.len(),
            str_views(out@) == start + str_views(more@).take(i as int),
        decreases more.len() - i,
    {
        let ghost before = str_views(out@);
        out.push(more[i].clone());
        proof {
            assert(str_views(out@) =~= before.push(more@[i as int]@));
            assert(str_views(more@).take(i + 1) =~= str_views(more@).take(i as int).push(more@[i as int]@));
        }
        i = i + 1;
    }
    proof {
        assert(str_views(more@).take(more.len() as int) =~= str_views(more@));
    }
}

/// The file targets of an `exports`/`imports` value, most source-like first.
pub fn conditional_targets(value: &JsonValue) -> (r: Vec<String>)
    ensures
        str_views(r@) == cond_targets(*value),
    decreases value,
{
    match value {
        JsonValue::Str(path) => {
            let r = vec![path.clone()];
            proof {
                assert(str_views(r@) =~= seq![path@]);
            }
            r
        },
        JsonValue::Array(items) => {
            let mut out: Vec<String> = Vec::new();
            let mut i: usize = 0;
            while i < items.len()
                invariant
                    *value == JsonValue::Array(*items),
                    i <= items.len(),
                    str_views(out@) == list_targets(items@.take(i as int)),
                decreases items.len() - i,
            {
                proof {
                    assert(items@.take(i + 1).drop_last() =~= items@.take(i as int));
                    assert(items@.take(i + 1).last() == items@[i as int]);
                }
                proof {
                    assert((*value)->Array_0 == *items);
                    assert(decreases_to!(*value => (*value)->Array_0));
                }
                let more = conditional_targets(&items[i]);
                append_strings(&mut out, more);
                i = i + 1;
            }
            proof {
                assert(items@.take(items.len() as int) =~= items@);
            }
            out
        },
        JsonValue::Object(entries) => {
            let mut targets: Vec<String> = Vec::new();
            let keys = source_condition_names();
            let mut i: usize = 0;
            while i < keys.len()
                invariant
                    *value == JsonValue::Object(*entries),
                    i <= keys.len(),
                    str_views(targets@) == named_targets(entries@, str_views(keys@).take(i as int)),
                decreases keys.len() - i,
            {
                proof {
                    assert(str_views(keys@).take(i + 1).drop_last() =~= str_views(keys@).take(i as int));
                }
                proof {
                    assert((*value)->Object_0 == *entries);
                    assert(decreases_to!(*value => (*value)->Object_0));
                }
                let more = lookup_conditional_targets(entries, keys[i].as_str());
                append_strings(&mut targets, more);
                i = i + 1;
            }
            proof {
                assert(str_views(keys@).take(keys.len() as int) =~= source_conditions());
            }
            let ghost named_source = str_views(targets@);
            let runtime = runtime_condition_names();
            // Unknown custom conditions often point at source in monorepos:
            // prefer them over runtime fallbacks such as `default`.
            let mut j: usize = 0;
            while j < entries.len()
                invariant
                    *value == JsonValue::Object(*entries),
                    j <= entries.len(),
                    str_views(keys@) == source_conditions(),
                    str_views(runtime@) == runtime_conditions(),
                    str_views(targets@) == named_source + custom_targets(entries@.take(j as int)),
                decreases entries.len() - j,
            {
                proof {
                    assert(entries@.take(j + 1).drop_last() =~= entries@.take(j as int));
                    assert(entries@.take(j + 1).last() == entries@[j as int]);
                }
                let key = &entries[j].0;
                if !contains_str(&keys, key.as_str()) && !contains_str(&runtime, key.as_str()) {
                    proof {
                        assert((*value)->Object_0 == *entries);
                        assert(decreases_to!(*value => (*value)->Object_0));
                        assert(decreases_to!(entries@[j as int] => entries@[j as int].1));
                    }
                    let more = conditional_targets(&entries[j].1);
                    append_strings(&mut targets, more);
                } else {
                    proof {
                        assert(custom_targets(entries@.take(j + 1)) =~= custom_targets(entries@.take(j as int)) + Seq::<Seq<char>>::empty());
                    }
                }
                j = j + 1;
            }
            proof {
                assert(entries@.take(entries.len() as int) =~= entries@);
            }
            let ghost with_custom = str_views(targets@);
            let mut k: usize = 0;
            while k < runtime.len()
                invariant
                    *value == JsonValue::Object(*entries),
                    k <= runtime.len(),
                    str_views(targets@) == with_custom + named_targets(entries@, str_views(runtime@).take(k as int)),
                decreases runtime.len() - k,
            {
                proof {
                    assert(str_views(runtime@).take(k + 1).drop_last() =~= str_views(runtime@).take(k as int));
                }
                proof {
                    assert((*value)->Object_0 == *entries);
                    assert(decreases_to!(*value => (*value)->Object_0));
                }
                let more = lookup_conditional_targets(entries, runtime[k].as_str());
                append_strings(&mut targets, more);
                proof {
                    assert(with_custom + named_targets(entries@, str_views(runtime@).take(k + 1)) =~= with_custom
                        + named_targets(entries@, str_views(runtime@).take(k as int)) + lookup_targets(entries@, runtime@[k as int]@));
                }
                k = k + 1;
            }
            proof {
                assert(str_views(runtime@).take(runtime.len() as int) =~= runtime_conditions());
            }
            dedupe(targets)
        },
        _ => Vec::new(),
    }
}

/// The targets of the first entry named `key`, if there is one.
fn lookup_conditional_targets(entries: &Vec<(String, JsonValue)>, key: &str) -> (r: Vec<String>)
    ensures
        str_views(r@) == lookup_targets(entries@, key@),
    decreases entries,
{
    let mut j: usize = 0;
    proof {
        assert(entries@.subrange(0, entries@.len() as int) =~= entries@);
    }
    while j < entries.len()
        invariant
            j <= entries.len(),
            lookup_targets(entries@, key@) == lookup_targets(entries@.subrange(j as int, entries@.len() as int), key@),
        decreases entries.len() - j,
    {
        let ghost rest = entries@.subrange(j as int, entries@.len() as int);
        proof {
            assert(rest[0] == entries@[j as int]);
            assert(rest.subrange(1, rest.len() as int) =~= entries@.subrange(j + 1, entries@.len() as int));
        }
        if str_eq(entries[j].0.as_str(), key) {
            proof {
                assert(decreases_to!(entries@[j as int] => entries@[j as int].1));
            }
            return conditional_targets(&entries[j].1);
        }
        j = j + 1;
    }
    Vec::new()
}


// ---------------------------------------------------------------------------
// Export and import maps
// ---------------------------------------------------------------------------

/// One key of an `exports` or `imports` map with its file targets, most
/// source-like first.
#[derive(Debug)]
pub struct ExportMapping {
    pub key: String,
    pub targets: Vec<String>,
}

/// Mappings as (key, targets) pairs of character sequences.
pub open spec fn mapping_views(ms: Seq<ExportMapping>) -> Seq<(Seq<char>, Seq<Seq<char>>)> {
    ms.map_values(|m: ExportMapping| (m.key@, str_views(m.targets@)))
}

/// A single mapping of the package root `.`, when there are targets.
pub open spec fn root_mapping(targets: Seq<Seq<char>>) -> Seq<(Seq<char>, Seq<Seq<char>>)> {
    if targets.len() == 0 {
        Seq::empty()
    } else {
        seq![(seq!['.'], targets)]
    }
}

/// Some key of the map is a subpath (starts with `.`).
pub open spec fn has_subpath_key(entries: Seq<(String, JsonValue)>) -> bool {
    exists|i: int| 0 <= i < entries.len() && starts_with(#[trigger] entries[i].0@, seq!['.'])
}

/// The entries whose key starts with `prefix` and that have targets, in
/// order.
pub open spec fn keyed_mappings(entries: Seq<(String, JsonValue)>, prefix: Seq<char>) -> Seq<(Seq<char>, Seq<Seq<char>>)>
    decreases entries.len(),
{
    if entries.len() == 0 {
        Seq::empty()
    } else {
        let rest = keyed_mappings(entries.drop_last(), prefix);
        let e = entries.last();
        if starts_with(e.0@, prefix) && cond_targets(e.1).len() > 0 {
            rest.push((e.0@, cond_targets(e.1)))
        } else {
            rest
        }
    }
}

/// The mappings of an `exports` (`prefix` `.`) or `imports` (`prefix` `#`)
/// value: for `exports`, a value that is not a map of subpaths is the
/// target of the root `.`.
pub open spec fn mappings_spec(value: Option<JsonValue>, prefix: Seq<char>) -> Seq<(Seq<char>, Seq<Seq<char>>)> {
    match value {
        None => Seq::empty(),
        Some(v) => match v {
            JsonValue::Object(entries) => if prefix == seq!['.'] && !has_subpath_key(entries@) {
                root_mapping(cond_targets(v))
            } else {
                keyed_mappings(entries@, prefix)
            },
            _ => if prefix == seq!['.'] {
                root_mapping(cond_targets(v))
            } else {
                Seq::empty()
            },
        },
    }
}

fn root_mapping_exec(targets: Vec<String>) -> (r: Vec<ExportMapping>)
    ensures
        mapping_views(r@) == root_mapping(str_views(targets@)),
{
    if targets.len() == 0 {
        let r: Vec<ExportMapping> = Vec::new();
        proof {
            assert(mapping_views(r@) =~= root_mapping(str_views(targets@)));
        }
        r
    } else {
        proof {
            reveal_strlit(".");
            assert("."@ =~= seq!['.']);
        }
        let ghost t = str_views(targets@);
        let r = vec![ExportMapping { key: owned("."), targets }];
        proof {
            assert(mapping_views(r@) =~= seq![(seq!['.'], t)]);
        }
        r
    }
}

/// The key/target mappings of a package's `exports` (`required_prefix`
/// `.`) or `imports` (`#`) field.
pub fn collect_package_mappings(value: Option<&JsonValue>, required_prefix: &str) -> (r: Vec<ExportMapping>)
    ensures
        mapping_views(r@) == mappings_spec(
            match value {
                Some(v) => Some(*v),
                None => None,
            },
            required_prefix@,
        ),
{
    proof {
        reveal_strlit(".");
        assert("."@ =~= seq!['.']);
    }
    let value = match value {
        Some(v) => v,
        None => {
            let r: Vec<ExportMapping> = Vec::new();
            proof {
                assert(mapping_views(r@) =~= Seq::<(Seq<char>, Seq<Seq<char>>)>::empty());
            }
            return r;
        },
    };
    let is_exports = str_eq(required_prefix, ".");
    match value {
        JsonValue::Object(entries) => {
            if is_exports {
                let mut any_subpath = false;
                let mut i: usize = 0;
                while i < entries.len()
                    invariant
                        i <= entries.len(),
                        any_subpath == exists|j: int| 0 <= j < i && starts_with(#[trigger] entries@[j].0@, seq!['.']),
                    decreases entries.len() - i,
                {
                    if str_starts_with_char(entries[i].0.as_str(), '.') {
                        any_subpath = true;
                    }
                    proof {
                        crate::text::lemma_starts_with_char(entries@[i as int].0@, '.');
                    }
                    i = i + 1;
                }
                if !any_subpath {
                    return root_mapping_exec(conditional_targets(value));
                }
            }
            let mut mappings: Vec<ExportMapping> = Vec::new();
            let mut i: usize = 0;
            while i < entries.len()
                invariant
                    i <= entries.len(),
                    mapping_views(mappings@) == keyed_mappings(entries@.take(i as int), required_prefix@),
                decreases entries.len() - i,
            {
                proof {
                    assert(entries@.take(i + 1).drop_last() =~= entries@.take(i as int));
                    assert(entries@.take(i + 1).last() == entries@[i as int]);
                }
                let key = &entries[i].0;
                if str_starts_with(key.as_str(), required_prefix) {
                    let targets = conditional_targets(&entries[i].1);
                    if targets.len() > 0 {
                        let ghost before = mapping_views(mappings@);
                        let ghost t = str_views(targets@);
                        mappings.push(ExportMapping { key: key.clone(), targets });
                        proof {
                            assert(mapping_views(mappings@) =~= before.push((key@, t)));
                        }
                    }
                }
                i = i + 1;
            }
            proof {
                assert(entries@.take(entries.len() as int) =~= entries@);
            }
            mappings
        },
        _ => {
            if is_exports {
                root_mapping_exec(conditional_targets(value))
            } else {
                let r: Vec<ExportMapping> = Vec::new();
                proof {
                    assert(mapping_views(r@) =~= Seq::<(Seq<char>, Seq<Seq<char>>)>::empty());
                }
                r
            }
        },
    }
}


// ---------------------------------------------------------------------------
// Packages
// ---------------------------------------------------------------------------

/// The fields of a `package.json` that resolution reads, with the path of
/// the manifest.
#[derive(Debug)]
pub struct PackageManifest {
    pub path: String,
    pub name: String,
    pub main: Option<String>,
    pub module: Option<String>,
    pub source: Option<String>,
    pub types: Option<String>,
    pub exports: Option<JsonValue>,
    pub imports: Option<JsonValue>,
}

/// A workspace package: its name, root directory, the files that may be its
/// entry point (in order), and its `exports`/`imports` maps.
#[derive(Debug)]
pub struct PackageInfo {
    pub name: String,
    pub root: String,
    pub entry_candidates: Vec<String>,
    pub export_mappings: Vec<ExportMapping>,
    pub import_mappings: Vec<ExportMapping>,
}

pub open spec fn package_root_spec(path: Seq<char>) -> Seq<char> {
    match parent_spec(path) {
        Some(p) => p,
        None => path,
    }
}

pub open spec fn opt_entry(root: Seq<char>, v: Option<String>) -> Seq<Seq<char>> {
    match v {
        Some(x) => seq![join_clean_spec(root, x@)],
        None => Seq::empty(),
    }
}

/// The conventional entry points tried after the declared ones.
pub open spec fn conventional_entries() -> Seq<Seq<char>> {
    seq![
        seq!['s', 'r', 'c', '/', 'i', 'n', 'd', 'e', 'x', '.', 't', 's'],
        seq!['s', 'r', 'c', '/', 'i', 'n', 'd', 'e', 'x', '.', 't', 's', 'x'],
        seq!['s', 'r', 'c', '/', 'i', 'n', 'd', 'e', 'x', '.', 'j', 's'],
        seq!['s', 'r', 'c', '/', 'i', 'n', 'd', 'e', 'x', '.', 'j', 's', 'x'],
        seq!['i', 'n', 'd', 'e', 'x', '.', 't', 's'],
        seq!['i', 'n', 'd', 'e', 'x', '.', 't', 's', 'x'],
        seq!['i', 'n', 'd', 'e', 'x', '.', 'j', 's'],
        seq!['i', 'n', 'd', 'e', 'x', '.', 'j', 's', 'x']
    ]
}

/// The entry point candidates of a package: `source`, `module`, `types`,
/// `main` when declared, then the conventional index files.
pub open spec fn entry_candidates_spec(root: Seq<char>, m: PackageManifest) -> Seq<Seq<char>> {
    opt_entry(root, m.source) + opt_entry(root, m.module) + opt_entry(root, m.types) + opt_entry(root, m.main)
        + conventional_entries().map_values(|e: Seq<char>| join_clean_spec(root, e))
}

fn push_opt_entry(out: &mut Vec<String>, root: &str, v: &Option<String>)
    ensures
        str_views(final(out)@) == str_views(old(out)@) + opt_entry(root@, *v),
{
    let ghost before = str_views(out@);
    match v {
        Some(x) => {
            out.push(join_clean(root, x.as_str()));
            proof {
                assert(str_views(out@) =~= before + seq![join_clean_spec(root@, x@)]);
            }
        },
        None => {
            proof {
                assert(str_views(out@) =~= before + Seq::<Seq<char>>::empty());
            }
        },
    }
}

fn conventional_entry_names() -> (r: Vec<String>)
    ensures
        str_views(r@) == conventional_entries(),
{
    proof {
        reveal_strlit("src/index.ts");
        reveal_strlit("src/index.tsx");
        reveal_strlit("src/index.js");
        reveal_strlit("src/index.jsx");
        reveal_strlit("index.ts");
        reveal_strlit("index.tsx");
        reveal_strlit("index.js");
        reveal_strlit("index.jsx");
        assert("src/index.ts"@ =~= seq!['s', 'r', 'c', '/', 'i', 'n', 'd', 'e', 'x', '.', 't', 's']);
        assert("src/index.tsx"@ =~= seq!['s', 'r', 'c', '/', 'i', 'n', 'd', 'e', 'x', '.', 't', 's', 'x']);
        assert("src/index.js"@ =~= seq!['s', 'r', 'c', '/', 'i', 'n', 'd', 'e', 'x', '.', 'j', 's']);
        assert("src/index.jsx"@ =~= seq!['s', 'r', 'c', '/', 'i', 'n', 'd', 'e', 'x', '.', 'j', 's', 'x']);
        assert("index.ts"@ =~= seq!['i', 'n', 'd', 'e', 'x', '.', 't', 's']);
        assert("index.tsx"@ =~= seq!['i', 'n', 'd', 'e', 'x', '.', 't', 's', 'x']);
        assert("index.js"@ =~= seq!['i', 'n', 'd', 'e', 'x', '.', 'j', 's']);
        assert("index.jsx"@ =~= seq!['i', 'n', 'd', 'e', 'x', '.', 'j', 's', 'x']);
    }
    let r = vec![
        owned("src/index.ts"),
        owned("src/index.tsx"),
        owned("src/index.js"),
        owned("src/index.jsx"),
        owned("index.ts"),
        owned("index.tsx"),
        owned("index.js"),
        owned("index.jsx"),
    ];
    proof {
        assert(str_views(r@) =~= conventional_entries());
    }
    r
}

/// The package a manifest describes, or `None` for a manifest without a
/// name.
pub fn load_package_info(manifest: &PackageManifest) -> (r: Option<PackageInfo>)
    ensures
        r is None <==> manifest.name@.len() == 0,
        r matches Some(p) ==> {
            let root = package_root_spec(manifest.path@);
            &&& p.name@ == manifest.name@
            &&& p.root@ == root
            &&& str_views(p.entry_candidates@) == entry_candidates_spec(root, *manifest)
            &&& mapping_views(p.export_mappings@) == mappings_spec(manifest.exports, seq!['.'])
            &&& mapping_views(p.import_mappings@) == mappings_spec(manifest.imports, seq!['#'])
        },
{
    if crate::text::char_count(manifest.name.as_str()) == 0 {
        return None;
    }
    let root = match parent(manifest.path.as_str()) {
        Some(p) => p,
        None => manifest.path.clone(),
    };
    let mut entry_candidates: Vec<String> = Vec::new();
    push_opt_entry(&mut entry_candidates, root.as_str(), &manifest.source);
    push_opt_entry(&mut entry_candidates, root.as_str(), &manifest.module);
    push_opt_entry(&mut entry_candidates, root.as_str(), &manifest.types);
    push_opt_entry(&mut entry_candidates, root.as_str(), &manifest.main);
    let names = conventional_entry_names();
    let ghost declared = str_views(entry_candidates@);
    let ghost cs = conventional_entries();
    let mut i: usize = 0;
    while i < names.len()
        invariant
            i <= names.len(),
            str_views(names@) == cs,
            cs == conventional_entries(),
            str_views(entry_candidates@) == declared + cs.take(i as int).map_values(|e: Seq<char>| join_clean_spec(root@, e)),
        decreases names.len() - i,
    {
        let ghost before = str_views(entry_candidates@);
        entry_candidates.push(join_clean(root.as_str(), names[i].as_str()));
        proof {
            assert(str_views(entry_candidates@) =~= before.push(join_clean_spec(root@, cs[i as int])));
            assert(cs.take(i + 1).map_values(|e: Seq<char>| join_clean_spec(root@, e)) =~= cs.take(i as int).map_values(
                |e: Seq<char>| join_clean_spec(root@, e)).push(join_clean_spec(root@, cs[i as int])));
        }
        i = i + 1;
    }
    proof {
        assert(cs.take(names.len() as int) =~= cs);
        reveal_strlit(".");
        reveal_strlit("#");
        assert("."@ =~= seq!['.']);
        assert("#"@ =~= seq!['#']);
    }
    let export_mappings = collect_package_mappings(
        match &manifest.exports {
            Some(v) => Some(v),
            None => None,
        },
        ".",
    );
    let import_mappings = collect_package_mappings(
        match &manifest.imports {
            Some(v) => Some(v),
            None => None,
        },
        "#",
    );
    Some(PackageInfo { name: manifest.name.clone(), root, entry_candidates, export_mappings, import_mappings })
}

// ---------------------------------------------------------------------------
// Resolving a subpath through a map
// ---------------------------------------------------------------------------

pub open spec fn mapping_keys(ms: Seq<ExportMapping>) -> Seq<Seq<char>> {
    ms.map_values(|m: ExportMapping| m.key@)
}

/// The first mapping whose key is exactly `key` (a key without `*`).
pub open spec fn exact_mapping(keys: Seq<Seq<char>>, key: Seq<char>, n: nat) -> Option<int>
    decreases n,
{
    if n == 0 {
        None
    } else {
        match exact_mapping(keys, key, (n - 1) as nat) {
            Some(i) => Some(i),
            None => if !keys[n - 1].contains('*') && keys[n - 1] == key {
                Some(n - 1)
            } else {
                None
            },
        }
    }
}

pub proof fn lemma_exact_mapping_stable(keys: Seq<Seq<char>>, key: Seq<char>, i: int, n: nat)
    requires
        0 <= i < n,
        exact_mapping(keys, key, (i + 1) as nat) == Some(i),
    ensures
        exact_mapping(keys, key, n) == Some(i),
    decreases n,
{
    if n > i + 1 {
        lemma_exact_mapping_stable(keys, key, i, (n - 1) as nat);
    }
}

/// The first pattern, in `order`, that matches `key`, with its captures.
pub open spec fn first_match(keys: Seq<Seq<char>>, order: Seq<int>, key: Seq<char>) -> Option<(int, Seq<Seq<char>>)>
    decreases order.len(),
{
    if order.len() == 0 {
        None
    } else {
        match match_alias_spec(keys[order[0]], key) {
            Some(c) => Some((order[0], c)),
            None => first_match(keys, order.subrange(1, order.len() as int), key),
        }
    }
}

/// The targets joined onto `root`, their `*`s filled by `captures`.
pub open spec fn joined_targets(root: Seq<char>, targets: Seq<Seq<char>>, captures: Seq<Seq<char>>) -> Seq<Seq<char>> {
    targets.map_values(|t: Seq<char>| join_clean_spec(root, apply_captures(t, captures)))
}

/// The files a subpath `key` maps to: an exact key wins; otherwise the most
/// specific matching wildcard key (longest literal prefix, ties in order).
pub open spec fn package_mapping_spec(ms: Seq<ExportMapping>, root: Seq<char>, key: Seq<char>) -> Seq<Seq<char>> {
    let keys = mapping_keys(ms);
    match exact_mapping(keys, key, keys.len()) {
        Some(i) => joined_targets(root, str_views(ms[i].targets@), Seq::empty()),
        None => match first_match(keys, wildcard_order(keys), key) {
            Some((i, caps)) => joined_targets(root, str_views(ms[i].targets@), caps),
            None => Seq::empty(),
        },
    }
}

fn join_targets(root: &str, targets: &Vec<String>, captures: &Vec<String>) -> (r: Vec<String>)
    ensures
        str_views(r@) == joined_targets(root@, str_views(targets@), str_views(captures@)),
{
    let ghost ts = str_views(targets@);
    let mut out: Vec<String> = Vec::new();
    let mut i: usize = 0;
    while i < targets.len()
        invariant
            i <= targets.len(),
            ts == str_views(targets@),
            str_views(out@) == joined_targets(root@, ts.take(i as int), str_views(captures@)),
        decreases targets.len() - i,
    {
        let filled = apply_alias_target(targets[i].as_str(), captures);
        let ghost before = str_views(out@);
        out.push(join_clean(root, filled.as_str()));
        proof {
            assert(str_views(out@) =~= before.push(join_clean_spec(root@, apply_captures(ts[i as int], str_views(captures@)))));
            assert(ts.take(i + 1) =~= ts.take(i as int).push(ts[i as int]));
            assert(joined_targets(root@, ts.take(i + 1), str_views(captures@)) =~= joined_targets(root@, ts.take(i as int), str_views(captures@)).push(
                join_clean_spec(root@, apply_captures(ts[i as int], str_views(captures@)))));
        }
        i = i + 1;
    }
    proof {
        assert(ts.take(targets.len() as int) =~= ts);
    }
    out
}

fn mapping_key_list(ms: &Vec<ExportMapping>) -> (r: Vec<String>)
    ensures
        str_views(r@) == mapping_keys(ms@),
{
    let mut out: Vec<String> = Vec::new();
    let mut i: usize = 0;
    while i < ms.len()
        invariant
            i <= ms.len(),
            str_views(out@) == mapping_keys(ms@).take(i as int),
        decreases ms.len() - i,
    {
        let ghost before = str_views(out@);
        out.push(ms[i].key.clone());
        proof {
            assert(str_views(out@) =~= before.push(ms@[i as int].key@));
            assert(mapping_keys(ms@).take(i + 1) =~= mapping_keys(ms@).take(i as int).push(ms@[i as int].key@));
        }
        i = i + 1;
    }
    proof {
        assert(mapping_keys(ms@).take(ms.len() as int) =~= mapping_keys(ms@));
    }
    out
}

/// The files the subpath `key` maps to under the package root `root`.
pub fn resolve_package_mapping(mappings: &Vec<ExportMapping>, root: &str, key: &str) -> (r: Vec<String>)
    ensures
        str_views(r@) == package_mapping_spec(mappings@, root@, key@),
{
    let ghost keys = mapping_keys(mappings@);
    // Exact keys take precedence over wildcard patterns.
    let mut i: usize = 0;
    while i < mappings.len()
        invariant
            i <= mappings.len(),
            keys == mapping_keys(mappings@),
            exact_mapping(keys, key@, i as nat) is None,
        decreases mappings.len() - i,
    {
        let k = &mappings[i].key;
        if !str_contains_char(k.as_str(), '*') && str_eq(k.as_str(), key) {
            proof {
                assert(keys[i as int] == k@);
                assert(exact_mapping(keys, key@, (i + 1) as nat) == Some(i as int));
                lemma_exact_mapping_stable(keys, key@, i as int, mappings.len() as nat);
            }
            let none: Vec<String> = Vec::new();
            let r = join_targets(root, &mappings[i].targets, &none);
            proof {
                assert(str_views(none@) =~= Seq::<Seq<char>>::empty());
            }
            return r;
        }
        i = i + 1;
    }
    let key_list = mapping_key_list(mappings);
    let order = wildcard_order_exec(&key_list);
    let ghost ord = positions(order@);
    let mut j: usize = 0;
    proof {
        assert(ord.subrange(0, ord.len() as int) =~= ord);
    }
    while j < order.len()
        invariant
            j <= order.len(),
            keys == mapping_keys(mappings@),
            str_views(key_list@) == keys,
            ord == positions(order@),
            ord == wildcard_order(keys),
            exact_mapping(keys, key@, keys.len()) is None,
            forall|x: int| 0 <= x < order@.len() ==> order@[x] < mappings@.len(),
            first_match(keys, ord, key@) == first_match(keys, ord.subrange(j as int, ord.len() as int), key@),
        decreases order.len() - j,
    {
        let ghost rest = ord.subrange(j as int, ord.len() as int);
        proof {
            assert(rest[0] == order@[j as int] as int);
            assert(rest.subrange(1, rest.len() as int) =~= ord.subrange(j + 1, ord.len() as int));
        }
        let idx = order[j];
        match match_alias(mappings[idx].key.as_str(), key) {
            Some(captures) => {
                proof {
                    assert(keys[idx as int] == mappings@[idx as int].key@);
                    assert(first_match(keys, rest, key@) == Some((idx as int, str_views(captures@))));
                }
                return join_targets(root, &mappings[idx].targets, &captures);
            },
            None => {},
        }
        j = j + 1;
    }
    Vec::new()
}

/// The files an `exports` subpath (`.`, `./sub`) of the package maps to.
pub fn resolve_package_export(package: &PackageInfo, export_key: &str) -> (r: Vec<String>)
    ensures
        str_views(r@) == package_mapping_spec(package.export_mappings@, package.root@, export_key@),
{
    resolve_package_mapping(&package.export_mappings, package.root.as_str(), export_key)
}

/// The files an `imports` specifier (`#name`) of the package maps to.
pub fn resolve_package_import(package: &PackageInfo, import_key: &str) -> (r: Vec<String>)
    ensures
        str_views(r@) == package_mapping_spec(package.import_mappings@, package.root@, import_key@),
{
    resolve_package_mapping(&package.import_mappings, package.root.as_str(), import_key)
}

} // verus!
