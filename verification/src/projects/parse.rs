//! Task suggestions for a folder: the scripts of its `package.json` and the
//! services of its compose file. Reading the files is the caller's; this
//! module decides what the texts it read yield.
use vstd::prelude::*;
use vstd::string::*;

use super::Task;

verus! {

/// A JSON value as `serde_json` reads it: numbers keep their text, and an
/// object lists its entries in the order the map yields them, each key once.
pub enum JsonValue {
    Null,
    Bool(bool),
    Number(String),
    Text(String),
    Array(Vec<JsonValue>),
    Object(Vec<(String, JsonValue)>),
}

/// A YAML node as `yaml_rust2` loads it: a mapping lists its entries in
/// insertion order, each key once.
pub enum YamlValue {
    Real(String),
    Integer(i64),
    Text(String),
    Boolean(bool),
    Array(Vec<YamlValue>),
    Hash(Vec<(YamlValue, YamlValue)>),
    Alias(usize),
    Null,
    BadValue,
}

#[verifier::external_type_specification]
#[verifier::external_body]
pub struct ExJsonValue(serde_json::Value);

#[verifier::external_type_specification]
#[verifier::external_body]
pub struct ExYaml(yaml_rust2::Yaml);

/// The value `serde_json` reads from a text; none when the text is not
/// JSON.
pub uninterp spec fn json_document(text: Seq<char>) -> Option<JsonValue>;

/// The documents `yaml_rust2` loads from a text; none when the text is
/// not YAML.
pub uninterp spec fn yaml_documents(text: Seq<char>) -> Option<Seq<YamlValue>>;

/// Restates a `serde_json::Value` as a `JsonValue`, variant for variant.
#[verifier::external_body]
fn json_from(v: &serde_json::Value) -> JsonValue {
    match v {
        serde_json::Value::Null => JsonValue::Null,
        serde_json::Value::Bool(b) => JsonValue::Bool(*b),
        serde_json::Value::Number(n) => JsonValue::Number(n.to_string()),
        serde_json::Value::String(t) => JsonValue::Text(t.clone()),
        serde_json::Value::Array(a) => JsonValue::Array(a.iter().map(json_from).collect()),
        serde_json::Value::Object(m) => JsonValue::Object(m.iter().map(|(k, x)| (k.clone(), json_from(x))).collect()),
    }
}

/// Restates a `yaml_rust2::Yaml` as a `YamlValue`, variant for variant.
#[verifier::external_body]
fn yaml_from(y: &yaml_rust2::Yaml) -> YamlValue {
    match y {
        yaml_rust2::Yaml::Real(t) => YamlValue::Real(t.clone()),
        yaml_rust2::Yaml::Integer(i) => YamlValue::Integer(*i),
        yaml_rust2::Yaml::String(t) => YamlValue::Text(t.clone()),
        yaml_rust2::Yaml::Boolean(b) => YamlValue::Boolean(*b),
        yaml_rust2::Yaml::Array(a) => YamlValue::Array(a.iter().map(yaml_from).collect()),
        yaml_rust2::Yaml::Hash(h) => YamlValue::Hash(h.iter().map(|(k, x)| (yaml_from(k), yaml_from(x))).collect()),
        yaml_rust2::Yaml::Alias(n) => YamlValue::Alias(*n),
        yaml_rust2::Yaml::Null => YamlValue::Null,
        yaml_rust2::Yaml::BadValue => YamlValue::BadValue,
    }
}

/// Reads `text` with `serde_json::from_str` into a `serde_json::Value` and
/// restates it as a `JsonValue`; none when `serde_json` refuses the text.
/// The result is named `json_document`; the JSON grammar is not restated.
#[verifier::external_body]
fn parse_json(text: &str) -> (r: Option<JsonValue>)
    ensures
        r == json_document(text@),
{
    let value: serde_json::Value = serde_json::from_str(text).ok()?;
    Some(json_from(&value))
}

/// Loads `text` with `yaml_rust2::YamlLoader::load_from_str` and restates
/// each document as a `YamlValue`; none when the loader refuses the text.
/// The result is named `yaml_documents`; the YAML grammar is not restated.
#[verifier::external_body]
fn parse_yaml(text: &str) -> (r: Option<Vec<YamlValue>>)
    ensures
        match r {
            Some(v) => yaml_documents(text@) == Some(v@),
            None => yaml_documents(text@) is None,
        },
{
    let docs = yaml_rust2::YamlLoader::load_from_str(text).ok()?;
    Some(docs.iter().map(yaml_from).collect())
}

/// The value of the first entry of an object named `key`.
pub open spec fn json_field(es: Seq<(String, JsonValue)>, key: Seq<char>) -> Option<JsonValue>
    decreases es.len(),
{
    if es.len() == 0 {
        None
    } else if es[0].0@ == key {
        Some(es[0].1)
    } else {
        json_field(es.drop_first(), key)
    }
}

/// The names of the entries of the `scripts` object of a JSON document;
/// none when there is no document, it is not an object, or its `scripts`
/// entry is missing or not an object.
pub open spec fn json_script_names(doc: Option<JsonValue>) -> Option<Seq<Seq<char>>> {
    match doc {
        Some(JsonValue::Object(es)) => match json_field(es@, "scripts"@) {
            Some(JsonValue::Object(ss)) => Some(ss@.map_values(|e: (String, JsonValue)| e.0@)),
            _ => None,
        },
        _ => None,
    }
}

/// Whether a mapping key is the string `key`.
pub open spec fn is_text_key(k: YamlValue, key: Seq<char>) -> bool {
    match k {
        YamlValue::Text(t) => t@ == key,
        _ => false,
    }
}

/// The value under the string key `key` of a mapping's entries, or
/// `BadValue` when no entry has that key (indexing a node by a string).
pub open spec fn yaml_get(es: Seq<(YamlValue, YamlValue)>, key: Seq<char>) -> YamlValue
    decreases es.len(),
{
    if es.len() == 0 {
        YamlValue::BadValue
    } else if is_text_key(es[0].0, key) {
        es[0].1
    } else {
        yaml_get(es.drop_first(), key)
    }
}

/// The text of a mapping key, when it is a string.
pub open spec fn key_text(k: YamlValue) -> Option<Seq<char>> {
    match k {
        YamlValue::Text(t) => Some(t@),
        _ => None,
    }
}

/// The keys of the `services` mapping of the first loaded document, each
/// as text when it is a string; none when nothing was loaded, there is no
/// document, or its `services` entry is not a mapping.
pub open spec fn yaml_service_keys(docs: Option<Seq<YamlValue>>) -> Option<Seq<Option<Seq<char>>>> {
    match docs {
        Some(ds) => if ds.len() == 0 {
            None
        } else {
            let services = match ds[0] {
                YamlValue::Hash(es) => yaml_get(es@, "services"@),
                _ => YamlValue::BadValue,
            };
            match services {
                YamlValue::Hash(ss) => Some(ss@.map_values(|e: (YamlValue, YamlValue)| key_text(e.0))),
                _ => None,
            }
        },
        None => None,
    }
}

fn json_lookup<'a>(es: &'a Vec<(String, JsonValue)>, key: &str) -> (r: Option<&'a JsonValue>)
    ensures
        match r {
            Some(x) => json_field(es@, key@) == Some(*x),
            None => json_field(es@, key@) is None,
        },
{
    let target = String::from_str(key);
    let mut i: usize = 0;
    assert(es@.skip(0) =~= es@);
    while i < es.len()
        invariant
            i <= es@.len(),
            target@ == key@,
            json_field(es@, key@) == json_field(es@.skip(i as int), key@),
        decreases es@.len() - i,
    {
        proof {
            let t = es@.skip(i as int);
            assert(t[0] == es@[i as int]);
            assert(t.drop_first() =~= es@.skip(i + 1));
        }
        if es[i].0 == target {
            return Some(&es[i].1);
        }
        i = i + 1;
    }
    None
}

fn yaml_lookup<'a>(es: &'a Vec<(YamlValue, YamlValue)>, key: &str) -> (r: Option<&'a YamlValue>)
    ensures
        match r {
            Some(x) => yaml_get(es@, key@) == *x,
            None => yaml_get(es@, key@) == YamlValue::BadValue,
        },
{
    let target = String::from_str(key);
    let mut i: usize = 0;
    assert(es@.skip(0) =~= es@);
    while i < es.len()
        invariant
            i <= es@.len(),
            target@ == key@,
            yaml_get(es@, key@) == yaml_get(es@.skip(i as int), key@),
        decreases es@.len() - i,
    {
        proof {
            let t = es@.skip(i as int);
            assert(t[0] == es@[i as int]);
            assert(t.drop_first() =~= es@.skip(i + 1));
        }
        match &es[i].0 {
            YamlValue::Text(t) => {
                if *t == target {
                    return Some(&es[i].1);
                }
            },
            _ => {},
        }
        i = i + 1;
    }
    None
}

/// The names of the `scripts` entries of a JSON document, in order.
pub fn script_names_of(doc: &Option<JsonValue>) -> (r: Option<Vec<String>>)
    ensures
        match r {
            Some(v) => json_script_names(*doc) == Some(v.deep_view()),
            None => json_script_names(*doc) is None,
        },
{
    match doc {
        Some(JsonValue::Object(es)) => match json_lookup(es, "scripts") {
            Some(JsonValue::Object(ss)) => {
                let ghost want = ss@.map_values(|e: (String, JsonValue)| e.0@);
                let mut out: Vec<String> = Vec::new();
                let mut j: usize = 0;
                while j < ss.len()
                    invariant
                        j <= ss@.len(),
                        want == ss@.map_values(|e: (String, JsonValue)| e.0@),
                        out.deep_view() =~= want.take(j as int),
                    decreases ss@.len() - j,
                {
                    let ghost prev = out.deep_view();
                    out.push(ss[j].0.clone());
                    assert(out.deep_view() =~= prev.push(want[j as int]));
                    assert(want.take(j + 1) =~= want.take(j as int).push(want[j as int]));
                    j = j + 1;
                }
                assert(want.take(want.len() as int) =~= want);
                Some(out)
            },
            _ => None,
        },
        _ => None,
    }
}

/// The keys of the `services` mapping of the first loaded document, each
/// as text when it is a string.
pub fn service_keys_of(docs: &Option<Vec<YamlValue>>) -> (r: Option<Vec<Option<String>>>)
    ensures
        match r {
            Some(v) => yaml_service_keys(docs_view(*docs)) == Some(texts_view(v@)),
            None => yaml_service_keys(docs_view(*docs)) is None,
        },
{
    let ds = match docs {
        Some(ds) => ds,
        None => return None,
    };
    if ds.len() == 0 {
        return None;
    }
    let services = match &ds[0] {
        YamlValue::Hash(es) => yaml_lookup(es, "services"),
        _ => None,
    };
    match services {
        Some(YamlValue::Hash(ss)) => {
            let ghost want = ss@.map_values(|e: (YamlValue, YamlValue)| key_text(e.0));
            let mut out: Vec<Option<String>> = Vec::new();
            let mut j: usize = 0;
            while j < ss.len()
                invariant
                    j <= ss@.len(),
                    want == ss@.map_values(|e: (YamlValue, YamlValue)| key_text(e.0)),
                    texts_view(out@) =~= want.take(j as int),
                decreases ss@.len() - j,
            {
                let ghost prev = out@;
                let k = match &ss[j].0 {
                    YamlValue::Text(t) => Some(t.clone()),
                    _ => None,
                };
                out.push(k);
                assert(texts_view(out@) =~= texts_view(prev).push(want[j as int]));
                assert(want.take(j + 1) =~= want.take(j as int).push(want[j as int]));
                j = j + 1;
            }
            assert(want.take(want.len() as int) =~= want);
            Some(out)
        },
        _ => None,
    }
}

/// The documents of a load result, as a sequence.
pub open spec fn docs_view(docs: Option<Vec<YamlValue>>) -> Option<Seq<YamlValue>> {
    match docs {
        Some(v) => Some(v@),
        None => None,
    }
}

/// The package manager for a folder: pnpm when it has a pnpm lock file,
/// else yarn when it has a yarn lock file, else npm.
pub open spec fn package_manager(has_pnpm_lock: bool, has_yarn_lock: bool) -> Seq<char> {
    if has_pnpm_lock {
        "pnpm"@
    } else if has_yarn_lock {
        "yarn"@
    } else {
        "npm"@
    }
}

/// The package manager for a folder, from which lock files it holds.
pub fn detect_package_manager(has_pnpm_lock: bool, has_yarn_lock: bool) -> (pm: &'static str)
    ensures
        pm@ == package_manager(has_pnpm_lock, has_yarn_lock),
{
    if has_pnpm_lock {
        "pnpm"
    } else if has_yarn_lock {
        "yarn"
    } else {
        "npm"
    }
}

/// The command that runs script `name` with package manager `pm`.
pub open spec fn run_command(pm: Seq<char>, name: Seq<char>) -> Seq<char> {
    pm + " run "@ + name
}

/// The (name, command) pairs for a list of script names.
pub open spec fn script_tasks(names: Option<Seq<Seq<char>>>, pm: Seq<char>) -> Seq<(Seq<char>, Seq<char>)> {
    match names {
        Some(ns) => ns.map_values(|n: Seq<char>| (n, run_command(pm, n))),
        None => Seq::empty(),
    }
}

/// The (name, command) pairs for script names that `serde_json` found.
pub fn package_script_tasks(names: Option<Vec<String>>, pm: &str) -> (r: Vec<(String, String)>)
    ensures
        r.deep_view() == script_tasks(
            match names {
                Some(v) => Some(v.deep_view()),
                None => None,
            },
            pm@,
        ),
{
    let mut out: Vec<(String, String)> = Vec::new();
    match names {
        None => {
            assert(out.deep_view() =~= Seq::<(Seq<char>, Seq<char>)>::empty());
            out
        },
        Some(v) => {
            let ghost ns = v.deep_view();
            let mut i: usize = 0;
            while i < v.len()
                invariant
                    i <= v@.len(),
                    ns == v.deep_view(),
                    out.deep_view() =~= ns.take(i as int).map_values(|n: Seq<char>| (n, run_command(pm@, n))),
                decreases v@.len() - i,
            {
                let name = v[i].clone();
                let command = String::from_str(pm).concat(" run ").concat(name.as_str());
                let ghost prev = out.deep_view();
                out.push((name, command));
                proof {
                    assert(ns[i as int] == v@[i as int]@);
                    assert(out.deep_view() =~= prev.push((ns[i as int], run_command(pm@, ns[i as int]))));
                    assert(ns.take(i + 1) =~= ns.take(i as int).push(ns[i as int]));
                }
                i = i + 1;
            }
            assert(ns.take(ns.len() as int) =~= ns);
            out
        },
    }
}

/// The scripts of a `package.json` text as (name, command) pairs run
/// with `pm`; nothing when the text is not JSON or has no scripts.
pub fn parse_package_scripts(json: &str, pm: &str) -> (r: Vec<(String, String)>)
    ensures
        r.deep_view() == script_tasks(json_script_names(json_document(json@)), pm@),
{
    let doc = parse_json(json);
    let names = script_names_of(&doc);
    package_script_tasks(names, pm)
}

/// The string keys among a list of mapping keys, in order.
pub open spec fn string_keys(keys: Seq<Option<Seq<char>>>) -> Seq<Seq<char>>
    decreases keys.len(),
{
    if keys.len() == 0 {
        Seq::empty()
    } else {
        let rest = string_keys(keys.drop_last());
        match keys.last() {
            Some(k) => rest.push(k),
            None => rest,
        }
    }
}

/// The service names among the keys that `yaml_rust2` found.
pub fn compose_service_names(keys: Option<Vec<Option<String>>>) -> (r: Vec<String>)
    ensures
        r.deep_view() == (match keys {
            Some(v) => string_keys(texts_view(v@)),
            None => Seq::empty(),
        }),
{
    let mut out: Vec<String> = Vec::new();
    match keys {
        None => {
            assert(out.deep_view() =~= Seq::<Seq<char>>::empty());
            out
        },
        Some(v) => {
            let ghost ks = texts_view(v@);
            let mut i: usize = 0;
            while i < v.len()
                invariant
                    i <= v@.len(),
                    ks.len() == v@.len(),
                    forall|j: int|
                        0 <= j < v@.len() ==> #[trigger] ks[j] == (match v@[j] {
                            Some(s) => Some(s@),
                            None => None::<Seq<char>>,
                        }),
                    out.deep_view() =~= string_keys(ks.take(i as int)),
                decreases v@.len() - i,
            {
                proof {
                    assert(ks.take(i + 1).drop_last() =~= ks.take(i as int));
                    assert(ks.take(i + 1).last() == ks[i as int]);
                }
                match &v[i] {
                    Some(s) => {
                        let ghost prev = out.deep_view();
                        out.push(s.clone());
                        assert(out.deep_view() =~= prev.push(s@));
                    },
                    None => {},
                }
                i = i + 1;
            }
            assert(ks.take(ks.len() as int) =~= ks);
            out
        },
    }
}

/// The services named in a compose file: the string keys of its
/// `services` mapping; nothing when the text is not YAML or has none.
pub fn parse_compose_services(yaml: &str) -> (r: Vec<String>)
    ensures
        r.deep_view() == (match yaml_service_keys(yaml_documents(yaml@)) {
            Some(ks) => string_keys(ks),
            None => Seq::empty(),
        }),
{
    let docs = parse_yaml(yaml);
    let keys = service_keys_of(&docs);
    compose_service_names(keys)
}

/// The compose files looked for, in order of preference.
pub fn compose_file_names() -> (names: Vec<&'static str>)
    ensures
        names@.len() == 4,
        names@[0]@ == "compose.yaml"@,
        names@[1]@ == "compose.yml"@,
        names@[2]@ == "docker-compose.yml"@,
        names@[3]@ == "docker-compose.yaml"@,
{
    let mut names: Vec<&'static str> = Vec::new();
    names.push("compose.yaml");
    names.push("compose.yml");
    names.push("docker-compose.yml");
    names.push("docker-compose.yaml");
    names
}

/// The texts of a list of read results.
pub open spec fn texts_view(v: Seq<Option<String>>) -> Seq<Option<Seq<char>>> {
    v.map_values(|o: Option<String>| match o {
        Some(s) => Some(s@),
        None => None,
    })
}

/// The first text that could be read, if any.
pub open spec fn first_read(texts: Seq<Option<Seq<char>>>) -> Option<Seq<char>>
    decreases texts.len(),
{
    if texts.len() == 0 {
        None
    } else {
        match texts[0] {
            Some(t) => Some(t),
            None => first_read(texts.drop_first()),
        }
    }
}

/// The (name, command) pairs for the services of a compose text.
pub open spec fn compose_tasks(yaml: Option<Seq<char>>) -> Seq<(Seq<char>, Seq<char>)> {
    match yaml {
        Some(y) => match yaml_service_keys(yaml_documents(y)) {
            Some(ks) => string_keys(ks).map_values(|s: Seq<char>| (s, "docker compose up "@ + s)),
            None => Seq::empty(),
        },
        None => Seq::empty(),
    }
}

/// The suggested (name, command) pairs for a folder: its package scripts,
/// then the services of its first readable compose file.
pub open spec fn folder_tasks(
    package_json: Option<Seq<char>>,
    has_pnpm_lock: bool,
    has_yarn_lock: bool,
    compose_texts: Seq<Option<Seq<char>>>,
) -> Seq<(Seq<char>, Seq<char>)> {
    let scripts = match package_json {
        Some(j) => script_tasks(json_script_names(json_document(j)), package_manager(has_pnpm_lock, has_yarn_lock)),
        None => Seq::empty(),
    };
    scripts + compose_tasks(first_read(compose_texts))
}

/// `ts` are the tasks for the (name, command) pairs: each is named and
/// identified by its name.
pub open spec fn tasks_for(ts: Seq<Task>, pairs: Seq<(Seq<char>, Seq<char>)>) -> bool {
    &&& ts.len() == pairs.len()
    &&& forall|i: int|
        0 <= i < ts.len() ==> {
            &&& (#[trigger] ts[i]).id@ == pairs[i].0
            &&& ts[i].name@ == pairs[i].0
            &&& ts[i].command@ == pairs[i].1
        }
}

fn first_readable(texts: &Vec<Option<String>>) -> (r: Option<&String>)
    ensures
        match r {
            Some(t) => first_read(texts_view(texts@)) == Some(t@),
            None => first_read(texts_view(texts@)) is None,
        },
{
    let ghost all = texts_view(texts@);
    let mut i: usize = 0;
    assert(all.skip(0) =~= all);
    while i < texts.len()
        invariant
            i <= texts@.len(),
            all == texts_view(texts@),
            all.len() == texts@.len(),
            forall|j: int|
                0 <= j < texts@.len() ==> #[trigger] all[j] == (match texts@[j] {
                    Some(s) => Some(s@),
                    None => None::<Seq<char>>,
                }),
            first_read(all) == first_read(all.skip(i as int)),
        decreases texts@.len() - i,
    {
        proof {
            let t = all.skip(i as int);
            assert(t[0] == all[i as int]);
            assert(t.drop_first() =~= all.skip(i + 1));
        }
        match &texts[i] {
            Some(t) => {
                assert(all[i as int] == Some(t@));
                assert(all.skip(i as int)[0] == all[i as int]);
                assert(first_read(all.skip(i as int)) == Some(t@));
                return Some(t);
            },
            None => {},
        }
        i = i + 1;
    }
    assert(all.skip(i as int).len() == 0);
    None
}

fn push_pairs_as_tasks(out: &mut Vec<Task>, pairs: Vec<(String, String)>)
    ensures
        final(out)@.len() == old(out)@.len() + pairs@.len(),
        forall|i: int| 0 <= i < old(out)@.len() ==> #[trigger] final(out)@[i] == old(out)@[i],
        forall|i: int|
            0 <= i < pairs@.len() ==> {
                &&& (#[trigger] final(out)@[old(out)@.len() + i]).id@ == pairs@[i].0@
                &&& final(out)@[old(out)@.len() + i].name@ == pairs@[i].0@
                &&& final(out)@[old(out)@.len() + i].command@ == pairs@[i].1@
            },
{
    let ghost start = out@;
    let mut i: usize = 0;
    while i < pairs.len()
        invariant
            i <= pairs@.len(),
            out@.len() == start.len() + i,
            forall|k: int| 0 <= k < start.len() ==> #[trigger] out@[k] == start[k],
            forall|k: int|
                0 <= k < i ==> {
                    &&& (#[trigger] out@[start.len() + k]).id@ == pairs@[k].0@
                    &&& out@[start.len() + k].name@ == pairs@[k].0@
                    &&& out@[start.len() + k].command@ == pairs@[k].1@
                },
        decreases pairs@.len() - i,
    {
        let name = pairs[i].0.clone();
        let task = Task { id: name.clone(), name, command: pairs[i].1.clone() };
        let ghost prev = out@;
        out.push(task);
        proof {
            assert forall|k: int| 0 <= k < i + 1 implies {
                &&& (#[trigger] out@[start.len() + k]).id@ == pairs@[k].0@
                &&& out@[start.len() + k].name@ == pairs@[k].0@
                &&& out@[start.len() + k].command@ == pairs@[k].1@
            } by {
                if k < i {
                    assert(out@[start.len() + k] == prev[start.len() + k]);
                }
            }
        }
        i = i + 1;
    }
}

/// Suggested tasks for a folder, from what could be read there: the text of
/// its `package.json`, whether it has pnpm or yarn lock files, and the texts
/// of the files named by `compose_file_names` (in that order, none where
/// unreadable). Unreadable or malformed files contribute nothing.
pub fn tasks_from_folder(
    package_json: Option<&str>,
    has_pnpm_lock: bool,
    has_yarn_lock: bool,
    compose_texts: &Vec<Option<String>>,
) -> (tasks: Vec<Task>)
    ensures
        tasks_for(
            tasks@,
            folder_tasks(
                match package_json {
                    Some(j) => Some(j@),
                    None => None,
                },
                has_pnpm_lock,
                has_yarn_lock,
                texts_view(compose_texts@),
            ),
        ),
{
    let pm = detect_package_manager(has_pnpm_lock, has_yarn_lock);
    let scripts = match package_json {
        Some(j) => parse_package_scripts(j, pm),
        None => Vec::new(),
    };
    let ghost script_pairs = scripts.deep_view();
    let mut services: Vec<(String, String)> = Vec::new();
    match first_readable(compose_texts) {
        Some(yaml) => {
            let names = parse_compose_services(yaml.as_str());
            let ghost ns = names.deep_view();
            let mut i: usize = 0;
            while i < names.len()
                invariant
                    i <= names@.len(),
                    ns == names.deep_view(),
                    services.deep_view() =~= ns.take(i as int).map_values(
                        |s: Seq<char>| (s, "docker compose up "@ + s),
                    ),
                decreases names@.len() - i,
            {
                let name = names[i].clone();
                let command = String::from_str("docker compose up ").concat(name.as_str());
                let ghost prev = services.deep_view();
                services.push((name, command));
                proof {
                    assert(ns[i as int] == names@[i as int]@);
                    assert(services.deep_view() =~= prev.push((ns[i as int], "docker compose up "@ + ns[i as int])));
                    assert(ns.take(i + 1) =~= ns.take(i as int).push(ns[i as int]));
                }
                i = i + 1;
            }
            assert(ns.take(ns.len() as int) =~= ns);
        },
        None => {},
    }
    let ghost service_pairs = services.deep_view();
    let mut tasks: Vec<Task> = Vec::new();
    push_pairs_as_tasks(&mut tasks, scripts);
    let ghost t1 = tasks@;
    push_pairs_as_tasks(&mut tasks, services);
    proof {
        let pairs = script_pairs + service_pairs;
        assert(tasks@.len() == pairs.len());
        assert forall|i: int| 0 <= i < tasks@.len() implies {
            &&& (#[trigger] tasks@[i]).id@ == pairs[i].0
            &&& tasks@[i].name@ == pairs[i].0
            &&& tasks@[i].command@ == pairs[i].1
        } by {
            if i >= script_pairs.len() {
                let k = i - script_pairs.len();
                assert(tasks@[t1.len() + k] == tasks@[i]);
                assert(pairs[i] == service_pairs[k]);
            } else {
                assert(tasks@[i] == t1[i]);
                assert(t1[0 + i] == t1[i]);
                assert(pairs[i] == script_pairs[i]);
            }
        }
    }
    tasks
}

/// Law: a pnpm lock file means pnpm whatever else is there; without it a
/// yarn lock file means yarn; with neither, npm.
pub proof fn law_lock_files_pick_the_manager(has_pnpm_lock: bool, has_yarn_lock: bool)
    ensures
        has_pnpm_lock ==> package_manager(has_pnpm_lock, has_yarn_lock) == "pnpm"@,
        !has_pnpm_lock && has_yarn_lock ==> package_manager(has_pnpm_lock, has_yarn_lock) == "yarn"@,
        !has_pnpm_lock && !has_yarn_lock ==> package_manager(has_pnpm_lock, has_yarn_lock) == "npm"@,
        run_command(package_manager(has_pnpm_lock, has_yarn_lock), "dev"@) == package_manager(has_pnpm_lock, has_yarn_lock)
            + " run "@ + "dev"@,
{
}

} // verus!
