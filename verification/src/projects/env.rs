//! The `.env` overlay of a project folder: the variables a task is started
//! with on top of the inherited environment, and a notice for lines that
//! could not be used. Reading the file is the caller's.
use vstd::prelude::*;
use vstd::string::*;

use crate::text::{decimal, decimal_string};

verus! {

/// The variables of a `.env` file and what to tell the user about it.
/// `vars` holds each variable once, in the order first seen; a later line
/// for the same name overrides its value.
#[derive(Debug)]
pub struct EnvOverlay {
    pub vars: Vec<(String, String)>,
    pub notice: Option<String>,
}

/// The view of a list of (name, value) pairs.
pub open spec fn pairs_view(v: Seq<(String, String)>) -> Seq<(Seq<char>, Seq<char>)> {
    v.map_values(|p: (String, String)| (p.0@, p.1@))
}

/// The view of the entries read from a `.env` file.
pub open spec fn entries_view(v: Seq<Option<(String, String)>>) -> Seq<Option<(Seq<char>, Seq<char>)>> {
    v.map_values(|e: Option<(String, String)>| match e {
        Some(p) => Some((p.0@, p.1@)),
        None => None,
    })
}

/// The variables a sequence of `.env` entries sets: each valid entry sets
/// its name, a later one overriding an earlier one; `None` stands for a
/// malformed line, which sets nothing.
pub open spec fn env_vars(es: Seq<Option<(Seq<char>, Seq<char>)>>) -> Map<Seq<char>, Seq<char>>
    decreases es.len(),
{
    if es.len() == 0 {
        Map::empty()
    } else {
        match es.last() {
            Some(p) => env_vars(es.drop_last()).insert(p.0, p.1),
            None => env_vars(es.drop_last()),
        }
    }
}

/// How many entries are malformed.
pub open spec fn malformed_count(es: Seq<Option<(Seq<char>, Seq<char>)>>) -> nat
    decreases es.len(),
{
    if es.len() == 0 {
        0
    } else {
        malformed_count(es.drop_last()) + if es.last() is None {
            1nat
        } else {
            0nat
        }
    }
}

/// The notice for `n` malformed lines.
pub open spec fn malformed_notice(n: nat) -> Seq<char> {
    ".env: ignored "@ + decimal(n) + " malformed line"@ + if n == 1 {
        ""@
    } else {
        "s"@
    }
}

/// `vars` lists the variables of `m`, each once.
pub open spec fn lists_vars(vars: Seq<(Seq<char>, Seq<char>)>, m: Map<Seq<char>, Seq<char>>) -> bool {
    &&& forall|i: int, j: int| 0 <= i < j < vars.len() ==> (#[trigger] vars[i]).0 != (#[trigger] vars[j]).0
    &&& forall|i: int| 0 <= i < vars.len() ==> m.contains_key((#[trigger] vars[i]).0) && m[vars[i].0] == vars[i].1
    &&& forall|k: Seq<char>| #[trigger] m.contains_key(k) ==> exists|i: int| 0 <= i < vars.len() && (#[trigger] vars[i]).0 == k
}

/// `o` is the overlay for entries `es`.
pub open spec fn overlay_of(o: EnvOverlay, es: Seq<Option<(Seq<char>, Seq<char>)>>) -> bool {
    &&& lists_vars(pairs_view(o.vars@), env_vars(es))
    &&& match o.notice {
        Some(n) => malformed_count(es) > 0 && n@ == malformed_notice(malformed_count(es)),
        None => malformed_count(es) == 0,
    }
}

/// The entries `dotenvy` reads from a `.env` text, by name only: one item
/// per variable line, `None` for a line it could not parse.
pub uninterp spec fn dotenv_keys(contents: Seq<u8>) -> Seq<Option<Seq<char>>>;

/// The names of a list of entries (`None` for a malformed line).
pub open spec fn entry_keys(es: Seq<Option<(Seq<char>, Seq<char>)>>) -> Seq<Option<Seq<char>>> {
    es.map_values(|e: Option<(Seq<char>, Seq<char>)>| match e {
        Some(p) => Some(p.0),
        None => None,
    })
}

/// Reads the entries of a `.env` text with `dotenvy::from_read_iter`, one
/// per variable line, `None` for a line it could not parse. Which lines
/// parse and the names they set depend on `contents` alone, and are named
/// `dotenv_keys`; the values are not claimed, because `dotenvy` expands
/// `$NAME` references from the process environment.
#[verifier::external_body]
fn dotenv_entries(contents: &[u8]) -> (entries: Vec<Option<(String, String)>>)
    ensures
        entry_keys(entries_view(entries@)) == dotenv_keys(contents@),
{
    dotenvy::from_read_iter(contents).map(|item| item.ok()).collect()
}

fn find_var(vars: &Vec<(String, String)>, key: &String) -> (r: Option<usize>)
    ensures
        match r {
            Some(i) => i < vars@.len() && vars@[i as int].0@ == key@,
            None => forall|i: int| 0 <= i < vars@.len() ==> (#[trigger] vars@[i]).0@ != key@,
        },
{
    let mut i: usize = 0;
    while i < vars.len()
        invariant
            i <= vars@.len(),
            forall|j: int| 0 <= j < i ==> (#[trigger] vars@[j]).0@ != key@,
        decreases vars@.len() - i,
    {
        if vars[i].0 == *key {
            return Some(i);
        }
        i = i + 1;
    }
    None
}

proof fn lemma_lists_set(
    before: Seq<(Seq<char>, Seq<char>)>,
    at: int,
    k: Seq<char>,
    v: Seq<char>,
    m0: Map<Seq<char>, Seq<char>>,
)
    requires
        lists_vars(before, m0),
        0 <= at < before.len(),
        before[at].0 == k,
    ensures
        lists_vars(before.update(at, (k, v)), m0.insert(k, v)),
{
    let after = before.update(at, (k, v));
    let m1 = m0.insert(k, v);
    assert forall|i: int, j: int| 0 <= i < j < after.len() implies (#[trigger] after[i]).0 != (#[trigger] after[j]).0 by {
        assert(before[i].0 != before[j].0);
    }
    assert forall|a: int| 0 <= a < after.len() implies m1.contains_key((#[trigger] after[a]).0) && m1[after[a].0]
        == after[a].1 by {
        if a != at {
            if a < at {
                assert(before[a].0 != before[at].0);
            } else {
                assert(before[at].0 != before[a].0);
            }
            assert(after[a] == before[a]);
        }
    }
    assert forall|key: Seq<char>| #[trigger] m1.contains_key(key) implies exists|a: int|
        0 <= a < after.len() && (#[trigger] after[a]).0 == key by {
        if key == k {
            assert(after[at].0 == key);
        } else {
            let a = choose|a: int| 0 <= a < before.len() && (#[trigger] before[a]).0 == key;
            assert(after[a].0 == key);
        }
    }
}

proof fn lemma_lists_push(before: Seq<(Seq<char>, Seq<char>)>, k: Seq<char>, v: Seq<char>, m0: Map<Seq<char>, Seq<char>>)
    requires
        lists_vars(before, m0),
        forall|a: int| 0 <= a < before.len() ==> (#[trigger] before[a]).0 != k,
    ensures
        lists_vars(before.push((k, v)), m0.insert(k, v)),
{
    let after = before.push((k, v));
    let m1 = m0.insert(k, v);
    assert forall|i: int, j: int| 0 <= i < j < after.len() implies (#[trigger] after[i]).0 != (#[trigger] after[j]).0 by {
        if j < before.len() {
            assert(before[i].0 != before[j].0);
        } else {
            assert(after[i] == before[i]);
        }
    }
    assert forall|a: int| 0 <= a < after.len() implies m1.contains_key((#[trigger] after[a]).0) && m1[after[a].0]
        == after[a].1 by {
        if a < before.len() {
            assert(after[a] == before[a]);
        }
    }
    assert forall|key: Seq<char>| #[trigger] m1.contains_key(key) implies exists|a: int|
        0 <= a < after.len() && (#[trigger] after[a]).0 == key by {
        if key == k {
            assert(after[before.len() as int].0 == key);
        } else {
            let a = choose|a: int| 0 <= a < before.len() && (#[trigger] before[a]).0 == key;
            assert(after[a].0 == key);
        }
    }
}

/// The overlay for the entries read from a `.env` file: the variables they
/// set, and a notice counting the malformed lines when there are any.
pub fn overlay_from_entries(entries: Vec<Option<(String, String)>>) -> (o: EnvOverlay)
    ensures
        overlay_of(o, entries_view(entries@)),
{
    let ghost es = entries_view(entries@);
    let mut vars: Vec<(String, String)> = Vec::new();
    let mut malformed: u64 = 0;
    let mut entries = entries;
    let n = entries.len();
    let mut i: usize = 0;
    while i < n
        invariant
            n == entries@.len(),
            es.len() == n,
            i <= n,
            forall|j: int|
                i <= j < n ==> #[trigger] es[j] == (match entries@[j] {
                    Some(p) => Some((p.0@, p.1@)),
                    None => None::<(Seq<char>, Seq<char>)>,
                }),
            lists_vars(pairs_view(vars@), env_vars(es.take(i as int))),
            malformed == malformed_count(es.take(i as int)),
            malformed <= i,
        decreases n - i,
    {
        let mut e: Option<(String, String)> = None;
        entries.set_and_swap(i, &mut e);
        let ghost before_vars = pairs_view(vars@);
        let ghost m0 = env_vars(es.take(i as int));
        proof {
            assert(es.take(i + 1).drop_last() =~= es.take(i as int));
            assert(es.take(i + 1).last() == es[i as int]);
        }
        match e {
            Some(p) => {
                let (key, value) = p;
                let ghost k = key@;
                let ghost v = value@;
                assert(es[i as int] == Some((k, v)));
                match find_var(&vars, &key) {
                    Some(at) => {
                        vars.set(at, (key, value));
                        proof {
                            assert(pairs_view(vars@) =~= before_vars.update(at as int, (k, v)));
                            lemma_lists_set(before_vars, at as int, k, v, m0);
                        }
                    },
                    None => {
                        vars.push((key, value));
                        proof {
                            assert(pairs_view(vars@) =~= before_vars.push((k, v)));
                            lemma_lists_push(before_vars, k, v, m0);
                        }
                    },
                }
            },
            None => {
                malformed = malformed + 1;
            },
        }
        i = i + 1;
    }
    assert(es.take(n as int) =~= es);
    let notice = if malformed > 0 {
        let count = decimal_string(malformed);
        let tail = if malformed == 1 {
            String::from_str(" malformed line")
        } else {
            String::from_str(" malformed lines")
        };
        let text = String::from_str(".env: ignored ").concat(count.as_str()).concat(tail.as_str());
        proof {
            reveal_strlit(" malformed line");
            reveal_strlit(" malformed lines");
            reveal_strlit("s");
            reveal_strlit("");
            let m = malformed as nat;
            let suffix: Seq<char> = if m == 1 {
                ""@
            } else {
                "s"@
            };
            assert(tail@ =~= " malformed line"@ + suffix);
            assert(text@ =~= ".env: ignored "@ + decimal(m) + " malformed line"@ + suffix);
        }
        Some(text)
    } else {
        None
    };
    EnvOverlay { vars, notice }
}

/// The overlay for the text of a `.env` file: the overlay of the entries
/// `dotenvy` reads from it, whose lines and names the text fixes.
pub fn env_overlay(contents: &[u8]) -> (o: EnvOverlay)
    ensures
        exists|es: Seq<Option<(Seq<char>, Seq<char>)>>|
            overlay_of(o, es) && #[trigger] entry_keys(es) == dotenv_keys(contents@),
{
    let entries = dotenv_entries(contents);
    let ghost es = entries_view(entries@);
    let o = overlay_from_entries(entries);
    assert(overlay_of(o, es));
    o
}

/// The overlay when the `.env` file exists but could not be opened: no
/// variables, and a notice with the error.
pub fn load_failed_overlay(error: &str) -> (o: EnvOverlay)
    ensures
        o.vars@.len() == 0,
        o.notice matches Some(n) && n@ == ".env: could not load ("@ + error@ + ")"@,
{
    let notice = String::from_str(".env: could not load (").concat(error).concat(")");
    EnvOverlay { vars: Vec::new(), notice: Some(notice) }
}

impl EnvOverlay {
    /// The value of a variable, if the overlay sets it.
    pub fn get(&self, key: &str) -> (r: Option<String>)
        ensures
            match r {
                Some(v) => exists|i: int|
                    0 <= i < self.vars@.len() && (#[trigger] self.vars@[i]).0@ == key@ && self.vars@[i].1@ == v@,
                None => forall|i: int| 0 <= i < self.vars@.len() ==> (#[trigger] self.vars@[i]).0@ != key@,
            },
    {
        let k = String::from_str(key);
        match find_var(&self.vars, &k) {
            Some(i) => Some(self.vars[i].1.clone()),
            None => None,
        }
    }
}

} // verus!
