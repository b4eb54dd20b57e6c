//! What the network-backed workflow backend decides before and after each
//! request: which build definition a product names, how build parameters
//! are encoded, what a fetched work item looks like to a script, and the
//! errors for what is not configured or not wired. The requests themselves
//! belong to the caller.

use vstd::prelude::*;

use crate::builds::build_results_url;
use crate::client::AzdoClient;
use crate::config::{ProductConfig, WikiConfig};
use crate::ops::{BuildParams, BuildRef, OpsError, Task, WorkItemId};
use crate::workitem::{description_outcome, description_text, WorkItem};
use crate::text::{
    join,
    dec, lemma_text_lt_asymmetric, lemma_text_lt_total, lemma_text_lt_transitive, push_str, str_less,
    text_lt,
};

verus! {

/// The pairs of `s`, as text.
pub open spec fn pair_texts(s: Seq<(String, String)>) -> Seq<(Seq<char>, Seq<char>)> {
    s.map_values(|p: (String, String)| (p.0@, p.1@))
}

/// Each key of `pairs` with the value of its last occurrence.
pub open spec fn last_values(pairs: Seq<(Seq<char>, Seq<char>)>) -> Map<Seq<char>, Seq<char>>
    decreases pairs.len(),
{
    if pairs.len() == 0 {
        Map::empty()
    } else {
        last_values(pairs.drop_last()).insert(pairs.last().0, pairs.last().1)
    }
}

/// The keys of `s` strictly increase.
pub open spec fn keys_ascending(s: Seq<(Seq<char>, Seq<char>)>) -> bool {
    forall|i: int, j: int| 0 <= i < j < s.len() ==> text_lt(#[trigger] s[i].0, #[trigger] s[j].0)
}

/// `s` lists the entries of `m` in key order, each once.
pub open spec fn lists_map(s: Seq<(Seq<char>, Seq<char>)>, m: Map<Seq<char>, Seq<char>>) -> bool {
    &&& keys_ascending(s)
    &&& forall|i: int| 0 <= i < s.len() ==> #[trigger] m.contains_key(s[i].0) && m[s[i].0] == s[i].1
    &&& forall|k: Seq<char>| #[trigger] m.contains_key(k) ==> exists|i: int| 0 <= i < s.len() && s[i].0 == k
}

/// The entries of `m` in key order, each once (the one such listing,
/// where there is one).
pub open spec fn key_order(m: Map<Seq<char>, Seq<char>>) -> Seq<(Seq<char>, Seq<char>)> {
    choose|s: Seq<(Seq<char>, Seq<char>)>| lists_map(s, m)
}

/// Put `k => v` into the key-ordered list `r`, replacing the value of an
/// equal key.
fn insert_sorted(r: &mut Vec<(String, String)>, k: String, v: String, Ghost(m): Ghost<Map<Seq<char>, Seq<char>>>)
    requires
        lists_map(pair_texts(old(r)@), m),
    ensures
        lists_map(pair_texts(final(r)@), m.insert(k@, v@)),
{
    let ghost s = pair_texts(r@);
    let mut i: usize = 0;
    loop
        invariant
            i <= r@.len(),
            s == pair_texts(r@),
            lists_map(s, m),
            forall|j: int| 0 <= j < i ==> text_lt(#[trigger] s[j].0, k@),
        ensures
            i <= r@.len(),
            s == pair_texts(r@),
            forall|j: int| 0 <= j < i ==> text_lt(#[trigger] s[j].0, k@),
            i < r@.len() ==> !text_lt(s[i as int].0, k@),
        decreases r@.len() - i,
    {
        if i >= r.len() {
            break;
        }
        assert(s[i as int] == (r@[i as int].0@, r@[i as int].1@));
        if !str_less(r[i].0.as_str(), k.as_str()) {
            break;
        }
        i = i + 1;
    }
    let ghost m2 = m.insert(k@, v@);
    if i < r.len() && r[i].0.eq(&k) {
        assert(s[i as int].0 == k@);
        r.set(i, (k, v));
        let ghost t = pair_texts(r@);
        assert(t =~= s.update(i as int, (k@, v@)));
        assert forall|a: int, b: int| 0 <= a < b < t.len() implies text_lt(#[trigger] t[a].0, #[trigger] t[b].0) by {
            assert(t[a].0 == s[a].0);
            assert(t[b].0 == s[b].0);
        }
        assert forall|a: int| 0 <= a < t.len() implies #[trigger] m2.contains_key(t[a].0) && m2[t[a].0] == t[a].1 by {
            if a != i {
                assert(t[a] == s[a]);
                if s[a].0 == k@ {
                    if a < i {
                        lemma_text_lt_asymmetric(s[a].0, s[i as int].0);
                    } else {
                        lemma_text_lt_asymmetric(s[i as int].0, s[a].0);
                    }
                }
                assert(m.contains_key(s[a].0));
                assert(s[a].0 != k@);
            } else {
                assert(t[a] == (k@, v@));
            }
        }
        assert forall|key: Seq<char>| #[trigger] m2.contains_key(key) implies exists|a: int| 0 <= a < t.len() && t[a].0 == key by {
            if key != k@ {
                assert(m.contains_key(key));
                let a = choose|a: int| 0 <= a < s.len() && s[a].0 == key;
                assert(t[a].0 == key);
            } else {
                assert(t[i as int].0 == key);
            }
        }
    } else {
        proof {
            if i < s.len() {
                lemma_text_lt_total(s[i as int].0, k@);
            }
        }
        r.insert(i, (k, v));
        let ghost t = pair_texts(r@);
        assert(t =~= s.insert(i as int, (k@, v@)));
        assert forall|a: int, b: int| 0 <= a < b < t.len() implies text_lt(#[trigger] t[a].0, #[trigger] t[b].0) by {
            if b < i {
                assert(t[a] == s[a] && t[b] == s[b]);
            } else if b == i {
                assert(t[a] == s[a]);
            } else if a < i {
                assert(t[a] == s[a] && t[b] == s[b - 1]);
                assert(text_lt(s[a].0, k@));
                lemma_text_lt_total(s[i as int].0, k@);
                if a < i - 1 || i < b - 1 {
                    assert(text_lt(s[a].0, s[b - 1].0));
                }
            } else if a == i {
                assert(t[b] == s[b - 1]);
                if b - 1 > i {
                    assert(text_lt(s[i as int].0, s[b - 1].0));
                    lemma_text_lt_transitive(k@, s[i as int].0, s[b - 1].0);
                }
            } else {
                assert(t[a] == s[a - 1] && t[b] == s[b - 1]);
            }
        }
        assert forall|a: int| 0 <= a < t.len() implies #[trigger] m2.contains_key(t[a].0) && m2[t[a].0] == t[a].1 by {
            if a < i {
                assert(t[a] == s[a]);
                lemma_text_lt_asymmetric(s[a].0, k@);
                assert(m.contains_key(s[a].0));
            } else if a > i {
                assert(t[a] == s[a - 1]);
                assert(m.contains_key(s[a - 1].0));
                assert(text_lt(k@, s[i as int].0));
                if a - 1 > i {
                    assert(text_lt(s[i as int].0, s[a - 1].0));
                    lemma_text_lt_transitive(k@, s[i as int].0, s[a - 1].0);
                }
                lemma_text_lt_asymmetric(k@, s[a - 1].0);
            }
        }
        assert forall|key: Seq<char>| #[trigger] m2.contains_key(key) implies exists|a: int| 0 <= a < t.len() && t[a].0 == key by {
            if key != k@ {
                assert(m.contains_key(key));
                let a = choose|a: int| 0 <= a < s.len() && s[a].0 == key;
                if a < i {
                    assert(t[a].0 == key);
                } else {
                    assert(t[a + 1].0 == key);
                }
            } else {
                assert(t[i as int].0 == key);
            }
        }
    }
}

/// The build parameters as a map: each name once, in name order, with the
/// value it was last given.
pub fn sorted_params(params: &Vec<(String, String)>) -> (r: Vec<(String, String)>)
    ensures
        lists_map(pair_texts(r@), last_values(pair_texts(params@))),
        pair_texts(r@) == key_order(last_values(pair_texts(params@))),
{
    let mut r: Vec<(String, String)> = Vec::new();
    let mut i: usize = 0;
    assert(pair_texts(params@).subrange(0, 0) =~= Seq::<(Seq<char>, Seq<char>)>::empty());
    assert(pair_texts(r@) =~= Seq::<(Seq<char>, Seq<char>)>::empty());
    while i < params.len()
        invariant
            i <= params@.len(),
            lists_map(pair_texts(r@), last_values(pair_texts(params@).subrange(0, i as int))),
        decreases params.len() - i,
    {
        let ghost before = pair_texts(params@).subrange(0, i as int);
        let ghost after = pair_texts(params@).subrange(0, i + 1);
        assert(after.drop_last() =~= before);
        assert(after.last() == (params@[i as int].0@, params@[i as int].1@));
        let k = params[i].0.clone();
        let v = params[i].1.clone();
        insert_sorted(&mut r, k, v, Ghost(last_values(before)));
        i = i + 1;
    }
    assert(pair_texts(params@).subrange(0, params@.len() as int) =~= pair_texts(params@));
    proof {
        let m = last_values(pair_texts(params@));
        lemma_listing_unique(pair_texts(r@), key_order(m), m);
    }
    r
}


/// A hexadecimal digit, lower case.
pub open spec fn hex_digit(n: int) -> char {
    seq!['0', '1', '2', '3', '4', '5', '6', '7', '8', '9', 'a', 'b', 'c', 'd', 'e', 'f'][n]
}

/// A character as serde_json writes it inside a JSON string: `"` and `\`
/// and the control characters below U+0020 escaped (the short forms for
/// backspace, tab, line feed, form feed and carriage return, `\u00xx`
/// for the others), every other character as it is.
pub open spec fn json_char(c: char) -> Seq<char> {
    if c == '"' {
        seq!['\\', '"']
    } else if c == '\\' {
        seq!['\\', '\\']
    } else if c == '\x08' {
        seq!['\\', 'b']
    } else if c == '\t' {
        seq!['\\', 't']
    } else if c == '\n' {
        seq!['\\', 'n']
    } else if c == '\x0c' {
        seq!['\\', 'f']
    } else if c == '\r' {
        seq!['\\', 'r']
    } else if (c as int) < 0x20 {
        seq!['\\', 'u', '0', '0', hex_digit((c as int) / 16), hex_digit((c as int) % 16)]
    } else {
        seq![c]
    }
}

/// A JSON string literal holding `s`.
pub open spec fn json_string(s: Seq<char>) -> Seq<char> {
    seq!['"'] + s.fold_left(Seq::<char>::empty(), |acc: Seq<char>, c: char| acc + json_char(c)) + seq!['"']
}

/// The JSON text that `serde_json::to_string` writes for a map from
/// strings to strings holding `entries`, in that order: `{`, the
/// `"key":"value"` members separated by `,`, then `}`.
pub open spec fn json_string_map(entries: Seq<(Seq<char>, Seq<char>)>) -> Seq<char> {
    seq!['{'] + join(
        Seq::new(entries.len(), |i: int| json_string(entries[i].0) + seq![':'] + json_string(entries[i].1)),
        seq![','],
    ) + seq!['}']
}

/// `serde_json::to_string` of the `BTreeMap<&str, &str>` with the entries
/// of `pairs`. Claimed: the text is that serialisation (as `json_string_map`
/// spells it out), and it succeeds, as serde_json documents for maps whose
/// keys are strings. The keys come distinct and in ascending order, so the
/// map holds exactly the pairs, in the order given.
#[verifier::external_body]
fn json_object(pairs: &Vec<(String, String)>) -> (r: String)
    requires
        keys_ascending(pair_texts(pairs@)),
    ensures
        r@ == json_string_map(pair_texts(pairs@)),
{
    let map: std::collections::BTreeMap<&str, &str> =
        pairs.iter().map(|(k, v)| (k.as_str(), v.as_str())).collect();
    serde_json::to_string(&map).unwrap_or_default()
}

/// The `parameters` string sent when a build is queued: nothing when there
/// are no parameters, else the JSON object of the parameters by name (each
/// name once, with its last value, in name order).
pub fn build_parameters(params: &Vec<(String, String)>) -> (r: Option<String>)
    ensures
        params@.len() == 0 <==> r is None,
        r matches Some(t) ==> t@ == json_string_map(key_order(last_values(pair_texts(params@)))),
{
    if params.len() == 0 {
        return None;
    }
    let sorted = sorted_params(params);
    let text = json_object(&sorted);
    proof {
        let m = last_values(pair_texts(params@));
        assert(lists_map(pair_texts(sorted@), m));
        lemma_listing_unique(pair_texts(sorted@), key_order(m), m);
    }
    Some(text)
}

/// The `(name, definition)` pairs of the products that name a build
/// definition, in the given order.
pub open spec fn named_ids(ps: Seq<(String, ProductConfig)>) -> Seq<(Seq<char>, u32)>
    decreases ps.len(),
{
    if ps.len() == 0 {
        Seq::empty()
    } else {
        let init = named_ids(ps.drop_last());
        match ps.last().1.build_definition_id {
            Some(id) => init.push((ps.last().0@, id)),
            None => init,
        }
    }
}

/// The pairs of `s`, names as text.
pub open spec fn id_texts(s: Seq<(String, u32)>) -> Seq<(Seq<char>, u32)> {
    s.map_values(|p: (String, u32)| (p.0@, p.1))
}

/// The build definition each product names, for the products that name
/// one, in the given order.
pub fn build_definitions(products: &Vec<(String, ProductConfig)>) -> (r: Vec<(String, u32)>)
    ensures
        id_texts(r@) == named_ids(products@),
{
    let mut r: Vec<(String, u32)> = Vec::new();
    let mut j: usize = 0;
    assert(id_texts(r@) =~= named_ids(products@.subrange(0, 0)));
    while j < products.len()
        invariant
            j <= products@.len(),
            id_texts(r@) == named_ids(products@.subrange(0, j as int)),
        decreases products.len() - j,
    {
        let ghost before = r@;
        assert(products@.subrange(0, j + 1).drop_last() =~= products@.subrange(0, j as int));
        match products[j].1.build_definition_id {
            Some(id) => {
                let name = products[j].0.clone();
                r.push((name, id));
                assert(id_texts(r@) =~= id_texts(before).push((products@[j as int].0@, id)));
            },
            None => {},
        }
        j = j + 1;
    }
    assert(products@.subrange(0, products@.len() as int) =~= products@);
    r
}

/// The build definition of product `def`, or the error naming it.
pub fn find_build_definition(defs: &Vec<(String, u32)>, def: &str) -> (r: Result<u32, OpsError>)
    ensures
        match r {
            Ok(id) => exists|i: int| 0 <= i < defs@.len() && (#[trigger] defs@[i]).0@ == def@
                && defs@[i].1 == id && forall|k: int| 0 <= k < i ==> (#[trigger] defs@[k]).0@ != def@,
            Err(e) => (forall|i: int| 0 <= i < defs@.len() ==> (#[trigger] defs@[i]).0@ != def@)
                && (e matches OpsError::Io(m) && m@ == "no build_definition_id for product `"@ + def@
                + "`"@),
        },
{
    let wanted = String::from_str(def);
    let mut i: usize = 0;
    while i < defs.len()
        invariant
            i <= defs@.len(),
            wanted@ == def@,
            forall|k: int| 0 <= k < i ==> (#[trigger] defs@[k]).0@ != def@,
        decreases defs.len() - i,
    {
        if defs[i].0.eq(&wanted) {
            return Ok(defs[i].1);
        }
        i = i + 1;
    }
    let mut m = String::from_str("no build_definition_id for product `");
    push_str(&mut m, def);
    push_str(&mut m, "`");
    Err(OpsError::Io(m))
}


/// What queueing build `def` with `params` sends: the definition's id and
/// the parameters string, or the error for a product without one.
pub fn plan_build(defs: &Vec<(String, u32)>, def: &str, params: &BuildParams) -> (r: Result<(u32, Option<String>), OpsError>)
    ensures
        match r {
            Ok((id, p)) => (exists|i: int| 0 <= i < defs@.len() && (#[trigger] defs@[i]).0@ == def@
                && defs@[i].1 == id && forall|k: int| 0 <= k < i ==> (#[trigger] defs@[k]).0@ != def@)
                && (params.0@.len() == 0 <==> p is None)
                && (p matches Some(t) ==> t@ == json_string_map(key_order(last_values(pair_texts(params.0@))))),
            Err(e) => (forall|i: int| 0 <= i < defs@.len() ==> (#[trigger] defs@[i]).0@ != def@)
                && (e matches OpsError::Io(m) && m@ == "no build_definition_id for product `"@ + def@
                + "`"@),
        },
{
    let id = match find_build_definition(defs, def) {
        Ok(id) => id,
        Err(e) => return Err(e),
    };
    Ok((id, build_parameters(&params.0)))
}

/// The reference to queued build `id`: its id and its results page.
pub fn build_ref(client: &AzdoClient, id: u64) -> (r: BuildRef)
    ensures
        r.id == id,
        r.url@ == client.project_url_text("/_build/results?buildId="@ + dec(id as nat)),
{
    BuildRef { id, url: build_results_url(client, id) }
}

/// A fetched work item as a workflow sees it, under the id it was asked
/// for: type, state, title, the description as text, no tags or assignee,
/// and its browser URL. A description that cannot be flattened is an I/O
/// error with the render error's message.
pub fn task_from_item(client: &AzdoClient, id: WorkItemId, item: &WorkItem) -> (r: Result<Task, OpsError>)
    ensures
        match description_outcome(*item) {
            Ok(d) => r matches Ok(t) && t.id == id && t.kind@ == item.fields.work_item_type@
                && t.state@ == item.fields.state@ && t.title@ == item.fields.title@
                && t.description@ == d && t.tags@.len() == 0 && t.assigned_to is None
                && t.url@ == client.project_url_text("/_workitems/edit/"@ + dec(item.id as nat)),
            Err(m) => r matches Err(e) && e matches OpsError::Io(x) && x@ == "render error: "@ + m,
        },
{
    let description = match description_text(item) {
        Ok(d) => d,
        Err(e) => return Err(OpsError::from_azdo(e)),
    };
    Ok(Task {
        id,
        kind: String::from_str(item.work_item_type()),
        state: String::from_str(item.state()),
        title: String::from_str(item.title()),
        description,
        tags: Vec::new(),
        assigned_to: None,
        url: client.web_item_url(item.id),
    })
}

/// The configured wiki's id, or the error naming the missing section.
pub fn wiki_id_of(wiki: &Option<WikiConfig>) -> (r: Result<String, OpsError>)
    ensures
        match wiki {
            Some(w) => r matches Ok(id) && id@ == w.id@,
            None => r matches Err(e) && e matches OpsError::Io(m) && m@ == "no `[wiki]` section in config"@,
        },
{
    match wiki {
        Some(w) => Ok(w.id.clone()),
        None => Err(OpsError::Io(String::from_str("no `[wiki]` section in config"))),
    }
}

/// The error of a backend method that is deliberately left unwired.
pub fn not_wired(method: &str) -> (r: OpsError)
    ensures
        r matches OpsError::Io(m) && m@ == method@ + ": not wired in the S8 + Rhai spike stage"@,
{
    let mut m = String::from_str(method);
    push_str(&mut m, ": not wired in the S8 + Rhai spike stage");
    OpsError::Io(m)
}

/// A script's work item id, which must not be negative.
pub fn script_item_id(n: i64) -> (r: Result<u64, String>)
    ensures
        n >= 0 ==> r == Ok::<u64, String>(n as u64),
        n < 0 ==> (r matches Err(m) && m@ == "task: id must be >= 0"@),
{
    if n >= 0 {
        Ok(n as u64)
    } else {
        Err(String::from_str("task: id must be >= 0"))
    }
}

/// An id handed back to a script, which must fit its integers; `what`
/// names the id in the error.
pub fn script_int(n: u64, what: &str) -> (r: Result<i64, String>)
    ensures
        n <= i64::MAX ==> r == Ok::<i64, String>(n as i64),
        n > i64::MAX ==> (r matches Err(m) && m@ == what@ + " overflows i64"@),
{
    if n <= 9223372036854775807 {
        Ok(n as i64)
    } else {
        let mut m = String::from_str(what);
        push_str(&mut m, " overflows i64");
        Err(m)
    }
}


/// A map has one listing in key order.
proof fn lemma_listing_unique(s1: Seq<(Seq<char>, Seq<char>)>, s2: Seq<(Seq<char>, Seq<char>)>, m: Map<Seq<char>, Seq<char>>)
    requires
        lists_map(s1, m),
        lists_map(s2, m),
    ensures
        s1 == s2,
    decreases s1.len(),
{
    if s1.len() == 0 {
        if s2.len() > 0 {
            assert(m.contains_key(s2[0].0));
        }
        assert(s1 =~= s2);
    } else {
        assert(m.contains_key(s1[0].0));
        let j = choose|j: int| 0 <= j < s2.len() && s2[j].0 == s1[0].0;
        assert(m.contains_key(s2[0].0));
        let i = choose|i: int| 0 <= i < s1.len() && s1[i].0 == s2[0].0;
        if i > 0 {
            assert(text_lt(s1[0].0, s1[i].0));
            if j > 0 {
                assert(text_lt(s2[0].0, s2[j].0));
                lemma_text_lt_asymmetric(s1[0].0, s2[0].0);
            } else {
                lemma_text_lt_asymmetric(s1[0].0, s1[0].0);
            }
        } else if j > 0 {
            assert(text_lt(s2[0].0, s2[j].0));
            lemma_text_lt_asymmetric(s2[0].0, s2[0].0);
        }
        let k0 = s1[0].0;
        assert(s2[0].0 == k0);
        let m2 = m.remove(k0);
        let t1 = s1.drop_first();
        let t2 = s2.drop_first();
        assert(lists_map(t1, m2)) by {
            assert forall|a: int, b: int| 0 <= a < b < t1.len() implies text_lt(#[trigger] t1[a].0, #[trigger] t1[b].0) by {
                assert(t1[a] == s1[a + 1] && t1[b] == s1[b + 1]);
            }
            assert forall|a: int| 0 <= a < t1.len() implies #[trigger] m2.contains_key(t1[a].0) && m2[t1[a].0] == t1[a].1 by {
                assert(t1[a] == s1[a + 1]);
                assert(text_lt(s1[0].0, s1[a + 1].0));
                lemma_text_lt_asymmetric(k0, k0);
                assert(m.contains_key(s1[a + 1].0));
            }
            assert forall|key: Seq<char>| #[trigger] m2.contains_key(key) implies exists|a: int| 0 <= a < t1.len() && t1[a].0 == key by {
                assert(m.contains_key(key));
                let a = choose|a: int| 0 <= a < s1.len() && s1[a].0 == key;
                assert(a != 0);
                assert(t1[a - 1].0 == key);
            }
        }
        assert(lists_map(t2, m2)) by {
            assert forall|a: int, b: int| 0 <= a < b < t2.len() implies text_lt(#[trigger] t2[a].0, #[trigger] t2[b].0) by {
                assert(t2[a] == s2[a + 1] && t2[b] == s2[b + 1]);
            }
            assert forall|a: int| 0 <= a < t2.len() implies #[trigger] m2.contains_key(t2[a].0) && m2[t2[a].0] == t2[a].1 by {
                assert(t2[a] == s2[a + 1]);
                assert(text_lt(s2[0].0, s2[a + 1].0));
                lemma_text_lt_asymmetric(k0, k0);
                assert(m.contains_key(s2[a + 1].0));
            }
            assert forall|key: Seq<char>| #[trigger] m2.contains_key(key) implies exists|a: int| 0 <= a < t2.len() && t2[a].0 == key by {
                assert(m.contains_key(key));
                let a = choose|a: int| 0 <= a < s2.len() && s2[a].0 == key;
                assert(a != 0);
                assert(t2[a - 1].0 == key);
            }
        }
        lemma_listing_unique(t1, t2, m2);
        assert(m.contains_key(s1[0].0) && m.contains_key(s2[0].0));
        assert(s1[0] == s2[0]);
        assert(s1 =~= seq![s1[0]] + t1);
        assert(s2 =~= seq![s2[0]] + t2);
    }
}

/// Build parameters are encoded deterministically: two argument lists in
/// which every name last received the same value give the same listing,
/// and so the same parameters string, whatever order they came in.
pub proof fn law_params_order_does_not_matter(
    a: Seq<(Seq<char>, Seq<char>)>,
    b: Seq<(Seq<char>, Seq<char>)>,
    s1: Seq<(Seq<char>, Seq<char>)>,
    s2: Seq<(Seq<char>, Seq<char>)>,
)
    requires
        last_values(a) == last_values(b),
        lists_map(s1, last_values(a)),
        lists_map(s2, last_values(b)),
    ensures
        s1 == s2,
        json_string_map(s1) == json_string_map(s2),
{
    lemma_listing_unique(s1, s2, last_values(a));
}

} // verus!
