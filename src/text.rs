//! The text edges of the value model, through serde_json.
use vstd::prelude::*;
use crate::error::{BridgeError, BridgeErrorModel};
use crate::value::{HostValue, Tree, fields_tree, keys_once, tree_of, within_depth};
use crate::json::{
    JsonNode, bytes_error, bytes_tree, close_json, json_bytes_valid, json_error_message,
    json_from_slice, json_from_str, json_text_valid, json_to_string, json_to_vec, json_tree,
    keys_distinct, members_tree, open_json, rendered_bytes, rendered_text, text_error, text_tree,
};

verus! {

/// The levels that conversion from serde_json follows: one more than the
/// nested arrays and objects that serde_json's parser accepts.
pub const MAX_DEPTH: usize = 128;

/// Reverses a vector by moving its items.
fn reversed<T>(v: Vec<T>) -> (r: Vec<T>)
    ensures
        r@ == v@.reverse(),
{
    let mut rest = v;
    let mut out: Vec<T> = Vec::new();
    while rest.len() > 0
        invariant
            rest@.len() <= v@.len(),
            out@ == v@.subrange(rest@.len() as int, v@.len() as int).reverse(),
            rest@ == v@.subrange(0, rest@.len() as int),
        decreases rest@.len(),
    {
        let ghost before = rest@;
        let x = rest.pop().unwrap();
        proof {
            assert(before[before.len() - 1] == v@[before.len() - 1]);
            assert(rest@ =~= before.subrange(0, before.len() - 1));
            assert(v@.subrange(rest@.len() as int, v@.len() as int) =~= seq![x] + v@.subrange(
                before.len() as int,
                v@.len() as int,
            ));
            assert(rest@ =~= v@.subrange(0, rest@.len() as int));
        }
        out.push(x);
        proof {
            assert(out@ =~= v@.subrange(rest@.len() as int, v@.len() as int).reverse());
        }
    }
    assert(v@.subrange(0, v@.len() as int) =~= v@);
    out
}

proof fn lemma_fields_tree_prefix(fs: Seq<(String, HostValue)>, gs: Seq<(String, HostValue)>, n: int)
    requires
        0 <= n <= fs.len(),
        n <= gs.len(),
        forall|i: int| 0 <= i < n ==> fs[i] == gs[i],
    ensures
        fields_tree(fs, n) == fields_tree(gs, n),
    decreases n,
{
    if n > 0 {
        lemma_fields_tree_prefix(fs, gs, n - 1);
    }
}

proof fn lemma_members_tree_prefix(
    ms: Seq<(String, serde_json::Value)>,
    ns: Seq<(String, serde_json::Value)>,
    n: int,
)
    requires
        0 <= n <= ms.len(),
        n <= ns.len(),
        forall|i: int| 0 <= i < n ==> ms[i] == ns[i],
    ensures
        members_tree(ms, n) == members_tree(ns, n),
    decreases n,
{
    if n > 0 {
        lemma_members_tree_prefix(ms, ns, n - 1);
    }
}

proof fn lemma_members_tree_has(ms: Seq<(String, serde_json::Value)>, k: int, n: int)
    requires
        keys_distinct(ms),
        0 <= k < n <= ms.len(),
    ensures
        members_tree(ms, n).contains_key(ms[k].0@),
        members_tree(ms, n)[ms[k].0@] == json_tree(ms[k].1),
    decreases n,
{
    if k < n - 1 {
        lemma_members_tree_has(ms, k, n - 1);
        assert(ms[k].0@ != ms[n - 1].0@);
    }
}

proof fn lemma_members_tree_distinct(ms: Seq<(String, serde_json::Value)>, n: int)
    requires
        keys_distinct(ms),
        0 <= n <= ms.len(),
    ensures
        forall|p: int|
            0 <= p < n ==> members_tree(ms, n).contains_key((#[trigger] ms[p]).0@)
                && members_tree(ms, n)[ms[p].0@] == json_tree(ms[p].1),
        forall|k: Seq<char>|
            #[trigger] members_tree(ms, n).contains_key(k) ==> exists|p: int|
                0 <= p < n && (#[trigger] ms[p]).0@ == k,
    decreases n,
{
    if n > 0 {
        lemma_members_tree_distinct(ms, n - 1);
        assert forall|p: int| 0 <= p < n implies members_tree(ms, n).contains_key(
            (#[trigger] ms[p]).0@,
        ) && members_tree(ms, n)[ms[p].0@] == json_tree(ms[p].1) by {
            if p < n - 1 {
                assert(ms[p].0@ != ms[n - 1].0@);
            }
        }
        assert forall|k: Seq<char>| #[trigger] members_tree(ms, n).contains_key(k) implies exists|
            p: int,
        | 0 <= p < n && (#[trigger] ms[p]).0@ == k by {
            if k != ms[n - 1].0@ {
                assert(members_tree(ms, n - 1).contains_key(k));
            } else {
                assert(ms[n - 1].0@ == k);
            }
        }
    }
}

/// The position of the member with key `key`, if there is one.
fn find_key(ms: &Vec<(String, serde_json::Value)>, key: &String) -> (r: Option<usize>)
    ensures
        match r {
            Some(p) => p < ms@.len() && ms@[p as int].0@ == key@,
            None => forall|q: int| 0 <= q < ms@.len() ==> (#[trigger] ms@[q]).0@ != key@,
        },
{
    let mut q: usize = 0;
    while q < ms.len()
        invariant
            q <= ms@.len(),
            forall|x: int| 0 <= x < q ==> (#[trigger] ms@[x]).0@ != key@,
        decreases ms@.len() - q,
    {
        if ms[q].0 == *key {
            return Some(q);
        }
        q = q + 1;
    }
    None
}

/// Converts a serde_json value into the value model, following at most
/// `depth` levels; the tree is kept.
pub fn from_json(j: serde_json::Value, depth: usize) -> (r: Result<HostValue, BridgeError>)
    ensures
        within_depth(json_tree(j), depth as nat) ==> r is Ok,
        r is Ok ==> tree_of(r->Ok_0) == json_tree(j),
        r is Ok ==> keys_once(r->Ok_0),
        r is Err ==> r->Err_0@ == BridgeErrorModel::TooDeep,
    decreases depth,
{
    if depth == 0 {
        return Err(BridgeError::TooDeep);
    }
    let ghost t = json_tree(j);
    match open_json(j) {
        JsonNode::Null => Ok(HostValue::Null),
        JsonNode::Bool(b) => Ok(HostValue::Bool(b)),
        JsonNode::Number(n) => Ok(HostValue::Number(n)),
        JsonNode::Str(s) => Ok(HostValue::Str(s)),
        JsonNode::Array(items) => {
            let ghost a = items@;
            let mut rest = reversed(items);
            let mut out: Vec<HostValue> = Vec::new();
            while rest.len() > 0
                invariant
                    depth > 0,
                    t == json_tree(j),
                    t == Tree::Array(a.map_values(|x: serde_json::Value| json_tree(x))),
                    out@.len() + rest@.len() == a.len(),
                    rest@ == a.subrange(out@.len() as int, a.len() as int).reverse(),
                    forall|i: int| 0 <= i < out@.len() ==> tree_of(#[trigger] out@[i]) == json_tree(a[i]),
                    forall|i: int| 0 <= i < out@.len() ==> keys_once(#[trigger] out@[i]),
                decreases rest@.len(),
            {
                let ghost k = out@.len() as int;
                let ghost before = rest@;
                let x = rest.pop().unwrap();
                proof {
                    assert(x == before.last());
                    assert(x == a[k]);
                    assert(rest@ =~= a.subrange(k + 1, a.len() as int).reverse());
                    if within_depth(t, depth as nat) {
                        assert(within_depth(t->Array_0[k], (depth - 1) as nat));
                    }
                }
                match from_json(x, depth - 1) {
                    Ok(v) => out.push(v),
                    Err(e) => {
                        proof {
                            assert(t->Array_0[k] == json_tree(x));
                            if within_depth(t, depth as nat) {
                                assert(within_depth(t->Array_0[k], (depth - 1) as nat));
                                assert(false);
                            }
                        }
                        return Err(e);
                    },
                }
            }
            let r = HostValue::Array(out);
            proof {
                assert(tree_of(r)->Array_0 =~= t->Array_0);
            }
            Ok(r)
        },
        JsonNode::Object(members) => {
            let ghost m = members@;
            let mut rest = reversed(members);
            let mut out: Vec<(String, HostValue)> = Vec::new();
            while rest.len() > 0
                invariant
                    depth > 0,
                    t == json_tree(j),
                    t == Tree::Object(members_tree(m, m.len() as int)),
                    keys_distinct(m),
                    out@.len() + rest@.len() == m.len(),
                    rest@ == m.subrange(out@.len() as int, m.len() as int).reverse(),
                    fields_tree(out@, out@.len() as int) == members_tree(m, out@.len() as int),
                    forall|p: int|
                        0 <= p < out@.len() ==> (#[trigger] out@[p]).0@ == m[p].0@ && keys_once(
                            out@[p].1,
                        ),
                decreases rest@.len(),
            {
                let ghost k = out@.len() as int;
                let ghost before = rest@;
                let ghost old_out = out@;
                let (key, x) = rest.pop().unwrap();
                proof {
                    assert((key, x) == before.last());
                    assert((key, x) == m[k]);
                    assert(rest@ =~= m.subrange(k + 1, m.len() as int).reverse());
                }
                match from_json(x, depth - 1) {
                    Ok(v) => {
                        out.push((key, v));
                        proof {
                            lemma_fields_tree_prefix(old_out, out@, k);
                        }
                    },
                    Err(e) => {
                        proof {
                            if within_depth(t, depth as nat) {
                                lemma_members_tree_has(m, k, m.len() as int);
                                assert(t->Object_0.contains_key(key@));
                                assert(t->Object_0[key@] == json_tree(x));
                                assert(within_depth(json_tree(x), (depth - 1) as nat));
                                assert(false);
                            }
                        }
                        return Err(e);
                    },
                }
            }
            let r = HostValue::Object(out);
            proof {
                let fs = r->Object_0@;
                assert forall|a: int, b: int| 0 <= a < b < fs.len() implies (#[trigger] fs[a]).0@
                    != (#[trigger] fs[b]).0@ by {
                    assert(m[a].0@ != m[b].0@);
                }
            }
            Ok(r)
        },
    }
}

/// Converts a value of the model into a serde_json value with the same tree.
pub fn to_json(v: &HostValue) -> (r: serde_json::Value)
    ensures
        json_tree(r) == tree_of(*v),
    decreases v,
{
    match v {
        HostValue::Null => close_json(JsonNode::Null),
        HostValue::Bool(b) => close_json(JsonNode::Bool(*b)),
        HostValue::Number(n) => close_json(JsonNode::Number(n.clone())),
        HostValue::Str(s) => close_json(JsonNode::Str(s.clone())),
        HostValue::Array(items) => {
            let mut out: Vec<serde_json::Value> = Vec::new();
            let mut i: usize = 0;
            while i < items.len()
                invariant
                    *v == HostValue::Array(*items),
                    i <= items@.len(),
                    out@.len() == i,
                    forall|k: int| 0 <= k < i ==> json_tree(#[trigger] out@[k]) == tree_of(items@[k]),
                decreases items@.len() - i,
            {
                proof {
                    vstd::std_specs::vec::axiom_vec_index_decreases(*items, i as int);
                    assert(decreases_to!(*v => v->Array_0));
                    assert(decreases_to!(*items => items[i as int]));
                }
                out.push(to_json(&items[i]));
                i = i + 1;
            }
            let r = close_json(JsonNode::Array(out));
            proof {
                assert(json_tree(r)->Array_0 =~= tree_of(*v)->Array_0);
            }
            r
        },
        HostValue::Object(fields) => {
            let mut out: Vec<(String, serde_json::Value)> = Vec::new();
            let mut i: usize = 0;
            while i < fields.len()
                invariant
                    *v == HostValue::Object(*fields),
                    i <= fields@.len(),
                    keys_distinct(out@),
                    forall|p: int|
                        0 <= p < out@.len() ==> fields_tree(fields@, i as int).contains_key(
                            (#[trigger] out@[p]).0@,
                        ) && fields_tree(fields@, i as int)[out@[p].0@] == json_tree(out@[p].1),
                    forall|k: Seq<char>|
                        #[trigger] fields_tree(fields@, i as int).contains_key(k) ==> exists|p: int|
                            0 <= p < out@.len() && (#[trigger] out@[p]).0@ == k,
                decreases fields@.len() - i,
            {
                proof {
                    vstd::std_specs::vec::axiom_vec_index_decreases(*fields, i as int);
                    assert(decreases_to!(*v => v->Object_0));
                    assert(decreases_to!(*fields => fields[i as int]));
                    assert(decreases_to!(fields[i as int] => fields[i as int].1));
                }
                let ghost before = out@;
                let ghost prev = fields_tree(fields@, i as int);
                let key = &fields[i].0;
                let j = to_json(&fields[i].1);
                let ghost now = prev.insert(key@, json_tree(j));
                assert(fields_tree(fields@, i + 1) == now);
                match find_key(&out, key) {
                    Some(p) => {
                        out.set(p, (key.clone(), j));
                        proof {
                            assert forall|a: int, b: int| 0 <= a < b < out@.len() implies (
                            #[trigger] out@[a]).0@ != (#[trigger] out@[b]).0@ by {
                                assert(before[a].0@ != before[b].0@);
                            }
                            assert forall|q: int| 0 <= q < out@.len() implies now.contains_key(
                                (#[trigger] out@[q]).0@,
                            ) && now[out@[q].0@] == json_tree(out@[q].1) by {
                                if q != p {
                                    assert(out@[q] == before[q]);
                                    assert(before[q].0@ != before[p as int].0@);
                                }
                            }
                            assert forall|k: Seq<char>| #[trigger] now.contains_key(k) implies exists|
                                q: int,
                            | 0 <= q < out@.len() && (#[trigger] out@[q]).0@ == k by {
                                if k == key@ {
                                    assert(out@[p as int].0@ == k);
                                } else {
                                    assert(prev.contains_key(k));
                                    let q = choose|q: int| 0 <= q < before.len() && (#[trigger] before[q]).0@ == k;
                                    assert(out@[q].0@ == k);
                                }
                            }
                        }
                    },
                    None => {
                        out.push((key.clone(), j));
                        proof {
                            let n = before.len() as int;
                            assert forall|a: int, b: int| 0 <= a < b < out@.len() implies (
                            #[trigger] out@[a]).0@ != (#[trigger] out@[b]).0@ by {
                                assert(out@[a] == before[a]);
                                if b < n {
                                    assert(out@[b] == before[b]);
                                }
                            }
                            assert forall|q: int| 0 <= q < out@.len() implies now.contains_key(
                                (#[trigger] out@[q]).0@,
                            ) && now[out@[q].0@] == json_tree(out@[q].1) by {
                                if q < n {
                                    assert(out@[q] == before[q]);
                                    assert(before[q].0@ != key@);
                                }
                            }
                            assert forall|k: Seq<char>| #[trigger] now.contains_key(k) implies exists|
                                q: int,
                            | 0 <= q < out@.len() && (#[trigger] out@[q]).0@ == k by {
                                if k == key@ {
                                    assert(out@[n].0@ == k);
                                } else {
                                    assert(prev.contains_key(k));
                                    let q = choose|q: int| 0 <= q < before.len() && (#[trigger] before[q]).0@ == k;
                                    assert(out@[q] == before[q]);
                                }
                            }
                        }
                    },
                }
                i = i + 1;
            }
            proof {
                lemma_members_tree_distinct(out@, out@.len() as int);
                let m = members_tree(out@, out@.len() as int);
                let f = fields_tree(fields@, fields@.len() as int);
                assert forall|k: Seq<char>| m.contains_key(k) <==> f.contains_key(k) by {
                    if f.contains_key(k) {
                        let q = choose|q: int| 0 <= q < out@.len() && (#[trigger] out@[q]).0@ == k;
                        assert(m.contains_key(out@[q].0@));
                    }
                    if m.contains_key(k) {
                        let q = choose|q: int| 0 <= q < out@.len() && (#[trigger] out@[q]).0@ == k;
                        assert(f.contains_key(out@[q].0@));
                    }
                }
                assert forall|k: Seq<char>| m.contains_key(k) implies m[k] == f[k] by {
                    let q = choose|q: int| 0 <= q < out@.len() && (#[trigger] out@[q]).0@ == k;
                    assert(m[out@[q].0@] == json_tree(out@[q].1));
                }
                assert(m =~= f);
            }
            close_json(JsonNode::Object(out))
        },
    }
}

/// Parses text into a value: it succeeds exactly on valid text, with the
/// tree that the text denotes.
pub fn parse_text(s: &str) -> (r: Result<HostValue, BridgeError>)
    ensures
        r is Ok == json_text_valid(s@),
        r is Ok ==> tree_of(r->Ok_0) == text_tree(s@) && keys_once(r->Ok_0),
        r is Err ==> r->Err_0@ == BridgeErrorModel::Parse(text_error(s@)),
{
    match json_from_str(s) {
        Ok(j) => from_json(j, MAX_DEPTH),
        Err(e) => Err(BridgeError::Parse(json_error_message(&e))),
    }
}

/// Parses encoded text given as bytes: as `parse_text`.
pub fn parse_bytes(b: &[u8]) -> (r: Result<HostValue, BridgeError>)
    ensures
        r is Ok == json_bytes_valid(b@),
        r is Ok ==> tree_of(r->Ok_0) == bytes_tree(b@) && keys_once(r->Ok_0),
        r is Err ==> r->Err_0@ == BridgeErrorModel::Parse(bytes_error(b@)),
{
    match json_from_slice(b) {
        Ok(j) => from_json(j, MAX_DEPTH),
        Err(e) => Err(BridgeError::Parse(json_error_message(&e))),
    }
}

/// Renders a value as compact text; it always succeeds.
pub fn render_text(v: &HostValue) -> (r: Result<String, BridgeError>)
    ensures
        r is Ok,
        r is Ok ==> r->Ok_0@ == rendered_text(tree_of(*v)),
{
    match json_to_string(&to_json(v)) {
        Ok(s) => Ok(s),
        Err(e) => Err(BridgeError::Parse(json_error_message(&e))),
    }
}

/// Renders a value as compact encoded text; it always succeeds.
pub fn render_bytes(v: &HostValue) -> (r: Result<Vec<u8>, BridgeError>)
    ensures
        r is Ok,
        r is Ok ==> r->Ok_0@ == rendered_bytes(tree_of(*v)),
{
    match json_to_vec(&to_json(v)) {
        Ok(b) => Ok(b),
        Err(e) => Err(BridgeError::Parse(json_error_message(&e))),
    }
}

} // verus!
