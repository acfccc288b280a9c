//! The calls into serde_json that the text edges rest on.
use vstd::prelude::*;
use crate::text::MAX_DEPTH;
use crate::value::{Tree, within_depth};

verus! {

/// Host numbers are carried as the JSON codec's own number type, untouched.
#[verifier::external_type_specification]
#[verifier::external_body]
pub struct ExNumber(serde_json::Number);

/// Relies on serde_json::Number's derived Clone: the copy is equal.
pub assume_specification[ <serde_json::Number as Clone>::clone ](n: &serde_json::Number) -> (r:
    serde_json::Number)
    ensures
        r == *n,
;

#[verifier::external_type_specification]
#[verifier::external_body]
pub struct ExJsonValue(serde_json::Value);

#[verifier::external_type_specification]
#[verifier::external_body]
pub struct ExJsonError(serde_json::Error);

/// Whether serde_json accepts `s` as the text of one value.
pub uninterp spec fn json_text_valid(s: Seq<char>) -> bool;

/// Whether serde_json accepts `b` as the encoded text of one value.
pub uninterp spec fn json_bytes_valid(b: Seq<u8>) -> bool;

/// The message that serde_json's error `e` displays.
pub uninterp spec fn json_error_text(e: serde_json::Error) -> Seq<char>;

/// The error message with which serde_json refuses the text `s`.
pub uninterp spec fn text_error(s: Seq<char>) -> Seq<char>;

/// The error message with which serde_json refuses the encoded text `b`.
pub uninterp spec fn bytes_error(b: Seq<u8>) -> Seq<char>;

/// The logical tree that a serde_json value holds.
pub uninterp spec fn json_tree(j: serde_json::Value) -> Tree;

/// The tree that serde_json parses from the text `s`.
pub uninterp spec fn text_tree(s: Seq<char>) -> Tree;

/// The tree that serde_json parses from the encoded text `b`.
pub uninterp spec fn bytes_tree(b: Seq<u8>) -> Tree;

/// The compact text that serde_json renders for a tree.
pub uninterp spec fn rendered_text(t: Tree) -> Seq<char>;

/// The compact encoded text that serde_json renders for a tree.
pub uninterp spec fn rendered_bytes(t: Tree) -> Seq<u8>;

/// The object that serde_json's map holds with the first `n` members; it is
/// read only where no two members share a key.
pub open spec fn members_tree(ms: Seq<(String, serde_json::Value)>, n: int) -> Map<Seq<char>, Tree>
    decreases n,
{
    if n <= 0 || n > ms.len() {
        Map::empty()
    } else {
        members_tree(ms, n - 1).insert(ms[n - 1].0@, json_tree(ms[n - 1].1))
    }
}

/// Relies on serde_json::from_str: it succeeds exactly on valid text, the
/// tree depends on the text alone, and the parser refuses more than 127
/// nested arrays and objects (its recursion limit of 128). Its error holds
/// a code, a line and a column found from the text alone.
#[verifier::external_body]
pub(crate) fn json_from_str(s: &str) -> (r: Result<serde_json::Value, serde_json::Error>)
    ensures
        r is Err ==> json_error_text(r->Err_0) == text_error(s@),
        r is Ok == json_text_valid(s@),
        r is Ok ==> json_tree(r->Ok_0) == text_tree(s@),
        r is Ok ==> within_depth(json_tree(r->Ok_0), MAX_DEPTH as nat),
{
    serde_json::from_str(s)
}

/// Relies on serde_json::from_slice: as `json_from_str`, on bytes.
#[verifier::external_body]
pub(crate) fn json_from_slice(b: &[u8]) -> (r: Result<serde_json::Value, serde_json::Error>)
    ensures
        r is Err ==> json_error_text(r->Err_0) == bytes_error(b@),
        r is Ok == json_bytes_valid(b@),
        r is Ok ==> json_tree(r->Ok_0) == bytes_tree(b@),
        r is Ok ==> within_depth(json_tree(r->Ok_0), MAX_DEPTH as nat),
{
    serde_json::from_slice(b)
}

/// Relies on serde_json::to_string: it fails only where a Serialize impl
/// fails or a map key is not a string, neither of which a Value can hold.
#[verifier::external_body]
pub(crate) fn json_to_string(v: &serde_json::Value) -> (r: Result<String, serde_json::Error>)
    ensures
        r is Ok,
        r is Ok ==> r->Ok_0@ == rendered_text(json_tree(*v)),
{
    serde_json::to_string(v)
}

/// Relies on serde_json::to_vec: as `json_to_string`, as bytes.
#[verifier::external_body]
pub(crate) fn json_to_vec(v: &serde_json::Value) -> (r: Result<Vec<u8>, serde_json::Error>)
    ensures
        r is Ok,
        r is Ok ==> r->Ok_0@ == rendered_bytes(json_tree(*v)),
{
    serde_json::to_vec(v)
}

/// Relies on serde_json::Error's Display for its one-line message.
#[verifier::external_body]
pub(crate) fn json_error_message(e: &serde_json::Error) -> (r: String)
    ensures
        r@ == json_error_text(*e),
{
    e.to_string()
}

/// No two members share a key.
pub open spec fn keys_distinct(ms: Seq<(String, serde_json::Value)>) -> bool {
    forall|i: int, j: int| 0 <= i < j < ms.len() ==> (#[trigger] ms[i]).0@ != (#[trigger] ms[j]).0@
}

/// One level of a serde_json value, its children left as they are.
pub enum JsonNode {
    Null,
    Bool(bool),
    Number(serde_json::Number),
    Str(String),
    Array(Vec<serde_json::Value>),
    Object(Vec<(String, serde_json::Value)>),
}

/// The tree of the value whose one level is `n`.
pub open spec fn node_tree(n: JsonNode) -> Tree {
    match n {
        JsonNode::Null => Tree::Null,
        JsonNode::Bool(b) => Tree::Bool(b),
        JsonNode::Number(x) => Tree::Number(x),
        JsonNode::Str(s) => Tree::Str(s@),
        JsonNode::Array(a) => Tree::Array(a@.map_values(|x: serde_json::Value| json_tree(x))),
        JsonNode::Object(m) => Tree::Object(members_tree(m@, m@.len() as int)),
    }
}

/// Relies on serde_json::Value's variants: unpacks one level, moving the
/// fields; an object's members come out of its map, keys distinct.
#[verifier::external_body]
pub(crate) fn open_json(j: serde_json::Value) -> (r: JsonNode)
    ensures
        node_tree(r) == json_tree(j),
        r is Object ==> keys_distinct(r->Object_0@),
{
    match j {
        serde_json::Value::Null => JsonNode::Null,
        serde_json::Value::Bool(b) => JsonNode::Bool(b),
        serde_json::Value::Number(n) => JsonNode::Number(n),
        serde_json::Value::String(s) => JsonNode::Str(s),
        serde_json::Value::Array(a) => JsonNode::Array(a),
        serde_json::Value::Object(m) => JsonNode::Object(m.into_iter().collect()),
    }
}

/// Relies on serde_json::Value's variants: packs one level, moving the
/// fields; object members, each key once, go into a map that holds them all.
#[verifier::external_body]
pub(crate) fn close_json(n: JsonNode) -> (r: serde_json::Value)
    requires
        n is Object ==> keys_distinct(n->Object_0@),
    ensures
        json_tree(r) == node_tree(n),
{
    match n {
        JsonNode::Null => serde_json::Value::Null,
        JsonNode::Bool(b) => serde_json::Value::Bool(b),
        JsonNode::Number(x) => serde_json::Value::Number(x),
        JsonNode::Str(s) => serde_json::Value::String(s),
        JsonNode::Array(a) => serde_json::Value::Array(a),
        JsonNode::Object(m) => serde_json::Value::Object(m.into_iter().collect()),
    }
}

} // verus!
