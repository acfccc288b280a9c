//! The greeting entry point: encoded `{name}` in, encoded `{greeting}` out.
use vstd::prelude::*;
use crate::codec::{
    HelloResponse, Request, SchemaError, decode_hello_request, encode_hello_response,
    greeting_key, is_str_record, lemma_str_field_tree, lemma_str_record_tree, name_key,
    spec_hello_request, str_record_tree, tree_str_field,
};
use crate::error::{BridgeError, BridgeErrorModel};
use crate::json::{bytes_error, bytes_tree, json_bytes_valid, rendered_bytes};
use crate::text::{parse_bytes, render_bytes};
use crate::value::HostValue;

verus! {

pub open spec fn greeting_text(name: Seq<char>) -> Seq<char> {
    "Hello, "@ + name + "!"@
}

pub fn greeting_for(name: &str) -> (r: String)
    ensures
        r@ == greeting_text(name@),
{
    let mut s = String::from_str("Hello, ");
    s.append(name);
    s.append("!");
    s
}

/// Answers a greeting request given as a value with a greeting response.
pub fn greet_value(v: &HostValue) -> (r: Result<HostValue, SchemaError>)
    ensures
        match spec_hello_request(*v) {
            Ok(name) => r is Ok && is_str_record(r->Ok_0, greeting_key(), greeting_text(name)),
            Err(e) => r is Err && r->Err_0@ == e,
        },
{
    match decode_hello_request(v) {
        Ok(q) => {
            let p = HelloResponse { greeting: greeting_for(q.name.as_str()) };
            Ok(encode_hello_response(&p))
        },
        Err(e) => Err(e),
    }
}

/// Answers a request whose body is the encoded text of `{name}` with the
/// encoded text of `{greeting}`.
pub fn hello(req: &Request) -> (r: Result<Vec<u8>, BridgeError>)
    ensures
        !json_bytes_valid(req.body@) ==> r is Err && r->Err_0@ == BridgeErrorModel::Parse(
            bytes_error(req.body@),
        ),
        json_bytes_valid(req.body@) ==> match tree_str_field(bytes_tree(req.body@), name_key()) {
            Ok(name) => r is Ok && r->Ok_0@ == rendered_bytes(
                str_record_tree(greeting_key(), greeting_text(name)),
            ),
            Err(e) => r is Err && r->Err_0@ == BridgeErrorModel::Schema(e),
        },
{
    let v = match parse_bytes(req.body.as_slice()) {
        Ok(v) => v,
        Err(e) => return Err(e),
    };
    proof {
        lemma_str_field_tree(v, name_key());
    }
    match greet_value(&v) {
        Ok(out) => {
            proof {
                let name = spec_hello_request(v)->Ok_0;
                lemma_str_record_tree(out, greeting_key(), greeting_text(name));
            }
            render_bytes(&out)
        },
        Err(e) => Err(BridgeError::Schema(e)),
    }
}

} // verus!
