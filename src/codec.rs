//! Record codecs: fixed-shape records to and from the value model.
use vstd::prelude::*;
use crate::value::{Kind, HostValue, Tree, fields_tree, kind_of, lookup, get_field, tree_of};

verus! {

/// Why a value does not have the shape of the expected record.
pub enum SchemaError {
    MissingField(String),
    TypeMismatch { field: String, expected: Kind, found: Kind },
    UnknownVariant(String),
    NotAnObject(Kind),
}

/// The mathematical form of a `SchemaError`.
pub enum SchemaErrorModel {
    MissingField(Seq<char>),
    TypeMismatch(Seq<char>, Kind, Kind),
    UnknownVariant(Seq<char>),
    NotAnObject(Kind),
}

impl View for SchemaError {
    type V = SchemaErrorModel;

    open spec fn view(&self) -> SchemaErrorModel {
        match self {
            SchemaError::MissingField(f) => SchemaErrorModel::MissingField(f@),
            SchemaError::TypeMismatch { field, expected, found } => SchemaErrorModel::TypeMismatch(
                field@,
                *expected,
                *found,
            ),
            SchemaError::UnknownVariant(t) => SchemaErrorModel::UnknownVariant(t@),
            SchemaError::NotAnObject(k) => SchemaErrorModel::NotAnObject(*k),
        }
    }
}

pub open spec fn view_text_result(r: Result<String, SchemaError>) -> Result<Seq<char>, SchemaErrorModel> {
    match r {
        Ok(s) => Ok(s@),
        Err(e) => Err(e@),
    }
}

/// The string held by field `name` of the object `v`.
pub open spec fn spec_str_field(v: HostValue, name: Seq<char>) -> Result<Seq<char>, SchemaErrorModel> {
    match v {
        HostValue::Object(fs) => match lookup(fs@, name) {
            None => Err(SchemaErrorModel::MissingField(name)),
            Some(HostValue::Str(s)) => Ok(s@),
            Some(other) => Err(SchemaErrorModel::TypeMismatch(name, Kind::Str, kind_of(other))),
        },
        _ => Err(SchemaErrorModel::NotAnObject(kind_of(v))),
    }
}

/// `v` is an object whose only field is `name`, holding the string `s`.
pub open spec fn is_str_record(v: HostValue, name: Seq<char>, s: Seq<char>) -> bool {
    match v {
        HostValue::Object(fs) => fs@.len() == 1 && fs@[0].0@ == name && fs@[0].1 is Str
            && fs@[0].1->Str_0@ == s,
        _ => false,
    }
}

/// `v` is an object whose fields are `operator` holding `tag`, then `value`
/// holding `s`.
pub open spec fn is_tagged_record(v: HostValue, tag: Seq<char>, s: Seq<char>) -> bool {
    match v {
        HostValue::Object(fs) => fs@.len() == 2 && fs@[0].0@ == operator_key() && fs@[0].1 is Str
            && fs@[0].1->Str_0@ == tag && fs@[1].0@ == value_key() && fs@[1].1 is Str
            && fs@[1].1->Str_0@ == s,
        _ => false,
    }
}

pub open spec fn operator_key() -> Seq<char> {
    seq!['o', 'p', 'e', 'r', 'a', 't', 'o', 'r']
}

pub open spec fn value_key() -> Seq<char> {
    seq!['v', 'a', 'l', 'u', 'e']
}

pub open spec fn print_tag() -> Seq<char> {
    seq!['p', 'r', 'i', 'n', 't']
}

pub open spec fn name_key() -> Seq<char> {
    seq!['n', 'a', 'm', 'e']
}

pub open spec fn greeting_key() -> Seq<char> {
    seq!['g', 'r', 'e', 'e', 't', 'i', 'n', 'g']
}

/// Reads the string field `name` of the object `v`.
pub fn str_field(v: &HostValue, name: &str) -> (r: Result<String, SchemaError>)
    ensures
        view_text_result(r) == spec_str_field(*v, name@),
{
    match v {
        HostValue::Object(fs) => match get_field(fs, name) {
            None => Err(SchemaError::MissingField(String::from_str(name))),
            Some(HostValue::Str(s)) => Ok(s.clone()),
            Some(other) => Err(
                SchemaError::TypeMismatch {
                    field: String::from_str(name),
                    expected: Kind::Str,
                    found: other.kind(),
                },
            ),
        },
        _ => Err(SchemaError::NotAnObject(v.kind())),
    }
}

/// An object with the one string field `name`.
fn str_record(name: &str, s: &String) -> (v: HostValue)
    ensures
        is_str_record(v, name@, s@),
{
    let mut fs: Vec<(String, HostValue)> = Vec::new();
    fs.push((String::from_str(name), HostValue::Str(s.clone())));
    HostValue::Object(fs)
}

pub struct HelloRequest {
    pub name: String,
}

pub struct HelloResponse {
    pub greeting: String,
}

/// A raw payload: bytes of encoded text, kept uninterpreted.
pub struct Request {
    pub body: Vec<u8>,
}

/// A tagged operation descriptor; the field `operator` selects the variant.
pub enum Operation {
    Print { value: String },
}

/// What decoding `v` as a greeting request gives: the name.
pub open spec fn spec_hello_request(v: HostValue) -> Result<Seq<char>, SchemaErrorModel> {
    spec_str_field(v, name_key())
}

/// What decoding `v` as a greeting response gives: the greeting.
pub open spec fn spec_hello_response(v: HostValue) -> Result<Seq<char>, SchemaErrorModel> {
    spec_str_field(v, greeting_key())
}

/// What decoding `v` as an operation gives: the text of a `Print`.
pub open spec fn spec_operation(v: HostValue) -> Result<Seq<char>, SchemaErrorModel> {
    match spec_str_field(v, operator_key()) {
        Err(e) => Err(e),
        Ok(tag) => if tag == print_tag() {
            spec_str_field(v, value_key())
        } else {
            Err(SchemaErrorModel::UnknownVariant(tag))
        },
    }
}

pub fn decode_hello_request(v: &HostValue) -> (r: Result<HelloRequest, SchemaError>)
    ensures
        match r {
            Ok(q) => spec_hello_request(*v) == Ok::<Seq<char>, SchemaErrorModel>(q.name@),
            Err(e) => spec_hello_request(*v) == Err::<Seq<char>, SchemaErrorModel>(e@),
        },
{
    proof { reveal_strlit("name");
        assert("name"@ =~= name_key()); }
    match str_field(v, "name") {
        Ok(name) => Ok(HelloRequest { name }),
        Err(e) => Err(e),
    }
}

pub fn encode_hello_request(q: &HelloRequest) -> (v: HostValue)
    ensures
        is_str_record(v, name_key(), q.name@),
{
    proof { reveal_strlit("name");
        assert("name"@ =~= name_key()); }
    str_record("name", &q.name)
}

pub fn decode_hello_response(v: &HostValue) -> (r: Result<HelloResponse, SchemaError>)
    ensures
        match r {
            Ok(p) => spec_hello_response(*v) == Ok::<Seq<char>, SchemaErrorModel>(p.greeting@),
            Err(e) => spec_hello_response(*v) == Err::<Seq<char>, SchemaErrorModel>(e@),
        },
{
    proof { reveal_strlit("greeting");
        assert("greeting"@ =~= greeting_key()); }
    match str_field(v, "greeting") {
        Ok(greeting) => Ok(HelloResponse { greeting }),
        Err(e) => Err(e),
    }
}

pub fn encode_hello_response(p: &HelloResponse) -> (v: HostValue)
    ensures
        is_str_record(v, greeting_key(), p.greeting@),
{
    proof { reveal_strlit("greeting");
        assert("greeting"@ =~= greeting_key()); }
    str_record("greeting", &p.greeting)
}

pub fn decode_operation(v: &HostValue) -> (r: Result<Operation, SchemaError>)
    ensures
        match r {
            Ok(Operation::Print { value }) => spec_operation(*v) == Ok::<Seq<char>, SchemaErrorModel>(
                value@,
            ),
            Err(e) => spec_operation(*v) == Err::<Seq<char>, SchemaErrorModel>(e@),
        },
{
    proof {
        reveal_strlit("operator");
        assert("operator"@ =~= operator_key());
        reveal_strlit("value");
        assert("value"@ =~= value_key());
        reveal_strlit("print");
        assert("print"@ =~= print_tag());
    }
    let tag = match str_field(v, "operator") {
        Ok(t) => t,
        Err(e) => return Err(e),
    };
    if tag == String::from_str("print") {
        match str_field(v, "value") {
            Ok(value) => Ok(Operation::Print { value }),
            Err(e) => Err(e),
        }
    } else {
        Err(SchemaError::UnknownVariant(tag))
    }
}

pub fn encode_operation(op: &Operation) -> (v: HostValue)
    ensures
        match op {
            Operation::Print { value } => is_tagged_record(v, print_tag(), value@),
        },
{
    proof {
        reveal_strlit("operator");
        assert("operator"@ =~= operator_key());
        reveal_strlit("value");
        assert("value"@ =~= value_key());
        reveal_strlit("print");
        assert("print"@ =~= print_tag());
    }
    match op {
        Operation::Print { value } => {
            let mut fs: Vec<(String, HostValue)> = Vec::new();
            fs.push((String::from_str("operator"), HostValue::Str(String::from_str("print"))));
            fs.push((String::from_str("value"), HostValue::Str(value.clone())));
            HostValue::Object(fs)
        },
    }
}

proof fn lemma_single_field_lookup(v: HostValue, name: Seq<char>, s: Seq<char>)
    requires
        is_str_record(v, name, s),
    ensures
        spec_str_field(v, name) == Ok::<Seq<char>, SchemaErrorModel>(s),
{
    let fs = v->Object_0@;
    assert(fs.drop_last().len() == 0);
}

/// Decoding the encoding of a greeting request gives back its name.
pub proof fn lemma_hello_request_round_trip(q: HelloRequest, v: HostValue)
    requires
        is_str_record(v, name_key(), q.name@),
    ensures
        spec_hello_request(v) == Ok::<Seq<char>, SchemaErrorModel>(q.name@),
{
    lemma_single_field_lookup(v, name_key(), q.name@);
}

/// Decoding the encoding of a greeting response gives back its greeting.
pub proof fn lemma_hello_response_round_trip(p: HelloResponse, v: HostValue)
    requires
        is_str_record(v, greeting_key(), p.greeting@),
    ensures
        spec_hello_response(v) == Ok::<Seq<char>, SchemaErrorModel>(p.greeting@),
{
    lemma_single_field_lookup(v, greeting_key(), p.greeting@);
}

/// Decoding the encoding of an operation gives back the same operation.
pub proof fn lemma_operation_round_trip(op: Operation, v: HostValue)
    requires
        match op {
            Operation::Print { value } => is_tagged_record(v, print_tag(), value@),
        },
    ensures
        match op {
            Operation::Print { value } => spec_operation(v) == Ok::<Seq<char>, SchemaErrorModel>(
                value@,
            ),
        },
{
    let fs = v->Object_0@;
    assert(fs.drop_last().drop_last().len() == 0);
    assert(operator_key() != value_key()) by {
        assert(operator_key().len() != value_key().len());
    }
    assert(fs.drop_last().last() == fs[0]);
    assert(lookup(fs, operator_key()) == lookup(fs.drop_last(), operator_key()));
    assert(lookup(fs.drop_last(), operator_key()) == Some(fs[0].1));
    assert(lookup(fs, value_key()) == Some(fs[1].1));
}

pub open spec fn tree_kind(t: Tree) -> Kind {
    match t {
        Tree::Null => Kind::Null,
        Tree::Bool(_) => Kind::Bool,
        Tree::Number(_) => Kind::Number,
        Tree::Str(_) => Kind::Str,
        Tree::Array(_) => Kind::Array,
        Tree::Object(_) => Kind::Object,
    }
}

/// The string field `name` of a tree, as `spec_str_field` reads it of a value.
pub open spec fn tree_str_field(t: Tree, name: Seq<char>) -> Result<Seq<char>, SchemaErrorModel> {
    match t {
        Tree::Object(m) => if m.contains_key(name) {
            match m[name] {
                Tree::Str(s) => Ok(s),
                other => Err(SchemaErrorModel::TypeMismatch(name, Kind::Str, tree_kind(other))),
            }
        } else {
            Err(SchemaErrorModel::MissingField(name))
        },
        _ => Err(SchemaErrorModel::NotAnObject(tree_kind(t))),
    }
}

/// The tree of an object whose only field `name` holds the string `s`.
pub open spec fn str_record_tree(name: Seq<char>, s: Seq<char>) -> Tree {
    Tree::Object(Map::empty().insert(name, Tree::Str(s)))
}

proof fn lemma_lookup_tree(fs: Seq<(String, HostValue)>, n: int, name: Seq<char>)
    requires
        0 <= n <= fs.len(),
    ensures
        match lookup(fs.subrange(0, n), name) {
            None => !fields_tree(fs, n).contains_key(name),
            Some(x) => fields_tree(fs, n).contains_key(name) && fields_tree(fs, n)[name] == tree_of(x),
        },
    decreases n,
{
    if n > 0 {
        assert(fs.subrange(0, n).drop_last() =~= fs.subrange(0, n - 1));
        lemma_lookup_tree(fs, n - 1, name);
    }
}

/// Reading a string field of a value and of its tree agree.
pub proof fn lemma_str_field_tree(v: HostValue, name: Seq<char>)
    ensures
        spec_str_field(v, name) == tree_str_field(tree_of(v), name),
{
    if let HostValue::Object(fs) = v {
        lemma_lookup_tree(fs@, fs@.len() as int, name);
        assert(fs@.subrange(0, fs@.len() as int) =~= fs@);
        match lookup(fs@, name) {
            Some(x) => {
                assert(kind_of(x) == tree_kind(tree_of(x)));
            },
            None => {},
        }
    }
}

/// An object with one string field has the tree of that one field.
pub proof fn lemma_str_record_tree(v: HostValue, name: Seq<char>, s: Seq<char>)
    requires
        is_str_record(v, name, s),
    ensures
        tree_of(v) == str_record_tree(name, s),
{
    let fs = v->Object_0@;
    assert(fields_tree(fs, 0) == Map::<Seq<char>, Tree>::empty());
    assert(tree_of(fs[0].1) == Tree::Str(s));
    assert(fields_tree(fs, 1) == fields_tree(fs, 0).insert(fs[0].0@, tree_of(fs[0].1)));
    assert(fields_tree(fs, 1) =~= Map::<Seq<char>, Tree>::empty().insert(name, Tree::Str(s)));
}

} // verus!
