//! The closed model of host values.
use vstd::prelude::*;

verus! {

/// A dynamically typed value as exchanged with the host. An object holds
/// its fields as a list, in the order given; one that comes from text has
/// each key once.
pub enum HostValue {
    Null,
    Bool(bool),
    Number(serde_json::Number),
    Str(String),
    Array(Vec<HostValue>),
    Object(Vec<(String, HostValue)>),
}

/// Which variant a value is, used in error reports.
#[derive(PartialEq, Eq, Structural, Clone, Copy, Debug)]
pub enum Kind {
    Null,
    Bool,
    Number,
    Str,
    Array,
    Object,
}

pub open spec fn kind_of(v: HostValue) -> Kind {
    match v {
        HostValue::Null => Kind::Null,
        HostValue::Bool(_) => Kind::Bool,
        HostValue::Number(_) => Kind::Number,
        HostValue::Str(_) => Kind::Str,
        HostValue::Array(_) => Kind::Array,
        HostValue::Object(_) => Kind::Object,
    }
}

/// The value of field `name` in `fields`; a later field of the same name
/// shadows an earlier one.
pub open spec fn lookup(fields: Seq<(String, HostValue)>, name: Seq<char>) -> Option<HostValue>
    decreases fields.len(),
{
    if fields.len() == 0 {
        None
    } else if fields.last().0@ == name {
        Some(fields.last().1)
    } else {
        lookup(fields.drop_last(), name)
    }
}

/// The logical tree of a value: what the text codec preserves. Objects are
/// maps from keys to trees, field order dropped, a later field of the same
/// name overriding an earlier one.
pub enum Tree {
    Null,
    Bool(bool),
    Number(serde_json::Number),
    Str(Seq<char>),
    Array(Seq<Tree>),
    Object(Map<Seq<char>, Tree>),
}

pub open spec fn tree_of(v: HostValue) -> Tree
    decreases v,
{
    match v {
        HostValue::Null => Tree::Null,
        HostValue::Bool(b) => Tree::Bool(b),
        HostValue::Number(n) => Tree::Number(n),
        HostValue::Str(s) => Tree::Str(s@),
        HostValue::Array(items) => Tree::Array(
            Seq::new(items@.len(), |i: int| if 0 <= i < items@.len() { tree_of(items@[i]) } else { Tree::Null }),
        ),
        HostValue::Object(fs) => Tree::Object(fields_tree(fs@, fs@.len() as int)),
    }
}

/// The map of the first `n` fields.
pub open spec fn fields_tree(fs: Seq<(String, HostValue)>, n: int) -> Map<Seq<char>, Tree>
    decreases fs, n,
{
    if n <= 0 || n > fs.len() {
        Map::empty()
    } else {
        fields_tree(fs, n - 1).insert(fs[n - 1].0@, tree_of(fs[n - 1].1))
    }
}

/// Every object within `v` has each key once.
pub open spec fn keys_once(v: HostValue) -> bool
    decreases v,
{
    match v {
        HostValue::Array(items) => forall|i: int|
            0 <= i < items@.len() ==> keys_once(#[trigger] items@[i]),
        HostValue::Object(fs) => (forall|a: int, b: int|
            0 <= a < b < fs@.len() ==> (#[trigger] fs@[a]).0@ != (#[trigger] fs@[b]).0@) && (forall|
            i: int,
        | 0 <= i < fs@.len() ==> keys_once((#[trigger] fs@[i]).1)),
        _ => true,
    }
}

/// Every path from the root of `t` has at most `d` nodes.
pub open spec fn within_depth(t: Tree, d: nat) -> bool
    decreases d,
{
    d > 0 && match t {
        Tree::Array(s) => forall|i: int|
            0 <= i < s.len() ==> within_depth(#[trigger] s[i], (d - 1) as nat),
        Tree::Object(m) => forall|k: Seq<char>|
            #[trigger] m.contains_key(k) ==> within_depth(m[k], (d - 1) as nat),
        _ => true,
    }
}

impl HostValue {
    pub fn kind(&self) -> (k: Kind)
        ensures
            k == kind_of(*self),
    {
        match self {
            HostValue::Null => Kind::Null,
            HostValue::Bool(_) => Kind::Bool,
            HostValue::Number(_) => Kind::Number,
            HostValue::Str(_) => Kind::Str,
            HostValue::Array(_) => Kind::Array,
            HostValue::Object(_) => Kind::Object,
        }
    }
}

/// Finds field `name` among `fields`, searching from the most recent one.
pub fn get_field<'a>(fields: &'a Vec<(String, HostValue)>, name: &str) -> (r: Option<&'a HostValue>)
    ensures
        match r {
            Some(v) => lookup(fields@, name@) == Some(*v),
            None => lookup(fields@, name@) is None,
        },
{
    let key = String::from_str(name);
    let mut i: usize = fields.len();
    assert(fields@.subrange(0, i as int) =~= fields@);
    while i > 0
        invariant
            i <= fields@.len(),
            key@ == name@,
            lookup(fields@, name@) == lookup(fields@.subrange(0, i as int), name@),
        decreases i,
    {
        let ghost prefix = fields@.subrange(0, i as int);
        assert(prefix.drop_last() =~= fields@.subrange(0, i - 1));
        if fields[i - 1].0 == key {
            return Some(&fields[i - 1].1);
        }
        i = i - 1;
    }
    None
}

} // verus!
