//! Every failure of the boundary, and the one-line message the host sees.
use vstd::prelude::*;
use crate::codec::{SchemaError, SchemaErrorModel};
use crate::value::Kind;

verus! {

pub enum BridgeError {
    /// Malformed encoded text, with the text codec's message.
    Parse(String),
    /// A value that does not have the expected record shape.
    Schema(SchemaError),
    /// An operation tag that the interpreter does not know.
    UnsupportedOperator(String),
    /// A value nested deeper than the bridge follows.
    TooDeep,
    /// An error produced by scheduled work.
    Task(String),
}

pub enum BridgeErrorModel {
    Parse(Seq<char>),
    Schema(SchemaErrorModel),
    UnsupportedOperator(Seq<char>),
    TooDeep,
    Task(Seq<char>),
}

impl View for BridgeError {
    type V = BridgeErrorModel;

    open spec fn view(&self) -> BridgeErrorModel {
        match self {
            BridgeError::Parse(m) => BridgeErrorModel::Parse(m@),
            BridgeError::Schema(e) => BridgeErrorModel::Schema(e@),
            BridgeError::UnsupportedOperator(t) => BridgeErrorModel::UnsupportedOperator(t@),
            BridgeError::TooDeep => BridgeErrorModel::TooDeep,
            BridgeError::Task(m) => BridgeErrorModel::Task(m@),
        }
    }
}

pub open spec fn kind_name(k: Kind) -> Seq<char> {
    match k {
        Kind::Null => "null"@,
        Kind::Bool => "boolean"@,
        Kind::Number => "number"@,
        Kind::Str => "string"@,
        Kind::Array => "array"@,
        Kind::Object => "object"@,
    }
}

pub open spec fn schema_message(e: SchemaErrorModel) -> Seq<char> {
    match e {
        SchemaErrorModel::MissingField(f) => "missing field `"@ + f + "`"@,
        SchemaErrorModel::TypeMismatch(f, want, got) => "invalid type for field `"@ + f
            + "`: expected "@ + kind_name(want) + ", found "@ + kind_name(got),
        SchemaErrorModel::UnknownVariant(t) => "unknown variant `"@ + t + "`"@,
        SchemaErrorModel::NotAnObject(got) => "expected object, found "@ + kind_name(got),
    }
}

/// The message that the host is shown for `e`.
pub open spec fn message_of(e: BridgeErrorModel) -> Seq<char> {
    match e {
        BridgeErrorModel::Parse(m) => m,
        BridgeErrorModel::Schema(s) => schema_message(s),
        BridgeErrorModel::UnsupportedOperator(t) => "Unsupported operator: "@ + t,
        BridgeErrorModel::TooDeep => "value nested too deeply"@,
        BridgeErrorModel::Task(m) => m,
    }
}

pub fn kind_label(k: Kind) -> (r: &'static str)
    ensures
        r@ == kind_name(k),
{
    match k {
        Kind::Null => "null",
        Kind::Bool => "boolean",
        Kind::Number => "number",
        Kind::Str => "string",
        Kind::Array => "array",
        Kind::Object => "object",
    }
}

impl BridgeError {
    /// The single-line message that crosses the boundary in place of `self`.
    pub fn message(&self) -> (r: String)
        ensures
            r@ == message_of(self@),
    {
        match self {
            BridgeError::Parse(m) => m.clone(),
            BridgeError::Schema(e) => match e {
                SchemaError::MissingField(f) => {
                    let mut s = String::from_str("missing field `");
                    s.append(f.as_str());
                    s.append("`");
                    s
                },
                SchemaError::TypeMismatch { field, expected, found } => {
                    let mut s = String::from_str("invalid type for field `");
                    s.append(field.as_str());
                    s.append("`: expected ");
                    s.append(kind_label(*expected));
                    s.append(", found ");
                    s.append(kind_label(*found));
                    s
                },
                SchemaError::UnknownVariant(t) => {
                    let mut s = String::from_str("unknown variant `");
                    s.append(t.as_str());
                    s.append("`");
                    s
                },
                SchemaError::NotAnObject(k) => {
                    let mut s = String::from_str("expected object, found ");
                    s.append(kind_label(*k));
                    s
                },
            },
            BridgeError::UnsupportedOperator(t) => {
                let mut s = String::from_str("Unsupported operator: ");
                s.append(t.as_str());
                s
            },
            BridgeError::TooDeep => String::from_str("value nested too deeply"),
            BridgeError::Task(m) => m.clone(),
        }
    }
}

} // verus!
