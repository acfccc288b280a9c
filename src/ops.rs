//! The interpreter of tagged operation batches. It decides what is written;
//! the caller writes it.
use vstd::prelude::*;
use crate::codec::{Operation, SchemaError, SchemaErrorModel, decode_operation, spec_operation};
use crate::error::{BridgeError, BridgeErrorModel};
use crate::value::HostValue;

verus! {

/// How a descriptor that does not decode fails the whole batch.
pub open spec fn batch_error(e: SchemaErrorModel) -> BridgeErrorModel {
    match e {
        SchemaErrorModel::UnknownVariant(t) => BridgeErrorModel::UnsupportedOperator(t),
        other => BridgeErrorModel::Schema(other),
    }
}

/// The outcome of a batch: the lines written, in order, and the failure
/// that stopped it, if any.
pub struct Outcome {
    pub lines: Vec<String>,
    pub result: Result<(), BridgeError>,
}

/// `lines` are the texts printed by the first `lines.len()` descriptors.
pub open spec fn printed_prefix(items: Seq<HostValue>, lines: Seq<String>) -> bool {
    lines.len() <= items.len() && forall|i: int|
        0 <= i < lines.len() ==> spec_operation(#[trigger] items[i]) == Ok::<
            Seq<char>,
            SchemaErrorModel,
        >(lines[i]@)
}

/// Runs the descriptors in order. Each `print` contributes its text as one
/// line; the first descriptor that does not decode to a known operation
/// stops the batch, and the lines before it stay written.
pub fn run_operations(items: &Vec<HostValue>) -> (r: Outcome)
    ensures
        printed_prefix(items@, r.lines@),
        r.result is Ok <==> r.lines@.len() == items@.len(),
        r.result is Err ==> spec_operation(items@[r.lines@.len() as int]) is Err
            && r.result->Err_0@ == batch_error(spec_operation(items@[r.lines@.len() as int])->Err_0),
{
    let mut lines: Vec<String> = Vec::new();
    let mut i: usize = 0;
    while i < items.len()
        invariant
            i <= items@.len(),
            lines@.len() == i,
            printed_prefix(items@, lines@),
        decreases items@.len() - i,
    {
        match decode_operation(&items[i]) {
            Ok(Operation::Print { value }) => {
                lines.push(value);
            },
            Err(SchemaError::UnknownVariant(tag)) => {
                return Outcome { lines, result: Err(BridgeError::UnsupportedOperator(tag)) };
            },
            Err(e) => {
                return Outcome { lines, result: Err(BridgeError::Schema(e)) };
            },
        }
        i = i + 1;
    }
    Outcome { lines, result: Ok(()) }
}

} // verus!
