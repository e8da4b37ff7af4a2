//! A verified serializer that renders a value graph as Lua table-literal
//! text, writing bytes incrementally into an append-only sink.
//!
//! `ser::Serializer` is the engine: it writes scalars directly and walks
//! compound values through `ser::compound::Compound` cursors. `value::Value`
//! is the closed model of the graphs it serializes, `value::render` the
//! byte-exact specification of its output, and `laws` the properties proved
//! of that specification.

pub mod format;
pub mod laws;
pub mod ser;
pub mod value;

use vstd::prelude::*;
use crate::ser::Serializer;
use crate::ser::error::SerError;
use crate::value::{render, valid_value, Value};

verus! {

/// Serializes a value to compact text: no whitespace outside string
/// contents. Fails exactly when a mapping key of a rejected kind or a
/// malformed numeric literal occurs in the value.
pub fn to_vec(value: &Value) -> (r: Result<Vec<u8>, SerError>)
    ensures
        r is Ok <==> valid_value(*value),
        r matches Ok(bytes) ==> bytes@ == render(*value, false, 0),
{
    let mut ser = Serializer::new(Vec::new());
    match ser.serialize_value(value) {
        Ok(()) => {
            let bytes = ser.into_inner();
            proof {
                assert(bytes@ =~= render(*value, false, 0));
            }
            Ok(bytes)
        },
        Err(e) => Err(e),
    }
}

/// Serializes a value to pretty-printed text: one line per entry, two
/// spaces of indentation per nesting level.
pub fn to_vec_pretty(value: &Value) -> (r: Result<Vec<u8>, SerError>)
    ensures
        r is Ok <==> valid_value(*value),
        r matches Ok(bytes) ==> bytes@ == render(*value, true, 0),
{
    let mut ser = Serializer::pretty(Vec::new());
    match ser.serialize_value(value) {
        Ok(()) => {
            let bytes = ser.into_inner();
            proof {
                assert(bytes@ =~= render(*value, true, 0));
            }
            Ok(bytes)
        },
        Err(e) => Err(e),
    }
}

} // verus!

