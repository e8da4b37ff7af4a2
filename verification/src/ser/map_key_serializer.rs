//! The restricted dispatch surface used while a mapping key is serialized.
//! It accepts integers, a character, a string and an enumerated unit
//! variant's name, and rejects every other kind with a dedicated error
//! before any key byte reaches the sink.

use vstd::prelude::*;
use crate::value::{key_ok, render_key, Value};
use super::error::SerError;
use super::Serializer;

verus! {

/// A restricted view of the serializer, reachable only while a mapping key
/// is being written.
pub struct MapKeySerializer {}

impl MapKeySerializer {
    /// The restricted view itself carries no state; the serializer is handed
    /// to each call.
    pub fn new() -> (k: MapKeySerializer) {
        MapKeySerializer {  }
    }

    /// Writes the key literal when the key is of an accepted kind, and
    /// rejects every other kind without touching the sink.
    pub fn serialize_key(ser: &mut Serializer, key: &Value) -> (r: Result<(), SerError>)
        ensures
            final(ser).formatter == old(ser).formatter,
            r is Ok <==> key_ok(*key),
            r is Ok ==> final(ser).out@ == old(ser).out@ + render_key(*key),
            r is Err ==> final(ser).out@ == old(ser).out@ && r == Err::<(), SerError>(
                SerError::KeyMustBeStringOrNumber,
            ),
    {
        match key {
            Value::Int(i) => ser.serialize_i64(*i),
            Value::UInt(u) => ser.serialize_u64(*u),
            Value::Char(c) => ser.serialize_char(*c),
            Value::Str(s) => ser.serialize_str(s.as_str()),
            Value::UnitVariant(name) => ser.serialize_unit_variant(name.as_str()),
            _ => Err(SerError::KeyMustBeStringOrNumber),
        }
    }
}

} // verus!
