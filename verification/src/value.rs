//! The value graph the serializer walks, and the exact bytes each value
//! renders to in each output style.
//!
//! The serializer is push-style: callers may drive `Serializer` and
//! `Compound` token by token, or hand a whole `Value` to
//! `Serializer::serialize_value`. `render` below is the specification of the
//! bytes that the walk appends for a value whose mapping keys are all of an
//! accepted key kind.

use vstd::prelude::*;
use vstd::utf8::encode_utf8;
use crate::format::{begin_struct_bytes, bool_bytes, bump, elem_open_bytes, end_struct_bytes,
    fmt_i64, fmt_u64, key_close_bytes, key_open_bytes, nil_bytes, str_lit, value_open_bytes};

verus! {

/// One node of the value graph.
///
/// `Number` carries a caller-rendered numeric literal emitted verbatim; this
/// is how floating-point values enter the output: the caller renders a
/// finite float with a round-tripping formatter and passes the bytes.
/// `Bytes` renders as a sequence of the byte values. A `NewtypeVariant`,
/// `TupleVariant` or `StructVariant` renders as a single-key mapping from
/// the variant name to its payload.
#[derive(Debug)]
pub enum Value {
    Unit,
    Bool(bool),
    Int(i64),
    UInt(u64),
    Number(Vec<u8>),
    Char(char),
    Str(String),
    Bytes(Vec<u8>),
    Sequence(Vec<Value>),
    Mapping(Vec<(Value, Value)>),
    UnitVariant(String),
    NewtypeVariant(String, Box<Value>),
    TupleVariant(String, Vec<Value>),
    StructVariant(String, Vec<(String, Value)>),
}

/// The kinds a mapping key may have: integers, a character, a string, or an
/// enumerated unit variant's name. Everything else is rejected.
pub open spec fn key_ok(k: Value) -> bool {
    match k {
        Value::Int(_) => true,
        Value::UInt(_) => true,
        Value::Char(_) => true,
        Value::Str(_) => true,
        Value::UnitVariant(_) => true,
        _ => false,
    }
}

/// Every mapping key in the graph, at any depth, is of an accepted kind,
/// and every caller-rendered numeric literal stays within the numeric
/// alphabet.
pub open spec fn valid_value(v: Value) -> bool
    decreases v,
{
    match v {
        Value::Number(t) => crate::format::num_token_wf(t@),
        Value::Sequence(elems) => forall|i: int|
            0 <= i < elems@.len() ==> valid_value(#[trigger] elems@[i]),
        Value::Mapping(entries) => forall|i: int| #![trigger entries@[i]]
            0 <= i < entries@.len() ==> key_ok(entries@[i].0) && valid_value(entries@[i].1),
        Value::NewtypeVariant(_, val) => valid_value(*val),
        Value::TupleVariant(_, elems) => forall|i: int|
            0 <= i < elems@.len() ==> valid_value(#[trigger] elems@[i]),
        Value::StructVariant(_, fields) => forall|i: int| #![trigger fields@[i]]
            0 <= i < fields@.len() ==> valid_value(fields@[i].1),
        _ => true,
    }
}

/// The literal an accepted key renders to. A key's bytes do not depend on
/// the output style.
pub open spec fn render_key(k: Value) -> Seq<u8> {
    match k {
        Value::Int(i) => fmt_i64(i),
        Value::UInt(u) => fmt_u64(u),
        Value::Char(c) => str_lit(encode_utf8(seq![c])),
        Value::Str(s) => str_lit(encode_utf8(s@)),
        Value::UnitVariant(name) => str_lit(encode_utf8(name@)),
        _ => Seq::empty(),
    }
}

/// The opening of a tagged-variant wrapper: the enclosing mapping's opening
/// delimiter, its sole key (the variant name), and the key/value separator.
/// `d` is the depth of the wrapper itself.
pub open spec fn variant_open(name: Seq<char>, p: bool, d: nat) -> Seq<u8> {
    begin_struct_bytes() + key_open_bytes(true, p, bump(p, d)) + str_lit(encode_utf8(name))
        + key_close_bytes() + value_open_bytes(p)
}

/// The bytes a value renders to in style `p` at nesting depth `d`, provided
/// all of its mapping keys are accepted.
pub open spec fn render(v: Value, p: bool, d: nat) -> Seq<u8>
    decreases v,
{
    match v {
        Value::Unit => nil_bytes(),
        Value::Bool(b) => bool_bytes(b),
        Value::Int(i) => fmt_i64(i),
        Value::UInt(u) => fmt_u64(u),
        Value::Number(t) => t@,
        Value::Char(c) => str_lit(encode_utf8(seq![c])),
        Value::Str(s) => str_lit(encode_utf8(s@)),
        Value::Bytes(bs) => begin_struct_bytes() + byte_items(bs@, p, bump(p, d))
            + end_struct_bytes(bs@.len() > 0, p, bump(p, d)),
        Value::Sequence(elems) => begin_struct_bytes() + render_items(elems@, p, bump(p, d))
            + end_struct_bytes(elems@.len() > 0, p, bump(p, d)),
        Value::Mapping(entries) => begin_struct_bytes() + render_entries(entries@, p, bump(p, d))
            + end_struct_bytes(entries@.len() > 0, p, bump(p, d)),
        Value::UnitVariant(name) => str_lit(encode_utf8(name@)),
        Value::NewtypeVariant(name, val) => variant_open(name@, p, d) + render(*val, p, bump(p, d))
            + end_struct_bytes(true, p, bump(p, d)),
        Value::TupleVariant(name, elems) => variant_open(name@, p, d) + begin_struct_bytes()
            + render_items(elems@, p, bump(p, bump(p, d))) + end_struct_bytes(
            elems@.len() > 0,
            p,
            bump(p, bump(p, d)),
        ) + end_struct_bytes(true, p, bump(p, d)),
        Value::StructVariant(name, fields) => variant_open(name@, p, d) + begin_struct_bytes()
            + render_fields(fields@, p, bump(p, bump(p, d))) + end_struct_bytes(
            fields@.len() > 0,
            p,
            bump(p, bump(p, d)),
        ) + end_struct_bytes(true, p, bump(p, d)),
    }
}

/// The interior of a sequence: each element preceded by its separator
/// logic, the first one marked as first.
pub open spec fn render_items(items: Seq<Value>, p: bool, d: nat) -> Seq<u8>
    decreases items,
{
    if items.len() == 0 {
        Seq::empty()
    } else {
        render_items(items.drop_last(), p, d) + elem_open_bytes(items.len() == 1, p, d) + render(
            items.last(),
            p,
            d,
        )
    }
}

/// The interior of a sequence of byte values.
pub open spec fn byte_items(bs: Seq<u8>, p: bool, d: nat) -> Seq<u8>
    decreases bs.len(),
{
    if bs.len() == 0 {
        Seq::empty()
    } else {
        byte_items(bs.drop_last(), p, d) + elem_open_bytes(bs.len() == 1, p, d) + fmt_u64(
            bs.last() as u64,
        )
    }
}

/// The interior of a mapping: each entry is its key opening, the key
/// literal, the key closing, the key/value separator, and the value.
pub open spec fn render_entries(entries: Seq<(Value, Value)>, p: bool, d: nat) -> Seq<u8>
    decreases entries,
{
    if entries.len() == 0 {
        Seq::empty()
    } else {
        render_entries(entries.drop_last(), p, d) + key_open_bytes(entries.len() == 1, p, d)
            + render_key(entries.last().0) + key_close_bytes() + value_open_bytes(p) + render(
            entries.last().1,
            p,
            d,
        )
    }
}

/// The interior of a struct-like value: field names are the keys.
pub open spec fn render_fields(fields: Seq<(String, Value)>, p: bool, d: nat) -> Seq<u8>
    decreases fields,
{
    if fields.len() == 0 {
        Seq::empty()
    } else {
        render_fields(fields.drop_last(), p, d) + key_open_bytes(fields.len() == 1, p, d) + str_lit(
            encode_utf8(fields.last().0@),
        ) + key_close_bytes() + value_open_bytes(p) + render(fields.last().1, p, d)
    }
}

} // verus!

