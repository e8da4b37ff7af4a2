use lua_ser::format::Formatter;
use lua_ser::format::num_token_ok;
use lua_ser::ser::Serializer;
use lua_ser::ser::compound::Compound;
use lua_ser::ser::compound::State;
use lua_ser::ser::format_escaped_str;
use lua_ser::ser::map_key_serializer::MapKeySerializer;
use lua_ser::value::Value;

#[test]
fn scalar_dispatch_all_widths() {
    let mut ser = Serializer::new(Vec::new());
    ser.serialize_bool(true).unwrap();
    ser.serialize_i8(-8).unwrap();
    ser.serialize_i16(-16).unwrap();
    ser.serialize_i32(-32).unwrap();
    ser.serialize_i64(-64).unwrap();
    ser.serialize_u8(8).unwrap();
    ser.serialize_u16(16).unwrap();
    ser.serialize_u32(32).unwrap();
    ser.serialize_u64(64).unwrap();
    ser.serialize_unit().unwrap();
    ser.serialize_none().unwrap();
    ser.serialize_unit_struct("Marker").unwrap();
    assert_eq!(ser.into_inner(), b"true-8-16-32-648163264nilnilnil".to_vec());
}

#[test]
fn driven_sequence_with_known_length() {
    let mut ser = Serializer::new(Vec::new());
    let mut seq = ser.serialize_seq(Some(2)).unwrap();
    assert!(seq.not_empty());
    seq.serialize_element(&mut ser, &Value::Int(1)).unwrap();
    seq.serialize_element(&mut ser, &Value::Int(2)).unwrap();
    seq.end_seq(&mut ser).unwrap();
    assert_eq!(ser.into_inner(), b"{1,2}".to_vec());
}

#[test]
fn unknown_length_that_stays_empty_still_closes() {
    // the structure was opened without a known count and received nothing:
    // its closing delimiter must still be written, with no interior
    // whitespace even in pretty mode
    let mut ser = Serializer::pretty(Vec::new());
    let seq = ser.serialize_seq(None).unwrap();
    assert!(seq.not_empty());
    seq.end_seq(&mut ser).unwrap();
    assert_eq!(ser.into_inner(), b"{}".to_vec());
}

#[test]
fn known_zero_closes_at_creation() {
    let mut ser = Serializer::new(Vec::new());
    let seq = ser.serialize_seq(Some(0)).unwrap();
    assert!(!seq.not_empty());
    seq.end_seq(&mut ser).unwrap();
    assert_eq!(ser.into_inner(), b"{}".to_vec());
}

#[test]
fn driven_map_entries() {
    let mut ser = Serializer::new(Vec::new());
    let mut map = ser.serialize_map(Some(2)).unwrap();
    map.serialize_key(&mut ser, &Value::Int(1)).unwrap();
    map.serialize_value(&mut ser, &Value::Bool(true)).unwrap();
    map.serialize_key(&mut ser, &Value::Str(String::from("s"))).unwrap();
    map.serialize_value(&mut ser, &Value::Unit).unwrap();
    map.end_map(&mut ser).unwrap();
    assert_eq!(ser.into_inner(), b"{[1]=true,[\"s\"]=nil}".to_vec());
}

#[test]
fn driven_struct_fields() {
    let mut ser = Serializer::new(Vec::new());
    let mut st = ser.serialize_struct("Point", 2).unwrap();
    st.serialize_field(&mut ser, "x", &Value::Int(3)).unwrap();
    st.serialize_field(&mut ser, "y", &Value::Int(4)).unwrap();
    st.end_map(&mut ser).unwrap();
    assert_eq!(ser.into_inner(), b"{[\"x\"]=3,[\"y\"]=4}".to_vec());
}

#[test]
fn driven_tuple_variant() {
    let mut ser = Serializer::new(Vec::new());
    let mut tv = ser.serialize_tuple_variant("Pair", 2).unwrap();
    tv.serialize_element(&mut ser, &Value::Int(1)).unwrap();
    tv.serialize_element(&mut ser, &Value::Int(2)).unwrap();
    tv.end_tuple_variant(&mut ser).unwrap();
    assert_eq!(ser.into_inner(), b"{[\"Pair\"]={1,2}}".to_vec());
}

#[test]
fn driven_struct_variant() {
    let mut ser = Serializer::new(Vec::new());
    let mut sv = ser.serialize_struct_variant("Point", 1).unwrap();
    sv.serialize_field(&mut ser, "x", &Value::Int(7)).unwrap();
    sv.end_struct_variant(&mut ser).unwrap();
    assert_eq!(ser.into_inner(), b"{[\"Point\"]={[\"x\"]=7}}".to_vec());
}

#[test]
fn newtype_paths() {
    let mut ser = Serializer::new(Vec::new());
    ser.serialize_newtype_struct("Wrapper", &Value::Int(5)).unwrap();
    ser.serialize_newtype_variant("Tag", &Value::Bool(false)).unwrap();
    ser.serialize_some(&Value::Int(6)).unwrap();
    ser.serialize_unit_variant("North").unwrap();
    assert_eq!(ser.into_inner(), b"5{[\"Tag\"]=false}6\"North\"".to_vec());
}

#[test]
fn serialize_bytes_and_str_and_char() {
    let mut ser = Serializer::new(Vec::new());
    ser.serialize_bytes(&[1, 2]).unwrap();
    ser.serialize_str("a b").unwrap();
    ser.serialize_char('\n').unwrap();
    assert_eq!(ser.into_inner(), b"{1,2}\"a b\"\"\\n\"".to_vec());
}

#[test]
fn number_tokens() {
    assert!(num_token_ok(b"2.5"));
    assert!(num_token_ok(b"-1e-7"));
    assert!(num_token_ok(b"0x1F"));
    assert!(!num_token_ok(b""));
    assert!(!num_token_ok(b"1 2"));
    assert!(!num_token_ok(b"nan"));
    let mut ser = Serializer::new(Vec::new());
    ser.serialize_number_token(b"-1e-7").unwrap();
    assert_eq!(ser.into_inner(), b"-1e-7".to_vec());
}

#[test]
fn map_key_dispatch() {
    let mut ser = Serializer::new(Vec::new());
    let _key_view = MapKeySerializer::new();
    MapKeySerializer::serialize_key(&mut ser, &Value::Int(-3)).unwrap();
    MapKeySerializer::serialize_key(&mut ser, &Value::UInt(4)).unwrap();
    MapKeySerializer::serialize_key(&mut ser, &Value::Char('k')).unwrap();
    let err = MapKeySerializer::serialize_key(&mut ser, &Value::Bool(true)).unwrap_err();
    assert!(matches!(err, lua_ser::ser::error::SerError::KeyMustBeStringOrNumber));
    // the rejected key wrote nothing
    assert_eq!(ser.into_inner(), b"-34\"k\"".to_vec());
}

#[test]
fn compound_states() {
    let c = Compound::empty();
    assert_eq!(c.state, State::Empty);
    assert!(!c.not_empty());
    let c = Compound::first();
    assert_eq!(c.state, State::First);
    assert!(c.not_empty());
}

#[test]
fn with_formatter_and_escaped_str() {
    let mut out = Vec::new();
    format_escaped_str(&mut out, &Formatter::Compact, "q\"q").unwrap();
    assert_eq!(out, b"\"q\\\"q\"".to_vec());
    let ser = Serializer::with_formatter(Vec::new(), Formatter::Compact);
    assert_eq!(ser.into_inner(), Vec::<u8>::new());
    let mut ser = Serializer::with_formatter(Vec::new(), Formatter::new_pretty());
    ser.serialize_value(&Value::Sequence(vec![Value::Int(1)])).unwrap();
    assert_eq!(ser.into_inner(), b"{\n  1\n}".to_vec());
}

#[test]
fn tuples_render_as_sequences() {
    let mut ser = Serializer::new(Vec::new());
    let mut t = ser.serialize_tuple(2).unwrap();
    t.serialize_element(&mut ser, &Value::Int(1)).unwrap();
    t.serialize_element(&mut ser, &Value::Bool(true)).unwrap();
    t.end_seq(&mut ser).unwrap();
    let mut ts = ser.serialize_tuple_struct("Pair", 0).unwrap();
    assert!(!ts.not_empty());
    ts.end_seq(&mut ser).unwrap();
    assert_eq!(ser.into_inner(), b"{1,true}{}".to_vec());
}
