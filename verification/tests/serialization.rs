use lua_ser::to_vec;
use lua_ser::to_vec_pretty;
use lua_ser::value::Value;
use lua_ser::ser::error::SerError;

fn compact(v: &Value) -> String {
    String::from_utf8(to_vec(v).unwrap()).unwrap()
}

fn pretty(v: &Value) -> String {
    String::from_utf8(to_vec_pretty(v).unwrap()).unwrap()
}

#[test]
fn scalars_compact() {
    assert_eq!(compact(&Value::Unit), "nil");
    assert_eq!(compact(&Value::Bool(true)), "true");
    assert_eq!(compact(&Value::Bool(false)), "false");
    assert_eq!(compact(&Value::Int(0)), "0");
    assert_eq!(compact(&Value::Int(-1)), "-1");
    assert_eq!(compact(&Value::Int(i64::MIN)), "-9223372036854775808");
    assert_eq!(compact(&Value::Int(i64::MAX)), "9223372036854775807");
    assert_eq!(compact(&Value::UInt(u64::MAX)), "18446744073709551615");
    assert_eq!(compact(&Value::UInt(10)), "10");
}

#[test]
fn strings_and_chars() {
    assert_eq!(compact(&Value::Str(String::from("abc"))), "\"abc\"");
    assert_eq!(compact(&Value::Str(String::new())), "\"\"");
    assert_eq!(compact(&Value::Char('x')), "\"x\"");
    // a non-ASCII character passes through as its UTF-8 bytes
    assert_eq!(compact(&Value::Char('é')), "\"é\"");
    assert_eq!(compact(&Value::Str(String::from("héllo"))), "\"héllo\"");
}

#[test]
fn string_escaping_delimiter_and_control() {
    // the delimiter, the escape character, the short escapes and a numeric
    // escape, all in one literal
    let v = Value::Str(String::from("a\"b\\c\nd\te\r\u{1}"));
    assert_eq!(compact(&v), "\"a\\\"b\\\\c\\nd\\te\\r\\001\"");
}

#[test]
fn empty_sequence_is_bare_delimiters_in_both_modes() {
    let v = Value::Sequence(vec![]);
    assert_eq!(compact(&v), "{}");
    assert_eq!(pretty(&v), "{}");
    let m = Value::Mapping(vec![]);
    assert_eq!(compact(&m), "{}");
    assert_eq!(pretty(&m), "{}");
}

#[test]
fn sequence_separators() {
    let v = Value::Sequence(vec![Value::Int(1), Value::Int(2), Value::Int(3)]);
    let text = compact(&v);
    assert_eq!(text, "{1,2,3}");
    // exactly two separators between three elements, none trailing
    assert_eq!(text.matches(',').count(), 2);
    assert!(!text.contains(",}"));
    let one = Value::Sequence(vec![Value::Bool(false)]);
    assert_eq!(compact(&one), "{false}");
}

#[test]
fn mapping_preserves_insertion_order() {
    let m = Value::Mapping(vec![
        (Value::Int(1), Value::Int(10)),
        (Value::Int(2), Value::Int(20)),
        (Value::Int(3), Value::Int(30)),
    ]);
    assert_eq!(compact(&m), "{[1]=10,[2]=20,[3]=30}");
    let shuffled = Value::Mapping(vec![
        (Value::Int(3), Value::Int(30)),
        (Value::Int(1), Value::Int(10)),
        (Value::Int(2), Value::Int(20)),
    ]);
    assert_eq!(compact(&shuffled), "{[3]=30,[1]=10,[2]=20}");
}

#[test]
fn boolean_key_is_rejected_before_key_bytes() {
    let m = Value::Mapping(vec![(Value::Bool(true), Value::Int(1))]);
    let err = to_vec(&m).unwrap_err();
    assert!(matches!(err, SerError::KeyMustBeStringOrNumber));
    // driving the engine directly shows that only the structural opening was
    // written before the key was rejected
    let mut ser = lua_ser::ser::Serializer::new(Vec::new());
    let err = ser.serialize_value(&m).unwrap_err();
    assert!(matches!(err, SerError::KeyMustBeStringOrNumber));
    assert_eq!(ser.into_inner(), b"{[".to_vec());
}

#[test]
fn accepted_key_kinds() {
    let m = Value::Mapping(vec![
        (Value::Str(String::from("k")), Value::Int(1)),
        (Value::Char('c'), Value::Int(2)),
        (Value::UInt(7), Value::Int(3)),
        (Value::UnitVariant(String::from("North")), Value::Int(4)),
    ]);
    assert_eq!(compact(&m), "{[\"k\"]=1,[\"c\"]=2,[7]=3,[\"North\"]=4}");
}

#[test]
fn rejected_key_kinds() {
    for key in [
        Value::Unit,
        Value::Bool(false),
        Value::Number(b"1.5".to_vec()),
        Value::Bytes(vec![1]),
        Value::Sequence(vec![]),
        Value::Mapping(vec![]),
    ] {
        let m = Value::Mapping(vec![(key, Value::Int(1))]);
        assert!(matches!(to_vec(&m), Err(SerError::KeyMustBeStringOrNumber)));
    }
}

#[test]
fn pretty_layout() {
    let m = Value::Mapping(vec![(Value::Int(1), Value::Bool(true))]);
    assert_eq!(pretty(&m), "{\n  [1] = true\n}");
    let v = Value::Sequence(vec![Value::Int(1), Value::Int(2)]);
    assert_eq!(pretty(&v), "{\n  1,\n  2\n}");
    let nested = Value::Sequence(vec![Value::Sequence(vec![Value::Int(5)])]);
    assert_eq!(pretty(&nested), "{\n  {\n    5\n  }\n}");
}

fn strip_whitespace(s: &str) -> String {
    s.chars().filter(|c| !matches!(c, ' ' | '\t' | '\n' | '\r')).collect()
}

#[test]
fn pretty_stripped_equals_compact() {
    let v = Value::Mapping(vec![
        (
            Value::Str(String::from("list")),
            Value::Sequence(vec![Value::Int(1), Value::Unit, Value::Bool(true)]),
        ),
        (
            Value::Int(2),
            Value::StructVariant(
                String::from("Point"),
                vec![
                    (String::from("x"), Value::Int(3)),
                    (String::from("y"), Value::Sequence(vec![])),
                ],
            ),
        ),
    ]);
    assert_eq!(strip_whitespace(&pretty(&v)), compact(&v));
}

#[test]
fn compact_numbers_have_no_whitespace() {
    let f: f64 = -123456.78125;
    let token = format!("{}", f).into_bytes();
    let v = Value::Sequence(vec![
        Value::Int(-42),
        Value::UInt(9000),
        Value::Number(token),
    ]);
    let text = compact(&v);
    assert!(!text.contains(' '));
    assert!(!text.contains('\t'));
    assert!(!text.contains('\n'));
    assert_eq!(text, "{-42,9000,-123456.78125}");
}

#[test]
fn malformed_number_token_is_rejected() {
    let v = Value::Number(b"1 2".to_vec());
    assert!(matches!(to_vec(&v), Err(SerError::Custom(_))));
    let empty = Value::Number(Vec::new());
    assert!(matches!(to_vec(&empty), Err(SerError::Custom(_))));
}

#[test]
fn bytes_render_as_number_sequence() {
    assert_eq!(compact(&Value::Bytes(vec![])), "{}");
    assert_eq!(compact(&Value::Bytes(vec![0, 17, 255])), "{0,17,255}");
}

#[test]
fn variants() {
    assert_eq!(compact(&Value::UnitVariant(String::from("North"))), "\"North\"");
    let newtype = Value::NewtypeVariant(String::from("Wrap"), Box::new(Value::Int(9)));
    assert_eq!(compact(&newtype), "{[\"Wrap\"]=9}");
    let tuple = Value::TupleVariant(
        String::from("Pair"),
        vec![Value::Int(1), Value::Str(String::from("x"))],
    );
    assert_eq!(compact(&tuple), "{[\"Pair\"]={1,\"x\"}}");
    let empty_tuple = Value::TupleVariant(String::from("None"), vec![]);
    assert_eq!(compact(&empty_tuple), "{[\"None\"]={}}");
    let strukt = Value::StructVariant(
        String::from("Point"),
        vec![
            (String::from("x"), Value::Int(1)),
            (String::from("y"), Value::Int(2)),
        ],
    );
    assert_eq!(compact(&strukt), "{[\"Point\"]={[\"x\"]=1,[\"y\"]=2}}");
    let newtype_pretty = Value::NewtypeVariant(String::from("Wrap"), Box::new(Value::Int(9)));
    assert_eq!(pretty(&newtype_pretty), "{\n  [\"Wrap\"] = 9\n}");
}

#[test]
fn deeply_nested_value() {
    let v = Value::Sequence(vec![Value::Mapping(vec![(
        Value::Str(String::from("inner")),
        Value::Sequence(vec![Value::Sequence(vec![Value::Unit])]),
    )])]);
    assert_eq!(compact(&v), "{{[\"inner\"]={{nil}}}}");
    assert_eq!(strip_whitespace(&pretty(&v)), compact(&v));
}

#[test]
fn error_deep_in_value_aborts() {
    let v = Value::Sequence(vec![
        Value::Int(1),
        Value::Mapping(vec![(Value::Unit, Value::Int(2))]),
    ]);
    assert!(matches!(to_vec(&v), Err(SerError::KeyMustBeStringOrNumber)));
    assert!(matches!(to_vec_pretty(&v), Err(SerError::KeyMustBeStringOrNumber)));
}

#[test]
fn error_messages() {
    assert_eq!(
        SerError::KeyMustBeStringOrNumber.message(),
        "Object key must be a string or a number"
    );
    assert_eq!(SerError::Custom(String::from("boom")).message(), "Custom error: boom");
    assert_eq!(SerError::Io(String::from("pipe")).message(), "Io Error: pipe");
}
