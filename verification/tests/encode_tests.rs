use hjson::to_string;
use hjson::to_vec;
use hjson::Error;
use hjson::FloatText;
use hjson::HjsonFormatter;
use hjson::Serializer;
use hjson::Value;

fn enc(v: &Value) -> String {
    to_string(v).unwrap()
}

#[test]
fn scalars() {
    assert_eq!(enc(&Value::Bool(true)), "true");
    assert_eq!(enc(&Value::Bool(false)), "false");
    assert_eq!(enc(&Value::Int(0)), "0");
    assert_eq!(enc(&Value::Int(-5)), "-5");
    assert_eq!(enc(&Value::Int(i64::MIN)), "-9223372036854775808");
    assert_eq!(enc(&Value::Uint(u64::MAX)), "18446744073709551615");
    assert_eq!(enc(&Value::Null), "null");
}

#[test]
fn chars_are_quoted() {
    assert_eq!(enc(&Value::Char('a')), "\"a\"");
    assert_eq!(enc(&Value::Char('\n')), "\"\\n\"");
    assert_eq!(enc(&Value::Char('"')), "\"\\\"\"");
}

#[test]
fn empty_containers() {
    assert_eq!(enc(&Value::Array(vec![])), "[]");
    assert_eq!(enc(&Value::Object(vec![])), "{}");
    // still bare at depth: no whitespace between the brackets
    assert_eq!(enc(&Value::Array(vec![Value::Array(vec![])])), "[\n  []\n]");
    assert_eq!(
        enc(&Value::Object(vec![(Value::Str("e".to_string()), Value::Object(vec![]))])),
        "{\n  e: {}\n}"
    );
}

#[test]
fn nested_indentation() {
    let v = Value::Object(vec![(
        Value::Str("a".to_string()),
        Value::Array(vec![Value::Bool(true)]),
    )]);
    assert_eq!(enc(&v), "{\n  a:\n  [\n    true\n  ]\n}");
}

#[test]
fn end_to_end_map() {
    let v = Value::Object(vec![
        (Value::Str("a".to_string()), Value::Int(1)),
        (
            Value::Str("b".to_string()),
            Value::Array(vec![Value::Bool(true), Value::Null]),
        ),
    ]);
    assert_eq!(enc(&v), "{\n  a: 1\n  b:\n  [\n    true\n    null\n  ]\n}");
}

#[test]
fn non_string_key_is_an_error() {
    let v = Value::Object(vec![(Value::Int(1), Value::Bool(true))]);
    assert_eq!(to_string(&v), Err(Error::KeyMustBeAString));
    let nested = Value::Array(vec![Value::Object(vec![(Value::Null, Value::Null)])]);
    assert_eq!(to_string(&nested), Err(Error::KeyMustBeAString));
}

#[test]
fn keys_needing_quotes() {
    let v = Value::Object(vec![(Value::Str(" a".to_string()), Value::Int(1))]);
    assert_eq!(enc(&v), "{\n  \" a\": 1\n}");
    let empty_key = Value::Object(vec![(Value::Str(String::new()), Value::Int(2))]);
    assert_eq!(enc(&empty_key), "{\n  \"\": 2\n}");
    let colon_key = Value::Object(vec![(Value::Str("a:b".to_string()), Value::Int(3))]);
    assert_eq!(enc(&colon_key), "{\n  \"a:b\": 3\n}");
    // a double quote inside a key does not force quoting
    let quote_key = Value::Object(vec![(Value::Str("a\"b".to_string()), Value::Int(4))]);
    assert_eq!(enc(&quote_key), "{\n  a\"b: 4\n}");
}

#[test]
fn unit_variant() {
    assert_eq!(enc(&Value::UnitVariant("X".to_string())), "{\n  X:[]\n}");
}

#[test]
fn newtype_variant() {
    let v = Value::NewtypeVariant("N".to_string(), Box::new(Value::Int(5)));
    assert_eq!(enc(&v), "{\n  N: 5\n}");
}

#[test]
fn tuple_variant() {
    let v = Value::TupleVariant("T".to_string(), vec![Value::Int(1), Value::Int(2)]);
    assert_eq!(enc(&v), "{\n  T:\n  [\n    1\n    2\n  ]\n}");
}

#[test]
fn struct_variant() {
    let v = Value::StructVariant(
        "S".to_string(),
        vec![(Value::Str("k".to_string()), Value::Bool(true))],
    );
    assert_eq!(enc(&v), "{\n  S:\n  {\n    k: true\n  }\n}");
}

#[test]
fn floats_from_renderings() {
    let large = Value::Float(FloatText::Finite {
        plain: format!("{}", 1e8_f64),
        exponential: format!("{:e}", 1e8_f64),
    });
    // the plain form is more than one character longer, so the
    // exponential form wins and gets an explicit plus
    assert_eq!(enc(&large), "1e+8");
    let small = Value::Float(FloatText::Finite {
        plain: format!("{}", 1.5_f64),
        exponential: format!("{:e}", 1.5_f64),
    });
    assert_eq!(enc(&small), "1.5");
    let tiny = Value::Float(FloatText::Finite {
        plain: format!("{}", 1e-7_f64),
        exponential: format!("{:e}", 1e-7_f64),
    });
    assert_eq!(enc(&tiny), "1e-7");
    assert_eq!(enc(&Value::Float(FloatText::NonFinite)), "null");
}

#[test]
fn negative_zero_folds_to_zero() {
    let neg = Value::Float(FloatText::Finite {
        plain: format!("{}", -0.0_f64),
        exponential: format!("{:e}", -0.0_f64),
    });
    let pos = Value::Float(FloatText::Finite {
        plain: format!("{}", 0.0_f64),
        exponential: format!("{:e}", 0.0_f64),
    });
    assert_eq!(enc(&neg), enc(&pos));
    assert_eq!(enc(&neg), "0");
}

#[test]
fn serializer_with_custom_indent() {
    let fmt = HjsonFormatter::with_indent("\t");
    let mut ser = Serializer::with_formatter(String::new(), fmt);
    ser.serialize_value(&Value::Array(vec![Value::Int(1)])).unwrap();
    assert_eq!(ser.into_inner(), "[\n\t1\n]");
}

#[test]
fn serializer_methods() {
    let mut ser = Serializer::new(String::from("pre:"));
    ser.serialize_bool(true);
    let out = ser.into_inner();
    assert_eq!(out, "pre:true");

    let mut ser2 = Serializer::new(String::new());
    ser2.serialize_i64(-42);
    ser2.serialize_u64(7);
    ser2.serialize_unit();
    assert_eq!(ser2.into_inner(), "-427null");
}

#[test]
fn to_vec_gives_utf8_bytes() {
    let v = Value::Str("héllo".to_string());
    let bytes = to_vec(&v).unwrap();
    assert_eq!(bytes, "héllo".as_bytes().to_vec());
}
