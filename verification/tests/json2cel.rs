use celq::json2cel::{json_to_cel_variables, record_variables, classify_number, classify_tree,
    RawJson};
use celq::value::DataValue;

fn parse_root(text: &str) -> DataValue {
    json_to_cel_variables(text).unwrap().get(".").unwrap().duplicate()
}

#[test]
fn json2cel_test_null() {
    let vars = json_to_cel_variables("null").unwrap();
    assert!(matches!(vars.get(".").unwrap(), DataValue::Null));
}

#[test]
fn json2cel_test_number() {
    let vars = json_to_cel_variables("42").unwrap();
    assert!(matches!(vars.get(".").unwrap(), DataValue::Int64(42)));
}

#[test]
fn json2cel_test_string() {
    let vars = json_to_cel_variables(r#""hello""#).unwrap();
    if let DataValue::Str(s) = vars.get(".").unwrap() {
        assert_eq!(s.as_str(), "hello");
    } else {
        panic!("Expected string");
    }
}

#[test]
fn json2cel_test_bool() {
    let vars = json_to_cel_variables("true").unwrap();
    assert!(matches!(vars.get(".").unwrap(), DataValue::Bool(true)));
}

#[test]
fn json2cel_test_array() {
    let vars = json_to_cel_variables("[1, 2, 3]").unwrap();
    if let DataValue::List(list) = vars.get(".").unwrap() {
        assert_eq!(list.len(), 3);
    } else {
        panic!("Expected list");
    }
}

#[test]
fn json2cel_test_object() {
    let vars = json_to_cel_variables(r#"{"x": 10, "y": 20}"#).unwrap();

    assert_eq!(vars.len(), 3);

    assert!(matches!(vars.get(".").unwrap(), DataValue::Object(_)));

    assert!(matches!(vars.get("x").unwrap(), DataValue::Int64(10)));
    assert!(matches!(vars.get("y").unwrap(), DataValue::Int64(20)));
}

#[test]
fn json2cel_test_nested_object() {
    let vars = json_to_cel_variables(r#"{"outer": {"inner": 42}}"#).unwrap();

    assert_eq!(vars.len(), 2);

    if let DataValue::Object(map) = vars.get("outer").unwrap() {
        let inner = map.iter().find(|(k, _)| k == "inner").unwrap();
        assert!(matches!(inner.1, DataValue::Int64(42)));
    } else {
        panic!("Expected map");
    }
}

#[test]
fn json2cel_test_test_null() {
    let vars = record_variables("null", "this").unwrap();
    assert!(matches!(vars.get("this").unwrap(), DataValue::Null));
}

#[test]
fn json2cel_test_test_number() {
    let vars = record_variables("42", "this").unwrap();
    assert!(matches!(vars.get("this").unwrap(), DataValue::Int64(42)));
}

#[test]
fn json2cel_test_test_string() {
    let vars = record_variables(r#""hello""#, "this").unwrap();
    if let DataValue::Str(s) = vars.get("this").unwrap() {
        assert_eq!(s.as_str(), "hello");
    } else {
        panic!("Expected string");
    }
}

#[test]
fn json2cel_test_test_bool() {
    let vars = record_variables("true", "this").unwrap();
    assert!(matches!(vars.get("this").unwrap(), DataValue::Bool(true)));
}

#[test]
fn json2cel_test_test_array() {
    let vars = record_variables("[1, 2, 3]", "this").unwrap();
    if let DataValue::List(list) = vars.get("this").unwrap() {
        assert_eq!(list.len(), 3);
    } else {
        panic!("Expected list");
    }
}

#[test]
fn json2cel_test_test_object() {
    let vars = record_variables(r#"{"x": 10, "y": 20}"#, "this").unwrap();
    assert_eq!(vars.len(), 3);
    assert!(matches!(vars.get("this").unwrap(), DataValue::Object(_)));
    assert!(matches!(vars.get("x").unwrap(), DataValue::Int64(10)));
    assert!(matches!(vars.get("y").unwrap(), DataValue::Int64(20)));
}

#[test]
fn json2cel_test_test_nested_object() {
    let vars = record_variables(r#"{"outer": {"inner": 42}}"#, "this").unwrap();
    assert_eq!(vars.len(), 2);
    if let DataValue::Object(map) = vars.get("outer").unwrap() {
        let inner = map.iter().find(|(k, _)| k == "inner").expect("Expected inner map");
        assert!(matches!(inner.1, DataValue::Int64(42)));
    } else {
        panic!("Expected map");
    }
}

#[test]
fn malformed_json_is_a_parse_error() {
    assert!(json_to_cel_variables("not valid json").is_err());
    assert!(json_to_cel_variables("").is_err());
    assert!(json_to_cel_variables("{\"a\": }").is_err());
}

#[test]
fn numbers_classify_signed_then_unsigned_then_float() {
    let v = parse_root("9223372036854775807");
    assert!(matches!(v, DataValue::Int64(i64::MAX)));

    let v = parse_root("9223372036854775808");
    assert!(matches!(v, DataValue::UInt64(9223372036854775808)));

    let v = parse_root("18446744073709551615");
    assert!(matches!(v, DataValue::UInt64(u64::MAX)));

    let v = parse_root("2.5");
    if let DataValue::Float64(fv) = v {
        assert_eq!(f64::from_bits(fv.bits()), 2.5);
    } else {
        panic!("Expected float");
    }

    let v = parse_root("-3");
    assert!(matches!(v, DataValue::Int64(-3)));
}

#[test]
fn classification_prefers_the_earliest_representation() {
    assert!(matches!(
        classify_number(Some(5), Some(5), None),
        DataValue::Int64(5)
    ));
    assert!(matches!(
        classify_number(None, Some(7), None),
        DataValue::UInt64(7)
    ));
    assert!(matches!(classify_number(None, None, None), DataValue::Null));
}

#[test]
fn raw_trees_classify_recursively() {
    let raw = RawJson::List(vec![
        RawJson::Num(Some(1), Some(1), None),
        RawJson::Object(vec![("k".to_string(), RawJson::Num(None, Some(7), None))]),
        RawJson::Str("s".to_string()),
        RawJson::Num(None, None, None),
    ]);
    let v = classify_tree(&raw);
    if let DataValue::List(items) = v {
        assert_eq!(items.len(), 4);
        assert!(matches!(items[0], DataValue::Int64(1)));
        if let DataValue::Object(fields) = &items[1] {
            assert!(matches!(fields[0].1, DataValue::UInt64(7)));
        } else {
            panic!("Expected map");
        }
        assert!(matches!(&items[2], DataValue::Str(_)));
        assert!(matches!(items[3], DataValue::Null));
    } else {
        panic!("Expected list");
    }
}

#[test]
fn duplicate_object_keys_keep_the_last_value() {
    let vars = json_to_cel_variables(r#"{"x": 1, "x": 2}"#).unwrap();
    assert!(matches!(vars.get("x").unwrap(), DataValue::Int64(2)));
}
