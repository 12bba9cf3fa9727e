use celq::args2cel::args_to_cel_variables;
use celq::json2cel::json_to_cel_variables;
use celq::serialize::value_to_json;
use celq::truthy::is_truthy;
use celq::value::DataValue;

fn parse_root(text: &str) -> DataValue {
    json_to_cel_variables(text).unwrap().get(".").unwrap().duplicate()
}

fn float_value(text: &str) -> DataValue {
    let args = vec![(
        "x".to_string(),
        "float".to_string(),
        Some(text.to_string()),
    )];
    let vars = args_to_cel_variables(&args).unwrap();
    let v = vars.get("x").unwrap();
    assert!(matches!(v, DataValue::Float64(_)));
    v.duplicate()
}

#[test]
fn truthiness_table() {
    assert!(!is_truthy(&DataValue::Int64(0)));
    assert!(is_truthy(&DataValue::Int64(5)));
    assert!(!is_truthy(&DataValue::Str("".to_string())));
    assert!(is_truthy(&DataValue::Str("a".to_string())));
    assert!(!is_truthy(&DataValue::List(vec![])));
    assert!(!is_truthy(&DataValue::Object(vec![])));
    assert!(!is_truthy(&DataValue::Null));
    assert!(!is_truthy(&float_value("NaN")));
}

#[test]
fn truthiness_of_numbers_and_compounds() {
    assert!(!is_truthy(&DataValue::UInt64(0)));
    assert!(is_truthy(&DataValue::UInt64(1)));
    assert!(!is_truthy(&DataValue::Bool(false)));
    assert!(is_truthy(&DataValue::Bool(true)));
    assert!(!is_truthy(&float_value("0.0")));
    assert!(!is_truthy(&float_value("-0.0")));
    assert!(is_truthy(&float_value("0.5")));
    assert!(is_truthy(&DataValue::List(vec![DataValue::Null])));
    assert!(is_truthy(&DataValue::Object(vec![(
        "k".to_string(),
        DataValue::Null
    )])));
    assert!(is_truthy(&DataValue::Other("duration".to_string())));
}

#[test]
fn scalars_round_trip_through_json() {
    for text in [
        "null",
        "true",
        "false",
        "0",
        "42",
        "-7",
        "9223372036854775807",
        "-9223372036854775808",
        "18446744073709551615",
        "\"hello\"",
        "\"\"",
    ] {
        let v = parse_root(text);
        assert_eq!(value_to_json(&v).unwrap(), text);
    }
}

#[test]
fn arrays_and_objects_round_trip_through_json() {
    for text in [
        "[]",
        "[1,2,3]",
        "[[],[null],[true,false]]",
        "{}",
        "{\"a\":1,\"b\":[2,{\"c\":\"d\"}]}",
    ] {
        let v = parse_root(text);
        assert_eq!(value_to_json(&v).unwrap(), text);
    }
}

#[test]
fn floats_round_trip_through_json() {
    for text in ["2.5", "-0.25", "1e300", "3.14"] {
        let v = parse_root(text);
        let out = value_to_json(&v).unwrap();
        assert_eq!(out.parse::<f64>().unwrap(), text.parse::<f64>().unwrap());
    }
}

#[test]
fn non_finite_floats_encode_as_null() {
    assert_eq!(value_to_json(&float_value("NaN")).unwrap(), "null");
    assert_eq!(value_to_json(&float_value("inf")).unwrap(), "null");
    assert_eq!(value_to_json(&float_value("-inf")).unwrap(), "null");
}

#[test]
fn strings_escape_as_json_requires() {
    let v = parse_root("\"a\\\"b\\\\c\\nd\\te\\u0001f\"");
    assert_eq!(
        value_to_json(&v).unwrap(),
        "\"a\\\"b\\\\c\\nd\\te\\u0001f\""
    );

    let direct = DataValue::Str("line\r\nbreak\u{8}\u{c}".to_string());
    assert_eq!(
        value_to_json(&direct).unwrap(),
        "\"line\\r\\nbreak\\b\\f\""
    );

    let unicode = DataValue::Str("héllo →".to_string());
    assert_eq!(value_to_json(&unicode).unwrap(), "\"héllo →\"");
}

#[test]
fn non_json_kinds_cannot_be_encoded() {
    let v = DataValue::Other("duration".to_string());
    assert!(value_to_json(&v).is_err());
    let nested = DataValue::List(vec![DataValue::Int64(1), DataValue::Other("x".to_string())]);
    assert!(value_to_json(&nested).is_err());
}
