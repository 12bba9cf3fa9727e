use celq::input_handler::{handle_buffer, handle_input, handle_json, HandleError};
use celq::value::DataValue;
use celq::varset::VariableSet;

const NO_SLURP: bool = false;
const ROOT_VAR: &str = "this";

#[test]
fn input_handler_test_handle_json_null_input() {
    let program = cel::Program::compile("2 + 3").unwrap();
    let args = VariableSet::new();

    let (output, is_truthy) = handle_json(&program, &args, ".", None).unwrap();

    assert!(output.contains("5"));
    assert!(is_truthy);
}

#[test]
fn input_handler_test_handle_json_with_json() {
    let program = cel::Program::compile(".x + .y").unwrap();
    let args = VariableSet::new();
    let json = r#"{"x": 10, "y": 20}"#;

    let (output, is_truthy) = handle_json(&program, &args, ".", Some(json)).unwrap();

    assert!(output.contains("30"));
    assert!(is_truthy);
}

#[test]
fn input_handler_test_handle_json_with_args() {
    let program = cel::Program::compile("x + y").unwrap();
    let mut args = VariableSet::new();
    args.insert("x".to_string(), DataValue::Int64(5));
    args.insert("y".to_string(), DataValue::Int64(7));

    let (output, is_truthy) = handle_json(&program, &args, ".", None).unwrap();

    assert!(output.contains("12"));
    assert!(is_truthy);
}

#[test]
fn input_handler_test_handle_json_args_and_json() {
    let program = cel::Program::compile("x + .value").unwrap();
    let mut args = VariableSet::new();
    args.insert("x".to_string(), DataValue::Int64(100));
    let json = r#"{"value": 50}"#;

    let (output, is_truthy) = handle_json(&program, &args, ".", Some(json)).unwrap();

    assert!(output.contains("150"));
    assert!(is_truthy);
}

#[test]
fn input_handler_test_handle_json_boolean_false() {
    let program = cel::Program::compile("2 > 5").unwrap();
    let args = VariableSet::new();

    let (output, is_truthy) = handle_json(&program, &args, ".", None).unwrap();

    assert!(output.contains("false"));
    assert!(!is_truthy);
}

#[test]
fn input_handler_test_handle_json_boolean_true() {
    let program = cel::Program::compile("5 > 2").unwrap();
    let args = VariableSet::new();

    let (output, is_truthy) = handle_json(&program, &args, ".", None).unwrap();

    assert!(output.contains("true"));
    assert!(is_truthy);
}

#[test]
fn input_handler_test_handle_json_truthiness_zero() {
    let program = cel::Program::compile("0").unwrap();
    let args = VariableSet::new();

    let (_output, is_truthy) = handle_json(&program, &args, ".", None).unwrap();

    assert!(!is_truthy);
}

#[test]
fn input_handler_test_handle_json_truthiness_empty_string() {
    let program = cel::Program::compile(r#""""#).unwrap();
    let args = VariableSet::new();

    let (_output, is_truthy) = handle_json(&program, &args, ".", None).unwrap();

    assert!(!is_truthy);
}

#[test]
fn input_handler_test_handle_json_invalid_json() {
    let program = cel::Program::compile(".x").unwrap();
    let args = VariableSet::new();
    let json = r#"not valid json"#;

    let result = handle_json(&program, &args, ".", Some(json));

    assert!(result.is_err());
    assert!(matches!(result.unwrap_err(), HandleError::JsonParseError(_)));
}

#[test]
fn input_handler_test_handle_json_missing_variable() {
    let program = cel::Program::compile("missing_var").unwrap();
    let args = VariableSet::new();

    let result = handle_json(&program, &args, ".", None);

    assert!(result.is_err());
    assert!(matches!(result.unwrap_err(), HandleError::ExecutionError(_)));
}

#[test]
fn input_handler_test_handle_buffer_single_line() {
    let program = cel::Program::compile(".x").unwrap();
    let args = VariableSet::new();
    let input = r#"{"x": 42}"#;

    let results = handle_buffer(&program, &args, ".", input, false, -1).unwrap();

    assert_eq!(results.len(), 1);
    assert!(results[0].0.contains("42"));
    assert!(results[0].1);
}

#[test]
fn input_handler_test_handle_buffer_multiple_lines() {
    let program = cel::Program::compile(".x").unwrap();
    let args = VariableSet::new();
    let input = r#"{"x": 1}
{"x": 2}
{"x": 3}"#;

    let results = handle_buffer(&program, &args, ".", input, false, -1).unwrap();

    assert_eq!(results.len(), 3);
    assert!(results[0].0.contains("1"));
    assert!(results[1].0.contains("2"));
    assert!(results[2].0.contains("3"));
}

#[test]
fn input_handler_test_handle_buffer_slurp() {
    let program = cel::Program::compile(".x + .y").unwrap();
    let args = VariableSet::new();
    let input = r#"{"x": 10,
"y": 20}"#;

    let results = handle_buffer(&program, &args, ".", input, true, -1).unwrap();

    assert_eq!(results.len(), 1);
    assert!(results[0].0.contains("30"));
    assert!(results[0].1);
}

#[test]
fn input_handler_test_handle_buffer_empty_input() {
    let program = cel::Program::compile("2 + 3").unwrap();
    let args = VariableSet::new();

    let results = handle_buffer(&program, &args, ".", "", false, -1).unwrap();

    assert_eq!(results.len(), 1);
    assert!(results[0].0.contains("5"));
    assert!(results[0].1);
}

#[test]
fn input_handler_test_handle_input_null_input() {
    let program = cel::Program::compile("2 + 3").unwrap();
    let args = VariableSet::new();

    let results = handle_input(&program, &args, ".", None, false, -1).unwrap();

    assert_eq!(results.len(), 1);
    assert!(results[0].0.contains("5"));
    assert!(results[0].1);
}

#[test]
fn input_handler_test_handle_buffer_skip_empty_lines() {
    let program = cel::Program::compile(".x").unwrap();
    let args = VariableSet::new();
    let input = "{\"x\": 1}\n\n{\"x\": 2}\n   \n{\"x\": 3}";

    let results = handle_buffer(&program, &args, ".", input, false, -1).unwrap();

    assert_eq!(results.len(), 3);
    assert!(results[0].0.contains("1"));
    assert!(results[1].0.contains("2"));
    assert!(results[2].0.contains("3"));
}

#[test]
fn input_handler_test_test_handle_json_null_input() {
    let program = cel::Program::compile("2 + 3").unwrap();
    let args = VariableSet::new();

    let (output, is_truthy) = handle_json(&program, &args, ROOT_VAR, None).unwrap();

    assert!(output.contains("5"));
    assert!(is_truthy);
}

#[test]
fn input_handler_test_test_handle_json_with_json() {
    let program = cel::Program::compile("this.x + this.y").unwrap();
    let args = VariableSet::new();
    let json = r#"{"x": 10, "y": 20}"#;

    let (output, is_truthy) = handle_json(&program, &args, ROOT_VAR, Some(json)).unwrap();

    assert!(output.contains("30"));
    assert!(is_truthy);
}

#[test]
fn input_handler_test_test_handle_json_with_args() {
    let program = cel::Program::compile("x + y").unwrap();
    let mut args = VariableSet::new();
    args.insert("x".to_string(), DataValue::Int64(5));
    args.insert("y".to_string(), DataValue::Int64(7));

    let (output, is_truthy) = handle_json(&program, &args, ROOT_VAR, None).unwrap();

    assert!(output.contains("12"));
    assert!(is_truthy);
}

#[test]
fn input_handler_test_test_handle_json_args_and_json() {
    let program = cel::Program::compile("x + this.value").unwrap();
    let mut args = VariableSet::new();
    args.insert("x".to_string(), DataValue::Int64(100));
    let json = r#"{"value": 50}"#;

    let (output, is_truthy) = handle_json(&program, &args, ROOT_VAR, Some(json)).unwrap();

    assert!(output.contains("150"));
    assert!(is_truthy);
}

#[test]
fn input_handler_test_test_handle_json_boolean_false() {
    let program = cel::Program::compile("2 > 5").unwrap();
    let args = VariableSet::new();

    let (output, is_truthy) = handle_json(&program, &args, ROOT_VAR, None).unwrap();

    assert!(output.contains("false"));
    assert!(!is_truthy);
}

#[test]
fn input_handler_test_test_handle_json_boolean_true() {
    let program = cel::Program::compile("5 > 2").unwrap();
    let args = VariableSet::new();

    let (output, is_truthy) = handle_json(&program, &args, ROOT_VAR, None).unwrap();

    assert!(output.contains("true"));
    assert!(is_truthy);
}

#[test]
fn input_handler_test_test_handle_json_truthiness_zero() {
    let program = cel::Program::compile("0").unwrap();
    let args = VariableSet::new();

    let (_output, is_truthy) = handle_json(&program, &args, ROOT_VAR, None).unwrap();

    assert!(!is_truthy);
}

#[test]
fn input_handler_test_test_handle_json_truthiness_empty_string() {
    let program = cel::Program::compile(r#""""#).unwrap();
    let args = VariableSet::new();

    let (_output, is_truthy) = handle_json(&program, &args, ROOT_VAR, None).unwrap();

    assert!(!is_truthy);
}

#[test]
fn input_handler_test_test_handle_json_invalid_json() {
    let program = cel::Program::compile("this.x").unwrap();
    let args = VariableSet::new();
    let json = r#"not valid json"#;

    let result = handle_json(&program, &args, ROOT_VAR, Some(json));

    assert!(result.is_err());
}

#[test]
fn input_handler_test_test_handle_json_missing_variable() {
    let program = cel::Program::compile("missing_var").unwrap();
    let args = VariableSet::new();

    let result = handle_json(&program, &args, ROOT_VAR, None);

    assert!(result.is_err());
}

#[test]
fn input_handler_test_test_handle_buffer_single_line() {
    let program = cel::Program::compile("this.x").unwrap();
    let args = VariableSet::new();
    let input = r#"{"x": 42}"#;

    let results = handle_buffer(&program, &args, ROOT_VAR, input, NO_SLURP, -1).unwrap();

    assert_eq!(results.len(), 1);
    assert!(results[0].0.contains("42"));
    assert!(results[0].1);
}

#[test]
fn input_handler_test_test_handle_buffer_multiple_lines() {
    let program = cel::Program::compile("this.x").unwrap();
    let args = VariableSet::new();
    let input = r#"{"x": 1}
{"x": 2}
{"x": 3}"#;

    let results = handle_buffer(&program, &args, ROOT_VAR, input, NO_SLURP, -1).unwrap();

    assert_eq!(results.len(), 3);
    assert!(results[0].0.contains("1"));
    assert!(results[1].0.contains("2"));
    assert!(results[2].0.contains("3"));
}

#[test]
fn input_handler_test_test_handle_buffer_empty_input() {
    let program = cel::Program::compile("2 + 3").unwrap();
    let args = VariableSet::new();

    let results = handle_buffer(&program, &args, ROOT_VAR, "", NO_SLURP, -1).unwrap();

    assert_eq!(results.len(), 1);
    assert!(results[0].0.contains("5"));
    assert!(results[0].1);
}

#[test]
fn input_handler_test_test_handle_input_null_input() {
    let program = cel::Program::compile("2 + 3").unwrap();
    let args = VariableSet::new();

    let results = handle_input(&program, &args, ROOT_VAR, None, NO_SLURP, -1).unwrap();

    assert_eq!(results.len(), 1);
    assert!(results[0].0.contains("5"));
    assert!(results[0].1);
}

#[test]
fn input_handler_test_test_handle_buffer_skip_empty_lines() {
    let program = cel::Program::compile("this.x").unwrap();
    let args = VariableSet::new();
    let input = "{\"x\": 1}\n\n{\"x\": 2}\n   \n{\"x\": 3}";

    let results = handle_buffer(&program, &args, ROOT_VAR, input, NO_SLURP, -1).unwrap();

    assert_eq!(results.len(), 3);
    assert!(results[0].0.contains("1"));
    assert!(results[1].0.contains("2"));
    assert!(results[2].0.contains("3"));
}
