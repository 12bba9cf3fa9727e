use celq::args2cel::args_to_cel_variables;
use celq::input_handler::{handle_buffer, handle_input, handle_json, validate_parallelism,
    HandleError};
use celq::value::DataValue;
use celq::varset::VariableSet;

#[test]
fn null_input_evaluates_exactly_once() {
    let program = cel::Program::compile("2 + 3").unwrap();
    let args = VariableSet::new();

    let results = handle_input(&program, &args, "this", None, false, -1).unwrap();

    assert_eq!(results.len(), 1);
    assert!(results[0].0.contains("5"));
    assert!(results[0].1);
}

#[test]
fn ordered_parallel_results_keep_input_order() {
    let program = cel::Program::compile("this.x").unwrap();
    let args = VariableSet::new();
    let input = "{\"x\":1}\n{\"x\":2}\n{\"x\":3}";

    let results = handle_buffer(&program, &args, "this", input, false, 2).unwrap();

    assert_eq!(results.len(), 3);
    assert_eq!(results[0].0, "1");
    assert_eq!(results[1].0, "2");
    assert_eq!(results[2].0, "3");
}

#[test]
fn blank_only_input_behaves_as_null_input() {
    let program = cel::Program::compile("2 + 3").unwrap();
    let args = VariableSet::new();

    let results = handle_buffer(&program, &args, "this", "\n   \n\t\n \n", false, -1).unwrap();

    assert_eq!(results.len(), 1);
    assert!(results[0].0.contains("5"));
    assert!(results[0].1);
}

#[test]
fn fail_fast_discards_the_whole_batch() {
    let program = cel::Program::compile("this.x").unwrap();
    let args = VariableSet::new();
    let input = "{\"x\":1}\nNOT_JSON\n{\"x\":3}";

    let result = handle_buffer(&program, &args, "this", input, false, -1);

    assert!(matches!(result, Err(HandleError::JsonParseError(_))));
}

#[test]
fn literal_binding_feeds_the_expression() {
    let args = vec![
        ("x".to_string(), "int".to_string(), Some("5".to_string())),
        ("y".to_string(), "int".to_string(), Some("7".to_string())),
    ];
    let vars = args_to_cel_variables(&args).unwrap();
    let program = cel::Program::compile("x + y").unwrap();

    let results = handle_input(&program, &vars, "this", None, false, -1).unwrap();

    assert_eq!(results.len(), 1);
    assert_eq!(results[0].0, "12");
    assert!(results[0].1);
}

#[test]
fn zero_parallelism_is_rejected_before_any_record() {
    assert!(matches!(
        validate_parallelism(0),
        Err(HandleError::InvalidParallelismError)
    ));
    assert!(validate_parallelism(-1).is_ok());
    assert!(validate_parallelism(4).is_ok());

    let program = cel::Program::compile("this.x").unwrap();
    let args = VariableSet::new();

    let result = handle_buffer(&program, &args, "this", "NOT_JSON", false, 0);
    assert!(matches!(result, Err(HandleError::InvalidParallelismError)));

    let result = handle_input(&program, &args, "this", None, false, 0);
    assert!(matches!(result, Err(HandleError::InvalidParallelismError)));

    let result = handle_buffer(&program, &args, "this", "{\"x\":1}", true, 0);
    assert!(matches!(result, Err(HandleError::InvalidParallelismError)));

    let result = handle_input(&program, &args, "this", None, true, 0);
    assert!(matches!(result, Err(HandleError::InvalidParallelismError)));
}

#[test]
fn colliding_record_field_rejects_the_record() {
    let program = cel::Program::compile("x").unwrap();
    let mut args = VariableSet::new();
    args.insert("x".to_string(), DataValue::Int64(1));

    let result = handle_json(&program, &args, "this", Some(r#"{"x": 2}"#));

    match result {
        Err(HandleError::DuplicateVariableError(name)) => assert_eq!(name, "x"),
        other => panic!("expected a duplicate variable error, got {:?}", other),
    }
}

#[test]
fn non_json_engine_result_is_a_serialization_error() {
    let program = cel::Program::compile("duration('1h')").unwrap();
    let args = VariableSet::new();

    let result = handle_json(&program, &args, "this", None);

    assert!(matches!(
        result,
        Err(HandleError::JsonSerializationError(_))
    ));
}

#[test]
fn slurp_mode_reads_one_document() {
    let program = cel::Program::compile("size(this)").unwrap();
    let args = VariableSet::new();

    let results = handle_input(&program, &args, "this", Some("[1,\n2,\n3]"), true, -1).unwrap();

    assert_eq!(results.len(), 1);
    assert_eq!(results[0].0, "3");
}

#[test]
fn trailing_newline_adds_no_record() {
    let program = cel::Program::compile("this.x").unwrap();
    let args = VariableSet::new();

    let results = handle_buffer(&program, &args, "this", "{\"x\":1}\n", false, -1).unwrap();

    assert_eq!(results.len(), 1);
    assert_eq!(results[0].0, "1");
}

#[test]
fn null_input_in_slurp_mode_has_no_document() {
    let program = cel::Program::compile("2 + 3").unwrap();
    let args = VariableSet::new();

    let result = handle_input(&program, &args, "this", None, true, -1);

    assert!(matches!(result, Err(HandleError::JsonParseError(_))));
}

#[test]
fn errors_describe_themselves() {
    assert_eq!(
        HandleError::InvalidParallelismError.describe(),
        "Parallelism level cannot be 0"
    );
    assert_eq!(
        HandleError::JsonParseError("oops".to_string()).describe(),
        "JSON parse error: oops"
    );
    assert_eq!(
        HandleError::DuplicateVariableError("x".to_string()).describe(),
        "Duplicate variable: 'x' is bound by both an argument and the record"
    );
    assert_eq!(
        HandleError::ExecutionError("boom".to_string()).describe(),
        "Execution error: boom"
    );
}
