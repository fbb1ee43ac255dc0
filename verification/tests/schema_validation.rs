use satva_core::{
    DataType, Field, PipelineStage, Record, Schema, SchemaValidation, StageContext, StageError,
    StageResult, Value,
};

fn float_bits(text: &str) -> u64 {
    text.parse::<f64>().unwrap().to_bits()
}

fn int_bits(value: i64) -> u64 {
    (value as f64).to_bits()
}

fn float_text(bits: u64) -> String {
    f64::from_bits(bits).to_string()
}

fn validation(
    schema: Schema,
) -> SchemaValidation<fn(&str) -> u64, fn(i64) -> u64, fn(u64) -> String> {
    SchemaValidation::new(
        schema,
        float_bits as fn(&str) -> u64,
        int_bits as fn(i64) -> u64,
        float_text as fn(u64) -> String,
    )
}

fn failure_message(result: StageResult) -> String {
    match result {
        StageResult::Fail {
            error: StageError::Execution { stage, message },
        } => {
            assert_eq!(stage, "SchemaValidation");
            message
        }
        other => panic!("expected a failure, got {other:?}"),
    }
}

#[test]
fn test_schema_validation_success_and_coercion() {
    let schema = Schema::new(vec![
        Field::new("name", DataType::String, false),
        Field::new("age", DataType::Int64, false),
        Field::new("salary", DataType::Float64, true),
        Field::new("active", DataType::Boolean, true),
    ]);

    let validation = validation(schema);
    let ctx = StageContext { record_index: 1 };

    // Record with string representation of numeric/boolean types
    let mut record = Record::new();
    record.insert("name", Value::string("Alice"));
    record.insert("age", Value::string("30"));
    record.insert("salary", Value::string("75000.50"));
    record.insert("active", Value::string("true"));

    let result = validation.execute(&mut record, &ctx);
    assert!(matches!(result, StageResult::Continue));

    assert_eq!(record.get("name").unwrap(), &Value::String("Alice".to_string()));
    assert_eq!(record.get("age").unwrap(), &Value::Int64(30));
    assert_eq!(record.get("salary").unwrap(), &Value::Float64(75000.50f64.to_bits()));
    assert_eq!(record.get("active").unwrap(), &Value::Boolean(true));
}

#[test]
fn test_schema_validation_nullable() {
    let schema = Schema::new(vec![
        Field::new("name", DataType::String, false),
        Field::new("age", DataType::Int64, true),
    ]);

    let validation = validation(schema);
    let ctx = StageContext { record_index: 1 };

    let mut record = Record::new();
    record.insert("name", Value::string("Alice"));
    // "age" is missing

    let result = validation.execute(&mut record, &ctx);
    assert!(matches!(result, StageResult::Continue));
    assert_eq!(record.get("age").unwrap(), &Value::Null);
}

#[test]
fn test_schema_validation_missing_required() {
    let schema = Schema::new(vec![
        Field::new("name", DataType::String, false),
        Field::new("age", DataType::Int64, false),
    ]);

    let validation = validation(schema);
    let ctx = StageContext { record_index: 1 };

    let mut record = Record::new();
    record.insert("name", Value::string("Alice"));
    // "age" is missing and not nullable

    let result = validation.execute(&mut record, &ctx);
    assert!(matches!(result, StageResult::Fail { .. }));
}

#[test]
fn test_schema_validation_invalid_type() {
    let schema = Schema::new(vec![
        Field::new("name", DataType::String, false),
        Field::new("age", DataType::Int64, false),
    ]);

    let validation = validation(schema);
    let ctx = StageContext { record_index: 1 };

    let mut record = Record::new();
    record.insert("name", Value::string("Alice"));
    record.insert("age", Value::string("not_a_number"));

    let result = validation.execute(&mut record, &ctx);
    assert!(matches!(result, StageResult::Fail { .. }));
}

#[test]
fn missing_required_field_names_the_field() {
    let schema = Schema::new(vec![Field::new("age", DataType::Int64, false)]);
    let mut record = Record::new();
    let message = failure_message(validation(schema).execute(&mut record, &StageContext { record_index: 1 }));
    assert_eq!(message, "Missing required field: age");
}

#[test]
fn integer_parse_errors_carry_the_reason() {
    let schema = Schema::new(vec![Field::new("age", DataType::Int64, false)]);
    let mut record = Record::new();
    record.insert("age", Value::string("12x"));
    let message = failure_message(validation(schema).execute(&mut record, &StageContext { record_index: 1 }));
    assert_eq!(
        message,
        "Failed to parse field 'age' with value '12x' as Int64: invalid digit found in string"
    );
}

#[test]
fn integer_overflow_is_reported() {
    let schema = Schema::new(vec![Field::new("n", DataType::Int64, false)]);
    let mut record = Record::new();
    record.insert("n", Value::string("99999999999999999999"));
    let message = failure_message(validation(schema).execute(&mut record, &StageContext { record_index: 1 }));
    assert_eq!(
        message,
        "Failed to parse field 'n' with value '99999999999999999999' as Int64: number too large to fit in target type"
    );
}

#[test]
fn float_and_boolean_parse_errors() {
    let schema = Schema::new(vec![Field::new("x", DataType::Float64, false)]);
    let mut record = Record::new();
    record.insert("x", Value::string("1.2.3"));
    let message = failure_message(validation(schema).execute(&mut record, &StageContext { record_index: 1 }));
    assert_eq!(
        message,
        "Failed to parse field 'x' with value '1.2.3' as Float64: invalid float literal"
    );

    let schema = Schema::new(vec![Field::new("b", DataType::Boolean, false)]);
    let mut record = Record::new();
    record.insert("b", Value::string("yes"));
    let message = failure_message(validation(schema).execute(&mut record, &StageContext { record_index: 1 }));
    assert_eq!(
        message,
        "Failed to parse field 'b' with value 'yes' as Boolean: provided string was not `true` or `false`"
    );
}

#[test]
fn incompatible_and_null_type_errors() {
    let schema = Schema::new(vec![Field::new("b", DataType::Boolean, false)]);
    let mut record = Record::new();
    record.insert("b", Value::Int64(1));
    let message = failure_message(validation(schema).execute(&mut record, &StageContext { record_index: 1 }));
    assert_eq!(message, "Field 'b' is not compatible with Boolean");

    let schema = Schema::new(vec![Field::new("z", DataType::Null, true)]);
    let mut record = Record::new();
    record.insert("z", Value::Int64(1));
    let message = failure_message(validation(schema).execute(&mut record, &StageContext { record_index: 1 }));
    assert_eq!(message, "Field 'z' must be null");
}

#[test]
fn empty_strings_become_null_or_fail() {
    let schema = Schema::new(vec![
        Field::new("a", DataType::Int64, true),
        Field::new("b", DataType::Float64, false),
    ]);
    let mut record = Record::new();
    record.insert("a", Value::string(""));
    record.insert("b", Value::string(""));
    let message = failure_message(validation(schema).execute(&mut record, &StageContext { record_index: 1 }));
    assert_eq!(message, "Field 'b' is not nullable but got empty string");
    assert_eq!(record.get("a"), Some(&Value::Null));
}

#[test]
fn values_are_written_as_text_for_string_fields() {
    let schema = Schema::new(vec![
        Field::new("n", DataType::String, false),
        Field::new("f", DataType::String, false),
        Field::new("b", DataType::String, false),
    ]);
    let mut record = Record::new();
    record.insert("n", Value::Int64(-42));
    record.insert("f", Value::Float64(2.5f64.to_bits()));
    record.insert("b", Value::Boolean(false));
    let result = validation(schema).execute(&mut record, &StageContext { record_index: 1 });
    assert!(matches!(result, StageResult::Continue));
    assert_eq!(record.get("n"), Some(&Value::string("-42")));
    assert_eq!(record.get("f"), Some(&Value::string("2.5")));
    assert_eq!(record.get("b"), Some(&Value::string("false")));
}

#[test]
fn integers_become_floats() {
    let schema = Schema::new(vec![Field::new("f", DataType::Float64, false)]);
    let mut record = Record::new();
    record.insert("f", Value::Int64(3));
    let result = validation(schema).execute(&mut record, &StageContext { record_index: 1 });
    assert!(matches!(result, StageResult::Continue));
    assert_eq!(record.get("f"), Some(&Value::Float64(3.0f64.to_bits())));
}

#[test]
fn validating_twice_changes_nothing_more() {
    let schema = Schema::new(vec![
        Field::new("age", DataType::Int64, false),
        Field::new("active", DataType::Boolean, true),
        Field::new("note", DataType::String, true),
    ]);
    let stage = validation(schema);
    let mut record = Record::new();
    record.insert("age", Value::string("7"));
    record.insert("extra", Value::string("kept"));
    assert!(matches!(
        stage.execute(&mut record, &StageContext { record_index: 1 }),
        StageResult::Continue
    ));
    let once = record.clone();
    assert!(matches!(
        stage.execute(&mut record, &StageContext { record_index: 1 }),
        StageResult::Continue
    ));
    for key in ["age", "active", "note", "extra"] {
        assert_eq!(record.get(key), once.get(key));
    }
    assert_eq!(record.get("active"), Some(&Value::Null));
    assert_eq!(record.get("extra"), Some(&Value::string("kept")));
}

#[test]
fn coerce_value_converts_and_reports_by_field() {
    let stage = validation(Schema::new(vec![]));
    assert_eq!(
        stage.coerce_value(&Value::string("42"), DataType::Int64, false, "age"),
        Ok(Value::Int64(42))
    );
    assert_eq!(
        stage.coerce_value(&Value::string(""), DataType::Int64, true, "age"),
        Ok(Value::Null)
    );
    assert!(stage
        .coerce_value(&Value::string(""), DataType::Int64, false, "age")
        .unwrap_err()
        .contains("'age'"));
    assert_eq!(
        stage.coerce_value(&Value::string("true"), DataType::Boolean, false, "on"),
        Ok(Value::Boolean(true))
    );
}

#[test]
fn stage_error_new_keeps_stage_and_message() {
    let error = StageError::new("Check", "bad value");
    assert_eq!(error.to_string(), "[Check] Execution error: bad value");
    match error {
        StageError::Execution { stage, message } => {
            assert_eq!(stage, "Check");
            assert_eq!(message, "bad value");
        }
    }
}
