use satva_core::{FilterStage, PipelineStage, Record, StageContext, StageResult, Value};

fn context() -> StageContext {
    StageContext { record_index: 0 }
}

fn float_text(bits: u64) -> String {
    f64::from_bits(bits).to_string()
}

/// `field(name)` of the expression language: the value of a field.
fn field(name: &'static str) -> impl Fn(&Record) -> Result<Value, String> {
    move |record: &Record| match record.get(name) {
        Some(value) => Ok(value.clone()),
        None => Err(format!("Field '{name}' not found")),
    }
}

/// `field(name).greater_than(lit(bound))` of the expression language.
fn greater_than(name: &'static str, bound: i64) -> impl Fn(&Record) -> Result<Value, String> {
    move |record: &Record| match field(name)(record)? {
        Value::Int64(v) => Ok(Value::Boolean(v > bound)),
        other => Err(format!("cannot compare {other:?} with {bound}")),
    }
}

#[test]
fn filter_continues_when_expression_is_true() {
    let mut record = Record::new();
    record.insert("age", 25.into());

    let stage = FilterStage::new(greater_than("age", 18), float_text);

    let result = stage.execute(&mut record, &context());

    assert!(matches!(result, StageResult::Continue));
}

#[test]
fn filter_skips_when_expression_is_false() {
    let mut record = Record::new();
    record.insert("age", 15.into());

    let stage = FilterStage::new(greater_than("age", 18), float_text);

    let result = stage.execute(&mut record, &context());

    match result {
        StageResult::Skip { reason } => {
            assert_eq!(reason, "Record did not satisfy filter");
        }
        _ => panic!("Expected Skip"),
    }
}

#[test]
fn filter_uses_custom_skip_reason() {
    let mut record = Record::new();
    record.insert("age", 15.into());

    let stage = FilterStage::new(greater_than("age", 18), float_text)
        .with_reason("Employee must be an adult");

    let result = stage.execute(&mut record, &context());

    match result {
        StageResult::Skip { reason } => {
            assert_eq!(reason, "Employee must be an adult");
        }
        _ => panic!("Expected Skip"),
    }
}

#[test]
fn filter_fails_when_expression_does_not_return_boolean() {
    let mut record = Record::new();
    record.insert("salary", 50000.into());

    let stage = FilterStage::new(field("salary"), float_text);

    let result = stage.execute(&mut record, &context());

    match result {
        StageResult::Fail { error } => {
            assert!(
                error.to_string().contains("expected Boolean"),
                "Unexpected error: {}",
                error.to_string()
            );
        }
        _ => panic!("Expected Fail"),
    }
}

#[test]
fn filter_fails_when_field_is_missing() {
    let mut record = Record::new();

    let stage = FilterStage::new(greater_than("salary", 1000), float_text);

    let result = stage.execute(&mut record, &context());

    assert!(matches!(result, StageResult::Fail { .. }));
}

#[test]
fn filter_does_not_modify_record() {
    let mut record = Record::new();
    record.insert("age", Value::Int64(25));

    let stage = FilterStage::new(greater_than("age", 18), float_text);

    let _ = stage.execute(&mut record, &context());

    assert_eq!(record.get("age"), Some(&Value::Int64(25)));
}

#[test]
fn filter_failure_message_writes_the_value() {
    let stage = FilterStage::new(field("x"), float_text);
    match stage.decide(Ok(Value::Float64(1.5f64.to_bits()))) {
        StageResult::Fail { error } => assert_eq!(
            error.to_string(),
            "[Filter] Execution error: Filter expression returned '1.5', expected Boolean"
        ),
        _ => panic!("Expected Fail"),
    }
    match stage.decide(Ok(Value::Null)) {
        StageResult::Fail { error } => assert_eq!(
            error.to_string(),
            "[Filter] Execution error: Filter expression returned 'null', expected Boolean"
        ),
        _ => panic!("Expected Fail"),
    }
    match stage.decide(Err("boom".to_string())) {
        StageResult::Fail { error } => {
            assert_eq!(error.to_string(), "[Filter] Execution error: boom")
        }
        _ => panic!("Expected Fail"),
    }
}
