use satva_core::{PipelineStage, Record, SelectFieldsStage, StageContext, StageResult, Value};

fn context() -> StageContext {
    StageContext { record_index: 0 }
}

#[test]
fn keeps_selected_fields() {
    let mut record = Record::new();
    record.insert("id", 1.into());
    record.insert("name", "Hardik".into());
    record.insert("salary", 50000.into());

    let stage = SelectFieldsStage::new(&["id", "name"]);

    let result = stage.execute(&mut record, &context());

    assert!(matches!(result, StageResult::Continue));

    assert_eq!(record.get("id"), Some(&Value::Int64(1)));
    assert_eq!(
        record.get("name"),
        Some(&Value::String("Hardik".to_string()))
    );
    assert!(record.get("salary").is_none());
}

#[test]
fn ignores_missing_selected_fields() {
    let mut record = Record::new();
    record.insert("id", 1.into());

    let stage = SelectFieldsStage::new(&["id", "name"]);

    let result = stage.execute(&mut record, &context());

    assert!(matches!(result, StageResult::Continue));

    assert_eq!(record.get("id"), Some(&Value::Int64(1)));
    assert!(record.get("name").is_none());
}

#[test]
fn removes_everything_when_selection_is_empty() {
    let mut record = Record::new();
    record.insert("id", 1.into());
    record.insert("name", "Hardik".into());

    let stage = SelectFieldsStage::new(&[]);

    let result = stage.execute(&mut record, &context());

    assert!(matches!(result, StageResult::Continue));

    assert!(record.is_empty());
}

#[test]
fn keeps_all_requested_fields() {
    let mut record = Record::new();
    record.insert("a", 1.into());
    record.insert("b", 2.into());
    record.insert("c", 3.into());

    let stage = SelectFieldsStage::new(&["a", "b", "c"]);

    let result = stage.execute(&mut record, &context());

    assert!(matches!(result, StageResult::Continue));

    assert_eq!(record.len(), 3);
}

#[test]
fn preserves_values() {
    let mut record = Record::new();
    record.insert("active", true.into());
    record.insert("name", "Hardik".into());

    let stage = SelectFieldsStage::new(&["active"]);

    let result = stage.execute(&mut record, &context());

    assert!(matches!(result, StageResult::Continue));

    assert_eq!(record.get("active"), Some(&Value::Boolean(true)));
}

#[test]
fn selecting_twice_is_the_same_as_once() {
    let mut record = Record::new();
    record.insert("a", 1.into());
    record.insert("b", 2.into());
    record.insert("c", 3.into());

    let stage = SelectFieldsStage::new(&["a", "c"]);
    stage.execute(&mut record, &context());
    let once = record.clone();
    stage.execute(&mut record, &context());

    assert_eq!(record.len(), once.len());
    assert_eq!(record.get("a"), once.get("a"));
    assert_eq!(record.get("c"), once.get("c"));
    assert!(record.get("b").is_none());
}
