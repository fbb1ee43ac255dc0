use satva_core::{
    DataType, Field, PipelineStage, Record, RemoveFieldStage, RenameFieldStage, Schema,
    SchemaValidation, SelectFieldsStage, StageContext, StageResult, Value,
};

fn context() -> StageContext {
    StageContext { record_index: 1 }
}

fn parse_float(text: &str) -> u64 {
    text.parse::<f64>().unwrap().to_bits()
}

fn int_to_float(value: i64) -> u64 {
    (value as f64).to_bits()
}

fn float_text(bits: u64) -> String {
    f64::from_bits(bits).to_string()
}

fn sample() -> Record {
    let mut record = Record::new();
    record.insert("name", Value::string("Hardik"));
    record.insert("age", Value::Int64(25));
    record.insert("city", Value::string("Rajkot"));
    record
}

fn same(a: &Record, b: &Record, keys: &[&str]) -> bool {
    a.len() == b.len() && keys.iter().all(|k| a.get(k) == b.get(k))
}

const KEYS: [&str; 5] = ["name", "age", "city", "missing", "full_name"];

#[test]
fn law_read_after_write_on_records() {
    let mut record = sample();
    record.insert("age", Value::Int64(26));
    assert_eq!(record.get("age"), Some(&Value::Int64(26)));
    assert_eq!(record.get("name"), Some(&Value::string("Hardik")));
    assert_eq!(record.len(), 3);
}

#[test]
fn law_remove_is_final_on_records() {
    let mut record = sample();
    assert_eq!(record.remove("age"), Some(Value::Int64(25)));
    assert!(record.get("age").is_none());
    assert_eq!(record.remove("age"), None);
    assert_eq!(record.len(), 2);
}

#[test]
fn law_rename_round_trip_on_records() {
    let mut record = sample();
    RenameFieldStage::new("name", "full_name").execute(&mut record, &context());
    RenameFieldStage::new("full_name", "name").execute(&mut record, &context());
    assert!(same(&record, &sample(), &KEYS));
}

#[test]
fn law_select_and_remove_are_idempotent() {
    let select = SelectFieldsStage::new(&["name", "missing"]);
    let mut once = sample();
    select.execute(&mut once, &context());
    let mut twice = once.clone();
    select.execute(&mut twice, &context());
    assert!(same(&once, &twice, &KEYS));

    let remove = RemoveFieldStage::new(&["age"]);
    let mut removed_once = sample();
    remove.execute(&mut removed_once, &context());
    let mut removed_twice = removed_once.clone();
    remove.execute(&mut removed_twice, &context());
    assert!(same(&removed_once, &removed_twice, &KEYS));
}

#[test]
fn law_select_and_remove_split_a_record() {
    let names = ["name", "city"];
    let mut kept = sample();
    SelectFieldsStage::new(&names).execute(&mut kept, &context());
    let mut rest = sample();
    RemoveFieldStage::new(&names).execute(&mut rest, &context());
    assert_eq!(kept.len() + rest.len(), sample().len());
    for key in KEYS {
        let whole = sample();
        match whole.get(key) {
            Some(value) => assert!(kept.get(key) == Some(value) || rest.get(key) == Some(value)),
            None => assert!(kept.get(key).is_none() && rest.get(key).is_none()),
        }
    }
}

#[test]
fn law_validated_record_conforms_to_the_schema() {
    let schema = Schema::new(vec![
        Field::new("age", DataType::Int64, false),
        Field::new("score", DataType::Float64, true),
        Field::new("name", DataType::String, false),
    ]);
    let stage = SchemaValidation::new(schema, parse_float, int_to_float, float_text);
    let mut record = Record::new();
    record.insert("age", Value::string("31"));
    record.insert("name", Value::Int64(7));
    record.insert("extra", Value::Boolean(true));
    let result = stage.execute(&mut record, &context());
    assert!(matches!(result, StageResult::Continue));
    assert_eq!(record.get("age"), Some(&Value::Int64(31)));
    assert_eq!(record.get("score"), Some(&Value::Null));
    assert_eq!(record.get("name"), Some(&Value::string("7")));
    assert_eq!(record.get("extra"), Some(&Value::Boolean(true)));
}

#[test]
fn law_int_string_coercion_round_trip_on_values() {
    let to_text = SchemaValidation::new(
        Schema::new(vec![Field::new("n", DataType::String, false)]),
        parse_float,
        int_to_float,
        float_text,
    );
    let to_int = SchemaValidation::new(
        Schema::new(vec![Field::new("n", DataType::Int64, false)]),
        parse_float,
        int_to_float,
        float_text,
    );
    for x in [0i64, -1, 42, i64::MAX, i64::MIN] {
        let mut record = Record::new();
        record.insert("n", Value::Int64(x));
        to_text.execute(&mut record, &context());
        assert_eq!(record.get("n"), Some(&Value::string(&x.to_string())));
        to_int.execute(&mut record, &context());
        assert_eq!(record.get("n"), Some(&Value::Int64(x)));
    }
}

fn kinds(records: &[Record]) -> Vec<(String, DataType, bool)> {
    Schema::infer(records)
        .fields()
        .iter()
        .map(|f| (f.name().to_string(), f.data_type(), f.is_nullable()))
        .collect()
}

#[test]
fn law_inference_ignores_order_and_duplication_on_samples() {
    let mut first = Record::new();
    first.insert("n", Value::Int64(1));
    first.insert("s", Value::string("x"));
    let mut second = Record::new();
    second.insert("n", Value::string("word"));
    let mut third = Record::new();
    third.insert("n", Value::string("2.5"));
    let forward = vec![first.clone(), second.clone(), third.clone()];
    let backward = vec![third.clone(), second.clone(), first.clone()];
    let twice = vec![first.clone(), second.clone(), third.clone(), first, second, third];
    assert_eq!(kinds(&forward), kinds(&backward));
    assert_eq!(kinds(&forward), kinds(&twice));
    assert_eq!(
        kinds(&forward),
        vec![
            ("n".to_string(), DataType::Float64, false),
            ("s".to_string(), DataType::String, true),
        ]
    );
}

#[test]
fn law_coercion_is_stable_on_values() {
    let stage = SchemaValidation::new(
        Schema::new(vec![
            Field::new("a", DataType::Int64, false),
            Field::new("b", DataType::Boolean, false),
            Field::new("c", DataType::String, false),
            Field::new("d", DataType::Float64, false),
        ]),
        parse_float,
        int_to_float,
        float_text,
    );
    let mut record = Record::new();
    record.insert("a", Value::string("12"));
    record.insert("b", Value::string("true"));
    record.insert("c", Value::Int64(5));
    record.insert("d", Value::string("1.5"));
    assert!(matches!(stage.execute(&mut record, &context()), StageResult::Continue));
    let once = record.clone();
    assert!(matches!(stage.execute(&mut record, &context()), StageResult::Continue));
    for key in ["a", "b", "c", "d"] {
        assert_eq!(record.get(key), once.get(key));
    }
}
