use satva_core::{DataType, Field, Record, Schema, Value};

fn record(pairs: &[(&str, Value)]) -> Record {
    let mut record = Record::new();
    for (key, value) in pairs {
        record.insert(key, value.clone());
    }
    record
}

fn summary(schema: &Schema) -> Vec<(String, DataType, bool)> {
    schema
        .fields()
        .iter()
        .map(|f: &Field| (f.name().to_string(), f.data_type(), f.is_nullable()))
        .collect()
}

#[test]
fn infer_of_no_records_is_empty() {
    let schema = Schema::infer(&[]);
    assert!(schema.fields().is_empty());
}

#[test]
fn infer_sorts_fields_by_name() {
    let records = vec![record(&[
        ("zeta", Value::Int64(1)),
        ("alpha", Value::Int64(2)),
        ("Mid", Value::Int64(3)),
    ])];
    let names: Vec<String> = summary(&Schema::infer(&records))
        .into_iter()
        .map(|(n, _, _)| n)
        .collect();
    assert_eq!(names, vec!["Mid", "alpha", "zeta"]);
}

#[test]
fn infer_types_each_field_by_majority() {
    let records = vec![
        record(&[
            ("id", Value::string("1")),
            ("score", Value::string("1.5")),
            ("flag", Value::string("true")),
            ("name", Value::string("Asha")),
            ("mixed", Value::Int64(1)),
        ]),
        record(&[
            ("id", Value::Int64(2)),
            ("score", Value::Int64(3)),
            ("flag", Value::Boolean(false)),
            ("name", Value::string("Ravi")),
            ("mixed", Value::string("x")),
        ]),
        record(&[
            ("id", Value::Int64(3)),
            ("score", Value::Float64(2.5f64.to_bits())),
            ("flag", Value::Boolean(true)),
            ("name", Value::string("7")),
            ("mixed", Value::Boolean(true)),
        ]),
    ];
    let schema = Schema::infer(&records);
    assert_eq!(
        summary(&schema),
        vec![
            ("flag".to_string(), DataType::Boolean, false),
            ("id".to_string(), DataType::Int64, false),
            ("mixed".to_string(), DataType::String, false),
            ("name".to_string(), DataType::String, false),
            ("score".to_string(), DataType::Float64, false),
        ]
    );
}

#[test]
fn infer_marks_missing_null_and_empty_fields_nullable() {
    let records = vec![
        record(&[
            ("a", Value::Int64(1)),
            ("b", Value::Null),
            ("c", Value::string("")),
            ("d", Value::Int64(4)),
        ]),
        record(&[("a", Value::Int64(2)), ("b", Value::Int64(5)), ("d", Value::Int64(6))]),
    ];
    let schema = Schema::infer(&records);
    assert_eq!(
        summary(&schema),
        vec![
            ("a".to_string(), DataType::Int64, false),
            ("b".to_string(), DataType::Int64, true),
            ("c".to_string(), DataType::String, true),
            ("d".to_string(), DataType::Int64, false),
        ]
    );
}

#[test]
fn infer_needs_a_strict_majority() {
    let records = vec![
        record(&[("n", Value::Int64(1))]),
        record(&[("n", Value::string("hello"))]),
    ];
    assert_eq!(
        summary(&Schema::infer(&records)),
        vec![("n".to_string(), DataType::String, false)]
    );
    let numbers = vec![
        record(&[("n", Value::Int64(1))]),
        record(&[("n", Value::string("2.5"))]),
        record(&[("n", Value::string("word"))]),
    ];
    assert_eq!(
        summary(&Schema::infer(&numbers)),
        vec![("n".to_string(), DataType::Float64, false)]
    );
}

#[test]
fn schema_field_finds_the_first_match() {
    let schema = Schema::new(vec![
        Field::new("a", DataType::Int64, false),
        Field::new("a", DataType::String, true),
    ]);
    assert_eq!(schema.field("a").unwrap().data_type(), DataType::Int64);
    assert!(schema.field("b").is_none());
}

#[test]
fn float_values_compare_as_floats() {
    let nan = Value::Float64(f64::NAN.to_bits());
    assert_ne!(nan, nan.clone());
    let zero = Value::Float64(0.0f64.to_bits());
    let negative_zero = Value::Float64((-0.0f64).to_bits());
    assert_eq!(zero, negative_zero);
    assert_eq!(
        Value::Float64(1.5f64.to_bits()),
        Value::Float64(1.5f64.to_bits())
    );
    assert_ne!(
        Value::Float64(1.5f64.to_bits()),
        Value::Float64(2.5f64.to_bits())
    );
}

#[test]
fn values_of_different_kinds_differ() {
    assert_ne!(Value::Int64(1), Value::Float64(1.0f64.to_bits()));
    assert_ne!(Value::string("1"), Value::Int64(1));
    assert_ne!(Value::Null, Value::string(""));
    assert_eq!(Value::Null, Value::Null);
    assert_eq!(Value::string("a"), Value::string("a"));
    assert_eq!(Value::Boolean(true), Value::boolean(true));
}

#[test]
fn value_accessors_and_conversions() {
    assert_eq!(Value::string("x").as_string(), Some("x"));
    assert_eq!(Value::Int64(3).as_string(), None);
    assert_eq!(Value::Int64(3).as_i64(), Some(3));
    assert_eq!(Value::string("3").as_i64(), None);
    assert_eq!(Value::from(5i64), Value::Int64(5));
    assert_eq!(Value::from(true), Value::Boolean(true));
    assert_eq!(Value::from("hi"), Value::string("hi"));
    assert_eq!(Value::Null.data_type(), DataType::Null);
    assert_eq!(Value::string("").data_type(), DataType::String);
    assert_eq!(Value::Float64(0).data_type(), DataType::Float64);
}

#[test]
fn value_text_is_what_display_writes() {
    let float_text = |bits: u64| f64::from_bits(bits).to_string();
    assert_eq!(Value::Null.to_text(&float_text), "null");
    assert_eq!(Value::Int64(-12).to_text(&float_text), "-12");
    assert_eq!(Value::Boolean(false).to_text(&float_text), "false");
    assert_eq!(Value::string("abc").to_text(&float_text), "abc");
    assert_eq!(Value::Float64(2.5f64.to_bits()).to_text(&float_text), "2.5");
}
