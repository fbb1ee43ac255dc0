use satva_core::cli::age_validator::AgeValidator;
use satva_core::cli::employee_validation::EmployeeValidationStage;
use satva_core::cli::experience_enrichment::ExperienceEnrichment;
use satva_core::cli::mock_source::MockSource;
use satva_core::cli::rename_field::RenameField;
use satva_core::cli::required_field_validator::RequiredFieldValidator;
use satva_core::cli::salary_validator::SalaryValidator;
use satva_core::{PipelineStage, Record, Source, StageContext, StageError, StageResult, Value};

fn context() -> StageContext {
    StageContext { record_index: 1 }
}

fn float_text(bits: u64) -> String {
    f64::from_bits(bits).to_string()
}

fn failure(result: &StageResult) -> (String, String) {
    match result {
        StageResult::Fail {
            error: StageError::Execution { stage, message },
        } => (stage.clone(), message.clone()),
        other => panic!("expected a failure, got {other:?}"),
    }
}

fn skip_reason(result: &StageResult) -> String {
    match result {
        StageResult::Skip { reason } => reason.clone(),
        other => panic!("expected a skip, got {other:?}"),
    }
}

#[test]
fn age_validator_converts_positive_age_text() {
    let mut record = Record::new();
    record.insert("age", Value::string("42"));
    let result = AgeValidator::new().execute(&mut record, &context());
    assert!(matches!(result, StageResult::Continue));
    assert_eq!(record.get("age"), Some(&Value::Int64(42)));
}

#[test]
fn age_validator_skips_records_without_age() {
    let mut record = Record::new();
    record.insert("name", Value::string("Asha"));
    let result = AgeValidator::new().execute(&mut record, &context());
    assert_eq!(skip_reason(&result), "missing age");
    assert_eq!(record.len(), 1);
}

#[test]
fn age_validator_reports_each_bad_age() {
    let validator = AgeValidator::new();
    let cases = [
        (Value::string("abc"), "age is not a valid integer"),
        (Value::string("0"), "age must be greater than zero"),
        (Value::string("-5"), "age must be greater than zero"),
        (Value::Int64(30), "age must be a string"),
    ];
    for (value, message) in cases {
        let mut record = Record::new();
        record.insert("age", value.clone());
        let result = validator.execute(&mut record, &context());
        assert_eq!(
            failure(&result),
            ("AgeValidator".to_string(), message.to_string())
        );
        assert_eq!(record.get("age"), Some(&value));
    }
    assert_eq!(validator.name(), "AgeValidator");
}

fn employee(age: Value, salary: Option<Value>, years: Option<Value>) -> Record {
    let mut record = Record::new();
    record.insert("age", age);
    if let Some(salary) = salary {
        record.insert("salary", salary);
    }
    if let Some(years) = years {
        record.insert("experience_years", years);
    }
    record
}

#[test]
fn employee_stage_derives_seniority_from_years() {
    let stage = EmployeeValidationStage;
    for (years, level) in [
        (Some(Value::Int64(10)), "Senior"),
        (Some(Value::Int64(8)), "Senior"),
        (Some(Value::Int64(7)), "Mid"),
        (Some(Value::Int64(3)), "Mid"),
        (Some(Value::Int64(2)), "Junior"),
        (Some(Value::string("9")), "Junior"),
        (None, "Junior"),
    ] {
        let mut record = employee(Value::Int64(30), Some(Value::Int64(1000)), years);
        let result = stage.execute(&mut record, &context());
        assert!(matches!(result, StageResult::Continue));
        assert_eq!(record.get("seniority_level"), Some(&Value::string(level)));
    }
}

#[test]
fn employee_stage_checks_age_then_salary() {
    let stage = EmployeeValidationStage;
    let mut missing = Record::new();
    assert_eq!(
        skip_reason(&stage.execute(&mut missing, &context())),
        "missing age"
    );

    let cases = [
        (Value::string("30"), Some(Value::Int64(5)), "age must be an integer"),
        (Value::Int64(0), Some(Value::Int64(5)), "age must be greater than zero"),
        (Value::Int64(30), None, "invalid salary"),
        (Value::Int64(30), Some(Value::Int64(0)), "invalid salary"),
        (Value::Int64(30), Some(Value::string("5")), "invalid salary"),
        (Value::Int64(-1), None, "age must be greater than zero"),
    ];
    for (age, salary, message) in cases {
        let mut record = employee(age, salary, None);
        let result = stage.execute(&mut record, &context());
        assert_eq!(
            failure(&result),
            ("EmployeeValidationStage".to_string(), message.to_string())
        );
        assert!(record.get("seniority_level").is_none());
    }
}

#[test]
fn experience_enrichment_reads_the_level_as_text() {
    let stage = ExperienceEnrichment::new(float_text);
    for (level, expected) in [
        (Some(Value::Int64(9)), "Senior"),
        (Some(Value::string("5")), "Mid"),
        (Some(Value::string("five")), "Junior"),
        (Some(Value::Float64(9.0f64.to_bits())), "Senior"),
        (Some(Value::Float64(9.5f64.to_bits())), "Junior"),
        (Some(Value::Boolean(true)), "Junior"),
        (Some(Value::Int64(3_000_000_000)), "Junior"),
        (None, "Junior"),
    ] {
        let mut record = Record::new();
        if let Some(level) = level {
            record.insert("experience_level", level);
        }
        let result = stage.execute(&mut record, &context());
        assert!(matches!(result, StageResult::Continue));
        assert_eq!(record.get("seniority_level"), Some(&Value::string(expected)));
    }
    assert_eq!(stage.name(), "ExperienceEnrichment");
}

#[test]
fn rename_field_moves_the_value() {
    let stage = RenameField::new("fname", "first_name");
    let mut record = Record::new();
    record.insert("fname", Value::string("Hardik"));
    let result = stage.execute(&mut record, &context());
    assert!(matches!(result, StageResult::Continue));
    assert!(record.get("fname").is_none());
    assert_eq!(record.get("first_name"), Some(&Value::string("Hardik")));

    let mut other = Record::new();
    other.insert("age", Value::Int64(3));
    assert!(matches!(
        stage.execute(&mut other, &context()),
        StageResult::Continue
    ));
    assert_eq!(other.len(), 1);
}

#[test]
fn required_field_validator_skips_missing_fields() {
    let stage = RequiredFieldValidator::new("email");
    let mut record = Record::new();
    record.insert("name", Value::string("Asha"));
    assert_eq!(
        skip_reason(&stage.execute(&mut record, &context())),
        "Missing required field 'email'"
    );
    record.insert("email", Value::Null);
    assert!(matches!(
        stage.execute(&mut record, &context()),
        StageResult::Continue
    ));
}

#[test]
fn salary_validator_accepts_positive_salaries_in_any_form() {
    let stage = SalaryValidator::new(float_text);
    for (value, expected) in [
        (Value::Int64(5000), 5000),
        (Value::string("42"), 42),
        (Value::string("+7"), 7),
        (Value::Float64(1200.0f64.to_bits()), 1200),
    ] {
        let mut record = Record::new();
        record.insert("salary", value);
        assert!(matches!(
            stage.execute(&mut record, &context()),
            StageResult::Continue
        ));
        assert_eq!(record.get("salary"), Some(&Value::Int64(expected)));
    }
}

#[test]
fn salary_validator_rejects_other_salaries() {
    let stage = SalaryValidator::new(float_text);
    let mut missing = Record::new();
    assert_eq!(
        skip_reason(&stage.execute(&mut missing, &context())),
        "missing salary"
    );
    for value in [
        Value::Int64(0),
        Value::Int64(-3),
        Value::string("abc"),
        Value::Float64(10.5f64.to_bits()),
        Value::Null,
        Value::Boolean(true),
    ] {
        let mut record = Record::new();
        record.insert("salary", value.clone());
        let result = stage.execute(&mut record, &context());
        assert_eq!(
            failure(&result),
            ("SalaryValidator".to_string(), "invalid salary".to_string())
        );
        assert_eq!(record.get("salary"), Some(&value));
    }
}

#[test]
fn mock_source_reads_its_two_records() {
    let items = MockSource.read().unwrap();
    assert_eq!(items.len(), 2);
    let first = items[0].as_ref().unwrap();
    assert_eq!(first.len(), 2);
    assert_eq!(first.get("fname"), Some(&Value::string("Hardik")));
    assert_eq!(first.get("age"), Some(&Value::Int64(21)));
    let second = items[1].as_ref().unwrap();
    assert_eq!(second.len(), 1);
    assert_eq!(second.get("age"), Some(&Value::Int64(30)));
    let sample = MockSource.read_sample(1).unwrap();
    assert_eq!(sample.len(), 1);
}
