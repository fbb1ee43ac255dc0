use satva_core::cli::config::{
    build_stage, default_sample_size, BuiltStage, PipelineConfig, SchemaConfig, SinkConfig, SourceConfig,
    StageConfig,
};
use satva_core::cli::mock_source::MockSource;
use satva_core::pipeline::summary::PipelineSummary;
use satva_core::{
    DataType, ErrorPolicy, Pipeline, PipelineError, PipelineOptions, Record, Sink, Source, Value,
};
use satva_core::PipelineStage;
use std::sync::{Arc, Mutex};

type Evaluator = fn(&Record) -> Result<Value, String>;

fn always_true(_: &Record) -> Result<Value, String> {
    Ok(Value::Boolean(true))
}

fn compile(text: &str) -> Result<Evaluator, String> {
    if text == "true" {
        Ok(always_true)
    } else {
        Err(format!("unexpected token '{text}'"))
    }
}

fn parse_float(text: &str) -> u64 {
    text.parse::<f64>().unwrap().to_bits()
}

fn int_to_float(value: i64) -> u64 {
    (value as f64).to_bits()
}

fn float_text(bits: u64) -> String {
    f64::from_bits(bits).to_string()
}

type Built = BuiltStage<Evaluator, fn(&str) -> u64, fn(i64) -> u64, fn(u64) -> String>;

fn built_name(stage: &Built) -> &'static str {
    match stage {
        BuiltStage::Rename(s) => s.name(),
        BuiltStage::Select(s) => s.name(),
        BuiltStage::Remove(s) => s.name(),
        BuiltStage::Validate(s) => s.name(),
        BuiltStage::Filter(s) => s.name(),
        BuiltStage::SetField(s) => s.name(),
    }
}

fn build(config: &StageConfig, schema: Option<&satva_core::Schema>) -> Result<Built, PipelineError> {
    build_stage(
        config,
        schema,
        &compile,
        parse_float as fn(&str) -> u64,
        int_to_float as fn(i64) -> u64,
        float_text as fn(u64) -> String,
    )
}

fn stage_error(config: StageConfig, schema: Option<&satva_core::Schema>) -> String {
    match build(&config, schema) {
        Ok(stage) => panic!("expected an error, built {}", built_name(&stage)),
        Err(error) => error.to_string(),
    }
}

fn stage_name(config: StageConfig, schema: Option<&satva_core::Schema>) -> &'static str {
    match build(&config, schema) {
        Ok(stage) => built_name(&stage),
        Err(error) => panic!("unexpected error: {}", error.to_string()),
    }
}

#[test]
fn built_stages_carry_their_configuration() {
    let rename = build(
        &StageConfig::RenameField {
            from: "fname".to_string(),
            to: "first_name".to_string(),
        },
        None,
    );
    let mut record = Record::new();
    record.insert("fname", Value::string("Hardik"));
    match rename {
        Ok(BuiltStage::Rename(stage)) => {
            stage.execute(&mut record, &satva_core::StageContext { record_index: 1 });
        }
        _ => panic!("expected a rename stage"),
    }
    assert!(record.get("fname").is_none());
    assert_eq!(record.get("first_name"), Some(&Value::string("Hardik")));

    let remove = build(
        &StageConfig::RemoveField {
            fields: vec!["first_name".to_string()],
        },
        None,
    );
    match remove {
        Ok(BuiltStage::Remove(stage)) => {
            stage.execute(&mut record, &satva_core::StageContext { record_index: 1 });
        }
        _ => panic!("expected a remove stage"),
    }
    assert!(record.is_empty());
}

fn config(infer: bool, stages: Vec<StageConfig>) -> PipelineConfig {
    PipelineConfig {
        source: SourceConfig::Json {
            path: "people.json".to_string(),
        },
        sink: None,
        schema: SchemaConfig {
            infer,
            sample_size: default_sample_size(),
        },
        stages,
    }
}

struct BrokenSource;

impl Source for BrokenSource {
    fn read(&self) -> Result<Vec<Result<Record, PipelineError>>, PipelineError> {
        Err(PipelineError::new("file not found"))
    }
}

#[derive(Clone, Default)]
struct CollectingSink {
    records: Arc<Mutex<Vec<Record>>>,
}

impl Sink for CollectingSink {
    fn write(&mut self, record: &Record) -> Result<(), PipelineError> {
        self.records.lock().unwrap().push(record.clone());
        Ok(())
    }

    fn finish(&mut self) -> Result<(), PipelineError> {
        Ok(())
    }
}

#[test]
fn schema_config_defaults() {
    assert_eq!(default_sample_size(), 1000);
    let schema = SchemaConfig::default();
    assert!(!schema.infer);
    assert_eq!(schema.sample_size, 0);
}

#[test]
fn builds_each_kind_of_stage() {
    let schema = satva_core::Schema::new(vec![]);
    assert_eq!(
        stage_name(
            StageConfig::RenameField {
                from: "a".to_string(),
                to: "b".to_string()
            },
            None
        ),
        "RenameField"
    );
    assert_eq!(
        stage_name(
            StageConfig::SelectFields {
                fields: vec!["a".to_string()]
            },
            None
        ),
        "SelectFields"
    );
    assert_eq!(
        stage_name(
            StageConfig::RemoveField {
                fields: vec!["a".to_string()]
            },
            None
        ),
        "RemoveField"
    );
    assert_eq!(
        stage_name(StageConfig::SchemaValidation, Some(&schema)),
        "SchemaValidation"
    );
    assert_eq!(
        stage_name(
            StageConfig::Filter {
                expression: "true".to_string()
            },
            None
        ),
        "Filter"
    );
    assert_eq!(
        stage_name(
            StageConfig::SetField {
                field: "x".to_string(),
                expression: "true".to_string()
            },
            None
        ),
        "SetField"
    );
}

#[test]
fn stage_errors_name_their_cause() {
    assert_eq!(
        stage_error(StageConfig::SchemaValidation, None),
        "stage 'schema_validation' requires 'schema: { infer: true }' in the config"
    );
    assert_eq!(
        stage_error(
            StageConfig::Filter {
                expression: "age >".to_string()
            },
            None
        ),
        "Failed to parse filter expression: unexpected token 'age >'"
    );
    assert_eq!(
        stage_error(
            StageConfig::SetField {
                field: "x".to_string(),
                expression: "1 +".to_string()
            },
            None
        ),
        "Failed to parse set_field expression: unexpected token '1 +'"
    );
}

#[test]
fn build_infers_the_schema_and_validates_against_it() {
    let sink = CollectingSink::default();
    let seen = sink.records.clone();
    let built = config(true, vec![StageConfig::SchemaValidation]).build(
        Box::new(MockSource),
        Some(Box::new(sink)),
        &compile,
        parse_float,
        int_to_float,
        float_text,
    );
    let (mut pipeline, schema) = match built {
        Ok(built) => built,
        Err(error) => panic!("unexpected error: {}", error.to_string()),
    };
    let schema = schema.expect("schema was asked for");
    let fields: Vec<(String, DataType, bool)> = schema
        .fields()
        .iter()
        .map(|f| (f.name().to_string(), f.data_type(), f.is_nullable()))
        .collect();
    assert_eq!(
        fields,
        vec![
            ("age".to_string(), DataType::Int64, false),
            ("fname".to_string(), DataType::String, true),
        ]
    );
    let result = match pipeline.run(PipelineOptions::new()) {
        Ok(result) => result,
        Err(error) => panic!("unexpected error: {}", error.to_string()),
    };
    assert_eq!(result.summary.processed, 2);
    assert_eq!(result.summary.succeeded, 2);
    let written = seen.lock().unwrap();
    assert_eq!(written.len(), 2);
    assert_eq!(written[1].get("fname"), Some(&Value::Null));
}

#[test]
fn build_without_inference_has_no_schema_for_validation() {
    let built = config(false, vec![StageConfig::SchemaValidation]).build(
        Box::new(MockSource),
        None,
        &compile,
        parse_float,
        int_to_float,
        float_text,
    );
    match built {
        Ok(_) => panic!("expected an error"),
        Err(error) => assert_eq!(
            error.to_string(),
            "stage 'schema_validation' requires 'schema: { infer: true }' in the config"
        ),
    }
    let plain = config(
        false,
        vec![StageConfig::RenameField {
            from: "fname".to_string(),
            to: "first_name".to_string(),
        }],
    )
    .build(
        Box::new(MockSource),
        None,
        &compile,
        parse_float,
        int_to_float,
        float_text,
    );
    match plain {
        Ok((_, schema)) => assert!(schema.is_none()),
        Err(error) => panic!("unexpected error: {}", error.to_string()),
    }
}

#[test]
fn build_reports_an_unreadable_sample() {
    let built = config(true, vec![]).build(
        Box::new(BrokenSource),
        None,
        &compile,
        parse_float,
        int_to_float,
        float_text,
    );
    match built {
        Ok(_) => panic!("expected an error"),
        Err(error) => assert_eq!(
            error.to_string(),
            "Failed to read sample for schema inference: file not found"
        ),
    }
}

#[test]
fn build_stops_at_the_first_stage_that_fails() {
    let mut with_sink = config(
        false,
        vec![
            StageConfig::Filter {
                expression: "true".to_string(),
            },
            StageConfig::Filter {
                expression: "oops".to_string(),
            },
            StageConfig::SchemaValidation,
        ],
    );
    with_sink.sink = Some(SinkConfig::Csv {
        path: "out.csv".to_string(),
    });
    match with_sink.build(
        Box::new(MockSource),
        Some(Box::new(CollectingSink::default())),
        &compile,
        parse_float,
        int_to_float,
        float_text,
    ) {
        Ok(_) => panic!("expected an error"),
        Err(error) => assert_eq!(
            error.to_string(),
            "Failed to parse filter expression: unexpected token 'oops'"
        ),
    }
}

#[test]
fn options_defaults_and_builders() {
    let options = PipelineOptions::new();
    assert!(options.collect_logs());
    assert_eq!(options.error_policy, ErrorPolicy::Continue);
    assert_eq!(options.log_limit, Some(1000));
    assert!(!PipelineOptions::without_logs().collect_logs());
    assert!(PipelineOptions::with_logs().collect_logs());
    let strict = PipelineOptions::new().with_error_policy(ErrorPolicy::StopOnError);
    assert_eq!(strict.error_policy, ErrorPolicy::StopOnError);
    assert_eq!(strict.log_limit, Some(1000));
    let unlimited = PipelineOptions::new().with_log_limit(None);
    assert_eq!(unlimited.log_limit, None);
    assert_eq!(ErrorPolicy::default(), ErrorPolicy::Continue);
}

#[test]
fn should_log_stops_at_the_limit() {
    let limited = PipelineOptions::new().with_log_limit(Some(2));
    assert!(limited.should_log(0));
    assert!(limited.should_log(1));
    assert!(!limited.should_log(2));
    let unlimited = PipelineOptions::new().with_log_limit(None);
    assert!(unlimited.should_log(usize::MAX));
    assert!(!PipelineOptions::without_logs().should_log(0));
}

#[test]
fn summary_counts_each_outcome() {
    let mut summary = PipelineSummary::default();
    summary.record_processed();
    summary.record_processed();
    summary.record_succeeded();
    summary.record_skipped();
    summary.record_failed();
    summary.record_failed();
    assert_eq!(summary.processed, 2);
    assert_eq!(summary.succeeded, 1);
    assert_eq!(summary.skipped, 1);
    assert_eq!(summary.failed, 2);
}

#[test]
fn builder_needs_a_source() {
    assert!(Pipeline::builder().build().is_err());
    let built = Pipeline::builder()
        .source(Box::new(MockSource))
        .sink(Box::new(CollectingSink::default()))
        .build();
    assert!(built.is_ok());
}

#[test]
fn executor_without_stages_continues() {
    let stages: Vec<Box<dyn satva_core::PipelineStage>> = Vec::new();
    let executor = satva_core::StageExecutor::new(&stages);
    let mut record = Record::new();
    record.insert("a", Value::Int64(1));
    let outcome = executor.execute(&mut record, &satva_core::StageContext { record_index: 1 });
    assert!(matches!(outcome.result, satva_core::StageResult::Continue));
    assert_eq!(outcome.stage, "");
    assert_eq!(record.get("a"), Some(&Value::Int64(1)));
}

struct PlainStage;

impl PipelineStage for PlainStage {
    fn name(&self) -> &'static str {
        "Plain"
    }

    fn execute(
        &self,
        _record: &mut Record,
        _ctx: &satva_core::StageContext,
    ) -> satva_core::StageResult {
        satva_core::StageResult::Continue
    }
}

#[test]
fn trait_defaults_accept_and_change_nothing() {
    let mut schema = satva_core::Schema::new(vec![satva_core::Field::new(
        "a",
        DataType::Int64,
        true,
    )]);
    assert!(PlainStage.validate(&schema).is_ok());
    assert!(PlainStage.transform_schema(&mut schema).is_ok());
    assert_eq!(schema.fields().len(), 1);
    assert_eq!(schema.fields()[0].name(), "a");
}

struct ContextSink;

impl Sink for ContextSink {
    fn write(&mut self, _record: &Record) -> Result<(), PipelineError> {
        Err(PipelineError::new("disk full").context("write failed"))
    }

    fn finish(&mut self) -> Result<(), PipelineError> {
        Ok(())
    }
}

#[test]
fn sink_failure_logs_the_outermost_message() {
    let mut pipeline = Pipeline::new(Box::new(MockSource));
    pipeline.set_sink(Box::new(ContextSink));
    let result = match pipeline.run(PipelineOptions::new()) {
        Ok(result) => result,
        Err(error) => panic!("unexpected error: {}", error.to_string()),
    };
    assert_eq!(result.summary.failed, 2);
    match &result.logs[0] {
        satva_core::PipelineLog::SinkFailed {
            record_index,
            message,
        } => {
            assert_eq!(*record_index, 1);
            assert_eq!(message, "write failed");
        }
        other => panic!("unexpected log {other:?}"),
    }
    let mut strict = Pipeline::new(Box::new(MockSource));
    strict.set_sink(Box::new(ContextSink));
    match strict.run(PipelineOptions::new().with_error_policy(ErrorPolicy::StopOnError)) {
        Ok(_) => panic!("expected an error"),
        Err(error) => {
            assert_eq!(
                error.to_string(),
                "Record 1 failed: write failed: disk full"
            );
            assert_eq!(error.message(), "Record 1 failed");
        }
    }
}

#[test]
fn build_runs_the_stages_in_configuration_order() {
    let sink = CollectingSink::default();
    let seen = sink.records.clone();
    let built = config(
        false,
        vec![
            StageConfig::RenameField {
                from: "fname".to_string(),
                to: "first".to_string(),
            },
            StageConfig::RenameField {
                from: "first".to_string(),
                to: "given".to_string(),
            },
        ],
    )
    .build(
        Box::new(MockSource),
        Some(Box::new(sink)),
        &compile,
        parse_float,
        int_to_float,
        float_text,
    );
    let (mut pipeline, schema) = match built {
        Ok(built) => built,
        Err(error) => panic!("unexpected error: {}", error.to_string()),
    };
    assert!(schema.is_none());
    let result = match pipeline.run(PipelineOptions::new()) {
        Ok(result) => result,
        Err(error) => panic!("unexpected error: {}", error.to_string()),
    };
    assert_eq!(result.summary.succeeded, 2);
    let written = seen.lock().unwrap();
    assert_eq!(written[0].get("given"), Some(&Value::string("Hardik")));
    assert!(written[0].get("first").is_none());
    assert!(written[0].get("fname").is_none());
}
