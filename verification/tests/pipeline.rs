use satva_core::{
    ErrorPolicy, Pipeline, PipelineError, PipelineLog, PipelineOptions, PipelineStage, Record,
    Sink, Source, StageContext, StageError, StageResult, Value,
};
use std::sync::{
    Arc, Mutex,
    atomic::{AtomicUsize, Ordering},
};

type Result<T> = std::result::Result<T, PipelineError>;

struct TestSource {
    records: Vec<Record>,
}

impl TestSource {
    fn new(records: Vec<Record>) -> Self {
        Self { records }
    }
}

impl Source for TestSource {
    fn read(&self) -> Result<Vec<Result<Record>>> {
        Ok(self.records.clone().into_iter().map(Ok).collect())
    }
}

enum TestStageBehavior {
    Continue,
    Skip(&'static str),
    Fail(&'static str),
}

struct TestStage {
    behavior: TestStageBehavior,
    calls: Arc<AtomicUsize>,
}

impl TestStage {
    fn new(behavior: TestStageBehavior) -> (Self, Arc<AtomicUsize>) {
        let calls = Arc::new(AtomicUsize::new(0));

        (
            Self {
                behavior,
                calls: Arc::clone(&calls),
            },
            calls,
        )
    }
}

impl PipelineStage for TestStage {
    fn name(&self) -> &'static str {
        "TestStage"
    }

    fn execute(&self, _: &mut Record, _: &StageContext) -> StageResult {
        self.calls.fetch_add(1, Ordering::SeqCst);

        match self.behavior {
            TestStageBehavior::Continue => StageResult::Continue,
            TestStageBehavior::Skip(reason) => StageResult::Skip {
                reason: reason.to_string(),
            },
            TestStageBehavior::Fail(message) => StageResult::Fail {
                error: StageError::execution(self.name(), message),
            },
        }
    }
}

struct RecordingSink {
    records: Arc<Mutex<Vec<Record>>>,
}

impl RecordingSink {
    fn new() -> (Self, Arc<Mutex<Vec<Record>>>) {
        let records = Arc::new(Mutex::new(Vec::new()));

        (
            Self {
                records: Arc::clone(&records),
            },
            records,
        )
    }
}

impl Sink for RecordingSink {
    fn write(&mut self, record: &Record) -> Result<()> {
        self.records.lock().unwrap().push(record.clone());
        Ok(())
    }

    fn finish(&mut self) -> Result<()> {
        Ok(())
    }
}

struct FailFirstSink {
    calls: usize,
}

impl Sink for FailFirstSink {
    fn write(&mut self, _: &Record) -> Result<()> {
        self.calls += 1;

        if self.calls == 1 {
            return Err(PipelineError::new("sink is unavailable"));
        }

        Ok(())
    }

    fn finish(&mut self) -> Result<()> {
        Ok(())
    }
}

fn record_with_id(id: i64) -> Record {
    let mut record = Record::new();
    record.insert("id", Value::Int64(id));
    record
}

#[test]
fn record_with_all_continue_stages_succeeds() -> Result<()> {
    let source = Box::new(TestSource::new(vec![record_with_id(1)]));
    let (stage, _) = TestStage::new(TestStageBehavior::Continue);
    let mut pipeline = Pipeline::new(source);

    pipeline.add_stage(Box::new(stage));

    let result = pipeline.run(PipelineOptions::default())?;

    assert_eq!(result.summary.processed, 1);
    assert_eq!(result.summary.succeeded, 1);
    assert_eq!(result.summary.skipped, 0);
    assert_eq!(result.summary.failed, 0);
    assert!(result.logs.is_empty());

    Ok(())
}

#[test]
fn skip_increments_skipped_and_stops_later_stages() -> Result<()> {
    let source = Box::new(TestSource::new(vec![record_with_id(1)]));
    let (skip_stage, _) = TestStage::new(TestStageBehavior::Skip("not needed"));
    let (later_stage, later_calls) = TestStage::new(TestStageBehavior::Continue);
    let mut pipeline = Pipeline::new(source);

    pipeline.add_stage(Box::new(skip_stage));
    pipeline.add_stage(Box::new(later_stage));

    let result = pipeline.run(PipelineOptions::default())?;

    assert_eq!(result.summary.processed, 1);
    assert_eq!(result.summary.succeeded, 0);
    assert_eq!(result.summary.skipped, 1);
    assert_eq!(result.summary.failed, 0);
    assert_eq!(later_calls.load(Ordering::SeqCst), 0);

    match &result.logs[0] {
        PipelineLog::Skipped {
            record_index,
            stage,
            reason,
        } => {
            assert_eq!(*record_index, 1);
            assert_eq!(*stage, "TestStage");
            assert_eq!(reason, "not needed");
        }
        _ => panic!("expected skipped log"),
    }

    Ok(())
}

#[test]
fn fail_increments_failed_and_stops_later_stages() -> Result<()> {
    let source = Box::new(TestSource::new(vec![record_with_id(1)]));
    let (fail_stage, _) = TestStage::new(TestStageBehavior::Fail("bad record"));
    let (later_stage, later_calls) = TestStage::new(TestStageBehavior::Continue);
    let mut pipeline = Pipeline::new(source);

    pipeline.add_stage(Box::new(fail_stage));
    pipeline.add_stage(Box::new(later_stage));

    let result = pipeline.run(PipelineOptions::default())?;

    assert_eq!(result.summary.processed, 1);
    assert_eq!(result.summary.succeeded, 0);
    assert_eq!(result.summary.skipped, 0);
    assert_eq!(result.summary.failed, 1);
    assert_eq!(later_calls.load(Ordering::SeqCst), 0);

    match &result.logs[0] {
        PipelineLog::StageFailed {
            record_index,
            error,
        } => {
            assert_eq!(*record_index, 1);

            match error {
                StageError::Execution { stage, message } => {
                    assert_eq!(*stage, "TestStage");
                    assert_eq!(message, "bad record");
                }
            }
        }
        _ => panic!("expected failed log"),
    }

    Ok(())
}

#[test]
fn collect_logs_false_returns_empty_logs() -> Result<()> {
    let source = Box::new(TestSource::new(vec![record_with_id(1)]));
    let (stage, _) = TestStage::new(TestStageBehavior::Fail("bad record"));
    let mut pipeline = Pipeline::new(source);

    pipeline.add_stage(Box::new(stage));

    let result = pipeline.run(PipelineOptions {
        collect_logs: false,
        ..PipelineOptions::default()
    })?;

    assert_eq!(result.summary.failed, 1);
    assert!(result.logs.is_empty());

    Ok(())
}

#[test]
fn attached_sink_receives_successful_records() -> Result<()> {
    let source = Box::new(TestSource::new(vec![record_with_id(1), record_with_id(2)]));
    let (sink, written_records) = RecordingSink::new();
    let mut pipeline = Pipeline::new(source);

    pipeline.set_sink(Box::new(sink));

    let result = pipeline.run(PipelineOptions::default())?;

    assert_eq!(result.summary.processed, 2);
    assert_eq!(result.summary.succeeded, 2);
    assert_eq!(written_records.lock().unwrap().len(), 2);

    Ok(())
}

#[test]
fn sink_failure_increments_failed_logs_error_and_continues() -> Result<()> {
    let source = Box::new(TestSource::new(vec![record_with_id(1), record_with_id(2)]));
    let mut pipeline = Pipeline::new(source);

    pipeline.set_sink(Box::new(FailFirstSink { calls: 0 }));

    let result = pipeline.run(PipelineOptions::default())?;

    assert_eq!(result.summary.processed, 2);
    assert_eq!(result.summary.succeeded, 1);
    assert_eq!(result.summary.skipped, 0);
    assert_eq!(result.summary.failed, 1);

    match &result.logs[0] {
        PipelineLog::SinkFailed {
            record_index,
            message,
        } => {
            assert_eq!(*record_index, 1);
            assert_eq!(message, "sink is unavailable");
        }
        _ => panic!("expected sink failed log"),
    }

    Ok(())
}

struct FinishingSink {
    calls: Arc<AtomicUsize>,
    fail_write: bool,
    fail_finish: bool,
}

impl Sink for FinishingSink {
    fn write(&mut self, _: &Record) -> Result<()> {
        if self.fail_write {
            Err(PipelineError::new("write failed"))
        } else {
            Ok(())
        }
    }
    fn finish(&mut self) -> Result<()> {
        self.calls.fetch_add(1, Ordering::SeqCst);
        if self.fail_finish {
            Err(PipelineError::new("flush failed"))
        } else {
            Ok(())
        }
    }
}

#[test]
fn strict_errors_finish_sink_and_preserve_both_errors_without_logs() {
    for fail_finish in [false, true] {
        let calls = Arc::new(AtomicUsize::new(0));
        let (stage, stage_calls) = TestStage::new(TestStageBehavior::Continue);
        let mut pipeline = Pipeline::builder()
            .source(Box::new(TestSource::new(vec![record_with_id(1), record_with_id(2)])))
            .stage(Box::new(stage))
            .sink(Box::new(FinishingSink {
                calls: calls.clone(),
                fail_write: true,
                fail_finish,
            }))
            .build()
            .unwrap();
        let error = pipeline
            .run(PipelineOptions::without_logs().with_error_policy(ErrorPolicy::StopOnError))
            .unwrap_err();
        let message = error.to_string();
        assert!(message.contains("write failed"));
        assert!(message.contains("Record 1 failed"));
        assert_eq!(message.contains("flush failed"), fail_finish);
        assert_eq!(stage_calls.load(Ordering::SeqCst), 1);
        assert_eq!(calls.load(Ordering::SeqCst), 1);
    }
}

#[test]
fn finish_errors_fail_even_empty_runs_and_continue_policy() {
    for records in [vec![], vec![record_with_id(1)]] {
        let calls = Arc::new(AtomicUsize::new(0));
        let mut pipeline = Pipeline::builder()
            .source(Box::new(TestSource::new(records)))
            .sink(Box::new(FinishingSink {
                calls: calls.clone(),
                fail_write: false,
                fail_finish: true,
            }))
            .build()
            .unwrap();
        let error = pipeline.run(PipelineOptions::default()).unwrap_err();
        assert!(error.to_string().contains("flush failed"));
        assert_eq!(calls.load(Ordering::SeqCst), 1);
    }
}

#[test]
fn strict_stage_failure_stops_without_retained_logs() {
    let (stage, calls) = TestStage::new(TestStageBehavior::Fail("invalid data"));
    let mut pipeline = Pipeline::builder()
        .source(Box::new(TestSource::new(vec![record_with_id(1), record_with_id(2)])))
        .stage(Box::new(stage))
        .build()
        .unwrap();
    let error = pipeline
        .run(
            PipelineOptions::default()
                .with_log_limit(Some(0))
                .with_error_policy(ErrorPolicy::StopOnError),
        )
        .unwrap_err();
    assert!(error.to_string().contains("invalid data"));
    assert_eq!(calls.load(Ordering::SeqCst), 1);
}

#[test]
fn logs_are_bounded_but_summary_counts_every_record() {
    for (limit, expected) in [
        (Some(0), 0),
        (Some(2), 2),
        (Some(1_000), 1_000),
        (None, 1_005),
    ] {
        for behavior in [
            TestStageBehavior::Skip("skip"),
            TestStageBehavior::Fail("fail"),
        ] {
            let (stage, _) = TestStage::new(behavior);
            let mut pipeline = Pipeline::builder()
                .source(Box::new(TestSource::new(vec![record_with_id(1); 1_005])))
                .stage(Box::new(stage))
                .build()
                .unwrap();
            let result = pipeline
                .run(PipelineOptions::default().with_log_limit(limit))
                .unwrap();
            assert_eq!(result.logs.len(), expected);
            assert_eq!(result.summary.processed, 1_005);
            assert_eq!(result.summary.failed + result.summary.skipped, 1_005);
        }
    }
}

struct BrokenSource {
    fail_open: bool,
}
impl Source for BrokenSource {
    fn read(&self) -> Result<Vec<Result<Record>>> {
        if self.fail_open {
            return Err(PipelineError::new("source failed"));
        }
        Ok(vec![
            Ok(record_with_id(1)),
            Err(PipelineError::new("source failed")),
        ])
    }
}

#[test]
fn source_errors_still_finish_sink() {
    for fail_open in [false, true] {
        let calls = Arc::new(AtomicUsize::new(0));
        let mut pipeline = Pipeline::builder()
            .source(Box::new(BrokenSource { fail_open }))
            .sink(Box::new(FinishingSink {
                calls: calls.clone(),
                fail_write: false,
                fail_finish: false,
            }))
            .build()
            .unwrap();
        assert!(pipeline.run(PipelineOptions::default()).is_err());
        assert_eq!(calls.load(Ordering::SeqCst), 1);
    }
}

#[test]
fn continue_policy_counts_all_sink_failures_and_finishes() {
    let calls = Arc::new(AtomicUsize::new(0));
    let mut pipeline = Pipeline::builder()
        .source(Box::new(TestSource::new(vec![record_with_id(1); 3])))
        .sink(Box::new(FinishingSink {
            calls: calls.clone(),
            fail_write: true,
            fail_finish: false,
        }))
        .build()
        .unwrap();
    let result = pipeline
        .run(PipelineOptions::default().with_log_limit(Some(1)))
        .unwrap();
    assert_eq!(result.summary.processed, 3);
    assert_eq!(result.summary.failed, 3);
    assert_eq!(result.summary.succeeded, 0);
    assert_eq!(result.logs.len(), 1);
    assert_eq!(calls.load(Ordering::SeqCst), 1);
}

#[test]
fn both_errors_are_reported_in_order() {
    let mut pipeline = Pipeline::builder()
        .source(Box::new(TestSource::new(vec![record_with_id(1)])))
        .sink(Box::new(FinishingSink {
            calls: Arc::new(AtomicUsize::new(0)),
            fail_write: true,
            fail_finish: true,
        }))
        .build()
        .unwrap();
    let error = pipeline
        .run(PipelineOptions::default().with_error_policy(ErrorPolicy::StopOnError))
        .unwrap_err();
    assert_eq!(
        error.to_string(),
        "Failed to finish sink: flush failed: Record 1 failed: write failed"
    );
}

#[test]
fn building_without_a_source_fails() {
    let error = match Pipeline::builder().build() {
        Ok(_) => panic!("expected an error"),
        Err(error) => error,
    };
    assert_eq!(error.to_string(), "Pipeline source is required");
}

#[test]
fn stage_failure_is_reported_with_its_stage() {
    let (stage, _) = TestStage::new(TestStageBehavior::Fail("bad"));
    let mut pipeline = Pipeline::builder()
        .source(Box::new(TestSource::new(vec![record_with_id(1), record_with_id(2)])))
        .stage(Box::new(stage))
        .build()
        .unwrap();
    let error = pipeline
        .run(PipelineOptions::default().with_error_policy(ErrorPolicy::StopOnError))
        .unwrap_err();
    assert_eq!(
        error.to_string(),
        "Record 1 failed: [TestStage] Execution error: bad"
    );
}

#[test]
fn read_sample_takes_the_first_records() {
    let source = TestSource::new(vec![record_with_id(1), record_with_id(2), record_with_id(3)]);
    let sample = source.read_sample(2).unwrap();
    assert_eq!(sample.len(), 2);
    assert_eq!(sample[1].get("id"), Some(&Value::Int64(2)));
    let broken = BrokenSource { fail_open: false };
    assert_eq!(broken.read_sample(1).unwrap().len(), 1);
    assert!(broken.read_sample(2).is_err());
}

#[test]
fn stop_on_error_without_failures_runs_like_continue() {
    let mut results = Vec::new();
    for policy in [ErrorPolicy::StopOnError, ErrorPolicy::Continue] {
        let (skipping, _) = TestStage::new(TestStageBehavior::Skip("not needed"));
        let mut pipeline = Pipeline::builder()
            .source(Box::new(TestSource::new(vec![
                record_with_id(1),
                record_with_id(2),
                record_with_id(3),
            ])))
            .stage(Box::new(skipping))
            .build()
            .unwrap();
        let result = pipeline
            .run(PipelineOptions::default().with_error_policy(policy))
            .unwrap();
        results.push(result);
    }
    let (stop, keep_going) = (&results[0], &results[1]);
    assert_eq!(stop.summary.processed, keep_going.summary.processed);
    assert_eq!(stop.summary.succeeded, keep_going.summary.succeeded);
    assert_eq!(stop.summary.skipped, 3);
    assert_eq!(keep_going.summary.skipped, 3);
    assert_eq!(stop.summary.failed, keep_going.summary.failed);
    assert_eq!(stop.logs.len(), 3);
    assert_eq!(keep_going.logs.len(), 3);
}

#[test]
fn kept_logs_are_the_skipped_and_failed_up_to_the_limit() {
    let (failing, _) = TestStage::new(TestStageBehavior::Fail("bad"));
    let mut pipeline = Pipeline::builder()
        .source(Box::new(TestSource::new(vec![record_with_id(1); 5])))
        .stage(Box::new(failing))
        .build()
        .unwrap();
    let limited = pipeline
        .run(PipelineOptions::default().with_log_limit(Some(3)))
        .unwrap();
    assert_eq!(limited.summary.failed, 5);
    assert_eq!(limited.logs.len(), 3);
    let none = pipeline.run(PipelineOptions::without_logs()).unwrap();
    assert_eq!(none.summary.failed, 5);
    assert!(none.logs.is_empty());
}
