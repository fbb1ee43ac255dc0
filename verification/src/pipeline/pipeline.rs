//! A pipeline: a source, stages in order, and an optional sink.
use vstd::prelude::*;

use crate::parse::usize_text;
use crate::record::Record;
use crate::text::concat;
use super::builder::PipelineBuilder;
use super::error::PipelineError;
use crate::sink::Sink;
use crate::source::Source;
use super::log::PipelineLog;
use super::options::{spec_should_log, ErrorPolicy, PipelineOptions};
use super::run_result::PipelineRunResult;
use super::stage::{PipelineStage, StageContext, StageError, StageExecutor, StageResult};
use super::summary::PipelineSummary;
use super::trace::{
    failed, failure_text, finish_outcome, handed, handed_by, kept_logs, lemma_handed_push,
    lemma_record_step, lemma_sink_after_none, log_fits, logs_fit, none_failed, read_outcome,
    records_fit, records_outcome, sink_after, sink_answered, skipped, succeeded, summary_fits,
    trace_fits, RecordTrace,
};
use crate::parse::nat_text;

verus! {

#[derive(Debug, Clone, Copy, PartialEq, Eq, Structural)]
enum RecordOutcome {
    Succeeded,
    Skipped,
    Failed,
}

struct RecordExecutionResult {
    outcome: RecordOutcome,
    error: Option<PipelineError>,
}

impl RecordExecutionResult {
    fn new(outcome: RecordOutcome) -> (r: RecordExecutionResult)
        ensures
            r.outcome == outcome,
            r.error is None,
    {
        RecordExecutionResult { outcome, error: None }
    }
}

/// `new` is `old`, with one log about record `index` added when the options
/// keep one more log.
pub open spec fn log_step(
    old: Seq<PipelineLog>,
    new: Seq<PipelineLog>,
    options: PipelineOptions,
    index: usize,
) -> bool {
    if spec_should_log(options, old.len()) {
        &&& new.len() == old.len() + 1
        &&& new.take(old.len() as int) == old
        &&& new[old.len() as int].index() == index
    } else {
        new == old
    }
}

/// How many logs a run keeps when `n` records were skipped or failed.
pub open spec fn expected_log_count(options: PipelineOptions, n: nat) -> nat {
    if !options.collect_logs {
        0
    } else {
        match options.log_limit {
            None => n,
            Some(limit) => if n < limit {
                n
            } else {
                limit as nat
            },
        }
    }
}

/// What every successful run reports: each record it read succeeded, was
/// skipped or failed; the logs are as many as the options keep, about
/// records it read, in the order it read them; and under `StopOnError`
/// no record failed.
pub open spec fn run_result_holds(options: PipelineOptions, result: PipelineRunResult) -> bool {
    let s = result.summary;
    let logs = result.logs@;
    &&& s.processed == s.succeeded + s.skipped + s.failed
    &&& logs.len() == expected_log_count(options, (s.skipped + s.failed) as nat)
    &&& forall|k: int| 0 <= k < logs.len() ==> 1 <= #[trigger] logs[k].index() <= s.processed
    &&& forall|a: int, b: int|
        0 <= a < b < logs.len() ==> #[trigger] logs[a].index() < #[trigger] logs[b].index()
    &&& options.error_policy == ErrorPolicy::StopOnError ==> s.failed == 0
}

pub struct Pipeline {
    /// The source, alone in a `Vec`: the verifier follows a trait object
    /// through a `Vec` but not through a plain field.
    sources: Vec<Box<dyn Source>>,
    stages: Vec<Box<dyn PipelineStage>>,
    /// The sink, if there is one, alone in a `Vec` for the same reason.
    sinks: Vec<Box<dyn Sink>>,
}

impl Pipeline {
    #[verifier::type_invariant]
    spec fn one_source(&self) -> bool {
        self.sources@.len() == 1 && self.sinks@.len() <= 1
    }

    pub fn new(source: Box<dyn Source>) -> (r: Pipeline)
        ensures
            r.source_seq().len() == 1,
            r.source_seq()[0] == source,
            forall|read: Result<Vec<Result<Record, PipelineError>>, PipelineError>|
                #[trigger] r.source_gives(read) == source.gives(read),
            !r.has_sink(),
            r.stage_count() == 0,
            r.stage_seq() == Seq::<Box<dyn PipelineStage>>::empty(),
    {
        let mut sources = Vec::new();
        sources.push(source);
        proof {
            vstd::seq::axiom_seq_push_len(Seq::empty(), source);
            vstd::seq::axiom_seq_push_index_same(Seq::empty(), source, 0);
        }
        Pipeline { sources, stages: Vec::new(), sinks: Vec::new() }
    }

    /// A pipeline of the source in `sources`, the stages `stages` in order and
    /// the sink in `sinks`, if any.
    pub(crate) fn from_parts(
        sources: Vec<Box<dyn Source>>,
        stages: Vec<Box<dyn PipelineStage>>,
        sinks: Vec<Box<dyn Sink>>,
    ) -> (r: Pipeline)
        requires
            sources@.len() == 1,
            sinks@.len() <= 1,
        ensures
            r.source_seq() == sources@,
            r.stage_seq() == stages@,
            r.stage_count() == stages@.len(),
            r.sink_seq() == sinks@,
    {
        Pipeline { sources, stages, sinks }
    }

    /// The source the pipeline reads its records from, alone in a sequence.
    pub closed spec fn source_seq(&self) -> Seq<Box<dyn Source>> {
        self.sources@
    }

    /// The sink records are written to, alone in a sequence, or nothing.
    pub closed spec fn sink_seq(&self) -> Seq<Box<dyn Sink>> {
        self.sinks@
    }

    pub open spec fn has_sink(&self) -> bool {
        self.sink_seq().len() > 0
    }

    /// The stages, in the order records go through them.
    pub closed spec fn stage_seq(&self) -> Seq<Box<dyn PipelineStage>> {
        self.stages@
    }

    /// Reading the pipeline's source may give `read`.
    pub open spec fn source_gives(&self, read: Result<Vec<Result<Record, PipelineError>>, PipelineError>) -> bool {
        self.source_seq()[0].gives(read)
    }

    /// Running the records of the source may go as `ts` says and give `r`:
    /// reading the source gave some `read` it may give, and `read_outcome`
    /// says what follows from it, with the stages and the sink as they are.
    pub open spec fn runs_records(
        &self,
        options: PipelineOptions,
        ts: Seq<RecordTrace>,
        r: Result<PipelineRunResult, PipelineError>,
    ) -> bool {
        exists|read: Result<Vec<Result<Record, PipelineError>>, PipelineError>|
            #[trigger] self.source_gives(read) && read_outcome(
                options,
                self.stage_seq(),
                self.sink_seq(),
                read,
                ts,
                r,
            )
    }

    /// How many stages the pipeline runs records through.
    pub closed spec fn stage_count(&self) -> nat {
        self.stages@.len()
    }

    pub fn builder() -> (r: PipelineBuilder)
        ensures
            r.is_empty(),
    {
        PipelineBuilder::new()
    }

    pub fn add_stage(&mut self, stage: Box<dyn PipelineStage>)
        ensures
            final(self).has_sink() == old(self).has_sink(),
            final(self).stage_count() == old(self).stage_count() + 1,
            final(self).stage_seq() == old(self).stage_seq().push(stage),
            final(self).source_seq() == old(self).source_seq(),
            final(self).sink_seq() == old(self).sink_seq(),
    {
        proof {
            use_type_invariant(&*self);
        }
        let mut stages = Vec::new();
        std::mem::swap(&mut stages, &mut self.stages);
        let ghost before = stages@;
        stages.push(stage);
        proof {
            // Element type `Box<dyn _>`: the length axiom is applied by hand.
            vstd::seq::axiom_seq_push_len(before, stage);
        }
        self.stages = stages;
    }

    pub fn set_sink(&mut self, sink: Box<dyn Sink>)
        ensures
            final(self).sink_seq().len() == 1,
            final(self).sink_seq()[0] == sink,
            final(self).source_seq() == old(self).source_seq(),
            final(self).stage_count() == old(self).stage_count(),
            final(self).stage_seq() == old(self).stage_seq(),
    {
        proof {
            use_type_invariant(&*self);
        }
        let mut sinks = Vec::new();
        sinks.push(sink);
        proof {
            vstd::seq::axiom_seq_push_len(Seq::empty(), sink);
            vstd::seq::axiom_seq_push_index_same(Seq::empty(), sink, 0);
        }
        self.sinks = sinks;
    }

    /// Runs every record of the source through the stages and into the sink,
    /// then finishes the sink once, also when the run failed. What it returns
    /// is what running the records gave (as `ts` says), combined with what
    /// finishing the sink gave (`finish_outcome`): an answer the sink may
    /// give when finished after the records written to it.
    pub fn run(&mut self, options: PipelineOptions) -> (r: Result<PipelineRunResult, PipelineError>)
        ensures
            exists|
                ts: Seq<RecordTrace>,
                records: Result<PipelineRunResult, PipelineError>,
                finished: Option<Result<(), PipelineError>>,
            |
                #![trigger old(self).runs_records(options, ts, records), finish_outcome(records, finished, r)]
                old(self).runs_records(options, ts, records) && (finished is None
                    <==> !old(self).has_sink()) && (finished matches Some(f)
                    ==> old(self).sink_seq()[0].finishes(handed(ts), f)) && finish_outcome(
                    records,
                    finished,
                    r,
                ),
            r matches Ok(result) ==> run_result_holds(options, result),
            final(self).has_sink() == old(self).has_sink(),
            final(self).stage_count() == old(self).stage_count(),
            final(self).stage_seq() == old(self).stage_seq(),
            final(self).source_seq() == old(self).source_seq(),
    {
        let (result, Ghost(ts)) = self.run_records(options);
        let ghost records = result;
        let ghost mut finished: Option<Result<(), PipelineError>> = None;
        proof {
            use_type_invariant(&*self);
        }
        let finish = if self.sinks.len() > 0 {
            let mut sinks = Vec::new();
            std::mem::swap(&mut sinks, &mut self.sinks);
            let ghost before = sinks@;
            let mut sink = sinks.pop().unwrap();
            proof {
                assert(sink == before[0]);
            }
            let answer = sink.finish();
            proof {
                reveal(sink_after);
                assert(before[0].finishes(Seq::empty(), answer));
                assert(handed(ts) + Seq::<Record>::empty() =~= handed(ts));
                finished = Some(answer);
            }
            let ghost emptied = sinks@;
            sinks.push(sink);
            proof {
                vstd::seq::axiom_seq_subrange_len(before, 0, 0);
                vstd::seq::axiom_seq_push_len(emptied, sink);
            }
            self.sinks = sinks;
            match answer {
                Ok(()) => Ok(()),
                Err(error) => Err(error.context("Failed to finish sink")),
            }
        } else {
            Ok(())
        };
        proof {
            reveal_strlit("Failed to finish sink");
            reveal_strlit("Failed to finish sink: ");
            reveal_strlit(": ");
            if let Some(Err(f)) = finished {
                assert(finish matches Err(e) && e.text() =~= "Failed to finish sink: "@ + f.text());
            }
        }
        let r = match (result, finish) {
            (Ok(result), Ok(())) => Ok(result),
            (Err(error), Ok(())) => Err(error),
            (Ok(_), Err(error)) => Err(error),
            (Err(error), Err(finish_error)) => {
                let text = finish_error.to_string();
                Err(error.context(text.as_str()))
            },
        };
        proof {
            assert(finish_outcome(records, finished, r));
        }
        r
    }

    #[verifier::rlimit(60)]
    fn run_records(&mut self, options: PipelineOptions) -> (r: (
        Result<PipelineRunResult, PipelineError>,
        Ghost<Seq<RecordTrace>>,
    ))
        ensures
            old(self).runs_records(options, r.1@, r.0),
            sink_after(old(self).sink_seq(), final(self).sink_seq(), handed(r.1@)),
            r.0 matches Ok(result) ==> run_result_holds(options, result),
            final(self).has_sink() == old(self).has_sink(),
            final(self).stage_count() == old(self).stage_count(),
            final(self).stage_seq() == old(self).stage_seq(),
            final(self).source_seq() == old(self).source_seq(),
    {
        proof {
            use_type_invariant(&*self);
        }
        let ghost stages = self.stages@;
        let ghost has_sink = self.has_sink();
        let ghost start = self.sink_seq();
        let read = self.sources[0].read();
        let ghost read_g = read;
        proof {
            assert(old(self).source_gives(read_g));
        }
        let records = match read {
            Ok(records) => records,
            Err(error) => {
                proof {
                    lemma_sink_after_none(start);
                    assert(handed(Seq::<RecordTrace>::empty()) == Seq::<Record>::empty());
                    assert(read_outcome(options, stages, start, read_g, Seq::empty(), Err(error)));
                }
                return (Err(error), Ghost(Seq::empty()));
            },
        };
        let mut summary = PipelineSummary::default();
        let mut logs: Vec<PipelineLog> = Vec::new();
        let ghost all = records@;
        let ghost mut ts: Seq<RecordTrace> = Seq::empty();
        let total = records.len();
        proof {
            lemma_sink_after_none(start);
            assert(handed(ts) == Seq::<Record>::empty());
            assert(records_fit(stages, start, all, ts));
            assert(logs_fit(options, ts, logs@));
        }
        for record_result in it: records
            invariant
                it.seq() == all,
                all.len() == total,
                summary.processed == it.index(),
                summary.processed == summary.succeeded + summary.skipped + summary.failed,
                logs@.len() == expected_log_count(options, (summary.skipped + summary.failed) as nat),
                forall|k: int| 0 <= k < logs@.len() ==> 1 <= #[trigger] logs@[k].index() <= summary.processed,
                forall|a: int, b: int|
                    0 <= a < b < logs@.len() ==> #[trigger] logs@[a].index() < #[trigger] logs@[b].index(),
                options.error_policy == ErrorPolicy::StopOnError ==> summary.failed == 0,
                self.has_sink() == old(self).has_sink(),
                self.stage_count() == old(self).stage_count(),
                self.stage_seq() == old(self).stage_seq(),
                stages == old(self).stage_seq(),
                has_sink == old(self).has_sink(),
                old(self).source_gives(read_g),
                read_g matches Ok(v) && v@ == all,
                ts.len() == it.index(),
                records_fit(stages, start, all, ts),
                summary_fits(summary, ts),
                logs@.len() == kept_logs(options, ts),
                logs_fit(options, ts, logs@),
                options.error_policy == ErrorPolicy::StopOnError ==> none_failed(ts),
                self.source_seq() == old(self).source_seq(),
                start == old(self).sink_seq(),
                has_sink == (start.len() > 0),
                sink_after(start, self.sink_seq(), handed(ts)),
        {
            let index: usize = summary.processed;
            assert(it.index() < it.seq().len());
            let record = match record_result {
                Ok(record) => record,
                Err(error) => {
                    proof {
                        assert(all[ts.len() as int] == Err::<Record, PipelineError>(error));
                        assert(records_outcome(options, stages, start, all, ts, Err(error)));
                        assert(read_outcome(options, stages, start, read_g, ts, Err(error)));
                    }
                    return (Err(error), Ghost(ts));
                },
            };
            let ghost input = record;
            summary.record_processed();
            let ghost before = logs@;
            let ghost sink_before = self.sink_seq();
            let (result, Ghost(t)) = self.process_record(record, index + 1, options, &mut logs);
            let ghost next = ts.push(t);
            proof {
                lemma_record_step(stages, start, sink_before, self.sink_seq(), all, ts, t);
                let n = (summary.skipped + summary.failed) as nat;
                if spec_should_log(options, before.len()) {
                    assert forall|k: int| 0 <= k < logs@.len() implies 1 <= #[trigger] logs@[k].index()
                        <= summary.processed by {
                        if k < before.len() {
                            assert(logs@[k] == before[k]);
                        }
                    }
                    assert forall|a: int, b: int|
                        0 <= a < b < logs@.len() implies #[trigger] logs@[a].index()
                        < #[trigger] logs@[b].index() by {
                        assert(logs@[a] == before[a]);
                        if b < before.len() {
                            assert(logs@[b] == before[b]);
                        }
                    }
                }
                assert(next.drop_last() =~= ts);
                assert(next.last() == t);
                if !succeeded(t) && spec_should_log(options, before.len()) {
                    assert(logs@.take(before.len() as int) =~= before);
                }
                assert(logs_fit(options, next, logs@));
            }
            match result.outcome {
                RecordOutcome::Succeeded => summary.record_succeeded(),
                RecordOutcome::Skipped => summary.record_skipped(),
                RecordOutcome::Failed => summary.record_failed(),
            }
            proof {
                assert(summary_fits(summary, next));
            }
            if options.error_policy == ErrorPolicy::StopOnError {
                if let Some(error) = result.error {
                    let mut context = concat("Record ", usize_text(index + 1).as_str());
                    context.append(" failed");
                    let e = error.context(context.as_str());
                    proof {
                        reveal_strlit("Record ");
                        reveal_strlit(" failed");
                        reveal_strlit(" failed: ");
                        reveal_strlit(": ");
                        assert(next.len() == index + 1);
                        assert(e.text() =~= "Record "@ + nat_text(next.len()) + " failed: "@ + failure_text(
                            next.last(),
                        ));
                        assert(records_outcome(options, stages, start, all, next, Err(e)));
                        assert(read_outcome(options, stages, start, read_g, next, Err(e)));
                    }
                    return (Err(e), Ghost(next));
                }
            }
            proof {
                ts = next;
            }
        }
        let r = PipelineRunResult { summary, logs };
        proof {
            assert(records_outcome(options, stages, start, all, ts, Ok(r)));
            assert(read_outcome(options, stages, start, read_g, ts, Ok(r)));
        }
        (Ok(r), Ghost(ts))
    }

    fn process_record(
        &mut self,
        record: Record,
        record_index: usize,
        options: PipelineOptions,
        logs: &mut Vec<PipelineLog>,
    ) -> (r: (RecordExecutionResult, Ghost<RecordTrace>))
        ensures
            r.1@.input == record,
            trace_fits(old(self).stage_seq(), old(self).has_sink(), record_index, r.1@),
            r.0.outcome == RecordOutcome::Succeeded <==> succeeded(r.1@),
            r.0.outcome == RecordOutcome::Skipped <==> skipped(r.1@),
            r.0.outcome == RecordOutcome::Failed <==> failed(r.1@),
            failed(r.1@) ==> (r.0.error matches Some(e) && e.text() == failure_text(r.1@)),
            !failed(r.1@) ==> r.0.error is None,
            if !succeeded(r.1@) && spec_should_log(options, old(logs)@.len()) {
                &&& final(logs)@.len() == old(logs)@.len() + 1
                &&& final(logs)@.take(old(logs)@.len() as int) == old(logs)@
                &&& log_fits(r.1@, record_index, final(logs)@.last())
            } else {
                final(logs)@ == old(logs)@
            },
            r.0.outcome == RecordOutcome::Succeeded ==> final(logs)@ == old(logs)@ && r.0.error is None,
            r.0.outcome == RecordOutcome::Skipped ==> log_step(old(logs)@, final(logs)@, options, record_index)
                && r.0.error is None,
            r.0.outcome == RecordOutcome::Failed ==> log_step(old(logs)@, final(logs)@, options, record_index)
                && r.0.error is Some,
            old(self).stage_count() == 0 && !old(self).has_sink() ==> r.0.outcome
                == RecordOutcome::Succeeded,
            sink_answered(old(self).sink_seq(), Seq::empty(), r.1@),
            sink_after(old(self).sink_seq(), final(self).sink_seq(), handed_by(r.1@)),
            final(self).has_sink() == old(self).has_sink(),
            final(self).stage_count() == old(self).stage_count(),
            final(self).stage_seq() == old(self).stage_seq(),
            final(self).source_seq() == old(self).source_seq(),
    {
        let mut record = record;
        let ghost input = record;
        let executor = StageExecutor::new(self.stages.as_slice());
        let result = executor.execute(&mut record, &StageContext { record_index });
        let ghost executed = result;
        let ghost after = record;
        match result.result {
            StageResult::Continue => {
                let ghost sink_before = self.sink_seq();
                let (outcome, Ghost(written)) = self.write_sink(&record, record_index, options, logs);
                let ghost t = RecordTrace { input, executed, record: after, written };
                proof {
                    assert(t.record == record);
                    assert(t.written == written);
                    assert(sink_before == old(self).sink_seq());
                    assert(sink_answered(old(self).sink_seq(), Seq::empty(), t));
                    assert(sink_after(old(self).sink_seq(), self.sink_seq(), handed_by(t)));
                }
                (outcome, Ghost(t))
            },
            StageResult::Skip { reason } => {
                Self::log_stage_skip(options, logs, record_index, result.stage, reason);
                let ghost t = RecordTrace { input, executed, record: after, written: None };
                proof {
                    lemma_sink_after_none(self.sink_seq());
                }
                (RecordExecutionResult::new(RecordOutcome::Skipped), Ghost(t))
            },
            StageResult::Fail { error } => {
                let converted = PipelineError::from_stage_error(&error);
                Self::log_stage_failure(options, logs, record_index, error);
                let ghost t = RecordTrace { input, executed, record: after, written: None };
                proof {
                    lemma_sink_after_none(self.sink_seq());
                }
                (RecordExecutionResult { outcome: RecordOutcome::Failed, error: Some(converted) }, Ghost(t))
            },
        }
    }

    fn write_sink(
        &mut self,
        record: &Record,
        record_index: usize,
        options: PipelineOptions,
        logs: &mut Vec<PipelineLog>,
    ) -> (r: (RecordExecutionResult, Ghost<Option<Result<(), PipelineError>>>))
        ensures
            r.1@ is Some <==> old(self).has_sink(),
            r.0.outcome == RecordOutcome::Failed <==> r.1@ matches Some(Err(_)),
            r.0.outcome != RecordOutcome::Skipped,
            r.1@ matches Some(Err(e)) ==> r.0.error == Some(e) && if spec_should_log(
                options,
                old(logs)@.len(),
            ) {
                &&& final(logs)@.len() == old(logs)@.len() + 1
                &&& final(logs)@.take(old(logs)@.len() as int) == old(logs)@
                &&& final(logs)@.last() matches PipelineLog::SinkFailed { record_index: i, message }
                &&& i == record_index
                &&& message@ == e.outer()
            } else {
                final(logs)@ == old(logs)@
            },
            r.0.outcome == RecordOutcome::Succeeded ==> final(logs)@ == old(logs)@ && r.0.error is None,
            r.0.outcome == RecordOutcome::Failed ==> log_step(old(logs)@, final(logs)@, options, record_index)
                && r.0.error is Some && old(self).has_sink(),
            !old(self).has_sink() ==> r.0.outcome == RecordOutcome::Succeeded,
            r.1@ matches Some(w) ==> old(self).sink_seq()[0].answers(Seq::empty(), *record, w),
            sink_after(
                old(self).sink_seq(),
                final(self).sink_seq(),
                if r.1@ is Some {
                    seq![*record]
                } else {
                    Seq::empty()
                },
            ),
            final(self).has_sink() == old(self).has_sink(),
            final(self).stage_count() == old(self).stage_count(),
            final(self).stage_seq() == old(self).stage_seq(),
            final(self).source_seq() == old(self).source_seq(),
    {
        proof {
            use_type_invariant(&*self);
        }
        if self.sinks.len() > 0 {
            let mut sinks = Vec::new();
            std::mem::swap(&mut sinks, &mut self.sinks);
            let ghost before = sinks@;
            let mut sink = sinks.pop().unwrap();
            proof {
                assert(sink == before[0]);
            }
            let ghost sink_old = sink;
            let answer = sink.write(record);
            proof {
                assert(forall|e: Seq<Record>, n: Record, a: Result<(), PipelineError>|
                    #[trigger] sink.answers(e, n, a) == sink_old.answers(seq![*record] + e, n, a));
            }
            let ghost sink_new = sink;
            let mut kept = Vec::new();
            kept.push(sink);
            proof {
                vstd::seq::axiom_seq_push_len(Seq::empty(), sink_new);
                vstd::seq::axiom_seq_push_index_same(Seq::empty(), sink_new, 0);
            }
            self.sinks = kept;
            let ghost given = answer;
            proof {
                reveal(sink_after);
                assert(old(self).sink_seq()[0].answers(Seq::empty(), *record, given));
                assert(self.sink_seq()[0] == sink_new);
                assert(old(self).sink_seq()[0] == sink_old);
                assert(self.sink_seq().len() == old(self).sink_seq().len());
                assert(forall|e: Seq<Record>, f: Result<(), PipelineError>|
                    #[trigger] sink_new.finishes(e, f) == sink_old.finishes(seq![*record] + e, f));
                assert(sink_after(old(self).sink_seq(), self.sink_seq(), seq![*record]));
            }
            match answer {
                Ok(()) => {
                    (RecordExecutionResult::new(RecordOutcome::Succeeded), Ghost(Some(given)))
                },
                Err(error) => {
                    let ghost written = Some(given);
                    let message = error.message();
                    Self::log_sink_failure(options, logs, record_index, message);
                    (RecordExecutionResult { outcome: RecordOutcome::Failed, error: Some(error) }, Ghost(written))
                },
            }
        } else {
            proof {
                lemma_sink_after_none(self.sink_seq());
            }
            (RecordExecutionResult::new(RecordOutcome::Succeeded), Ghost(None))
        }
    }

    fn log_stage_skip(
        options: PipelineOptions,
        logs: &mut Vec<PipelineLog>,
        record_index: usize,
        stage: &'static str,
        reason: String,
    )
        ensures
            log_step(old(logs)@, final(logs)@, options, record_index),
            final(logs)@.len() > old(logs)@.len() ==> final(logs)@.last() == (PipelineLog::Skipped {
                record_index,
                stage,
                reason,
            }),
    {
        if options.should_log(logs.len()) {
            logs.push(PipelineLog::Skipped { record_index, stage, reason });
            proof {
                assert(logs@.take(logs@.len() - 1) =~= old(logs)@);
            }
        }
    }

    fn log_stage_failure(
        options: PipelineOptions,
        logs: &mut Vec<PipelineLog>,
        record_index: usize,
        error: StageError,
    )
        ensures
            log_step(old(logs)@, final(logs)@, options, record_index),
            final(logs)@.len() > old(logs)@.len() ==> final(logs)@.last() == (PipelineLog::StageFailed {
                record_index,
                error,
            }),
    {
        if options.should_log(logs.len()) {
            logs.push(PipelineLog::StageFailed { record_index, error });
            proof {
                assert(logs@.take(logs@.len() - 1) =~= old(logs)@);
            }
        }
    }

    fn log_sink_failure(
        options: PipelineOptions,
        logs: &mut Vec<PipelineLog>,
        record_index: usize,
        message: String,
    )
        ensures
            log_step(old(logs)@, final(logs)@, options, record_index),
            final(logs)@.len() > old(logs)@.len() ==> final(logs)@.last() == (PipelineLog::SinkFailed {
                record_index,
                message,
            }),
    {
        if options.should_log(logs.len()) {
            logs.push(PipelineLog::SinkFailed { record_index, message });
            proof {
                assert(logs@.take(logs@.len() - 1) =~= old(logs)@);
            }
        }
    }
}

} // verus!
