//! What a run does with each record, and what it reports: the specification
//! of a pipeline run in terms of what its source may give, what its stages
//! may do and how its sink may answer.
use vstd::prelude::*;

use crate::parse::nat_text;
use crate::record::Record;
use super::error::PipelineError;
use super::log::PipelineLog;
use super::options::{spec_should_log, ErrorPolicy, PipelineOptions};
use super::run_result::PipelineRunResult;
use super::stage::{runs_from, stage_error_text, PipelineStage, StageContext, StageExecutionResult, StageResult};
use super::summary::PipelineSummary;
use crate::sink::Sink;

verus! {

/// What happened to one record of a run.
pub struct RecordTrace {
    /// The record as the source gave it.
    pub input: Record,
    /// What the stages gave: the result of the first stage that did not
    /// continue and its name, or `Continue` and `""`.
    pub executed: StageExecutionResult,
    /// The record as the stages left it.
    pub record: Record,
    /// What writing the record to the sink gave, when it was written.
    pub written: Option<Result<(), PipelineError>>,
}

/// `t` is what may happen to its record `t.input` at position `index`: the
/// stages run on it in order as `runs_from` says, and it is written to the
/// sink exactly when every stage continued and there is a sink.
pub open spec fn trace_fits(
    stages: Seq<Box<dyn PipelineStage>>,
    has_sink: bool,
    index: usize,
    t: RecordTrace,
) -> bool {
    &&& runs_from(
        stages,
        0,
        StageContext { record_index: index },
        t.input,
        t.executed.result,
        t.executed.stage@,
        t.record,
    )
    &&& (t.written is Some <==> (t.executed.result is Continue && has_sink))
}

/// Every stage continued and the sink, if any, took the record.
pub open spec fn succeeded(t: RecordTrace) -> bool {
    t.executed.result is Continue && !(t.written matches Some(Err(_)))
}

/// A stage skipped the record.
pub open spec fn skipped(t: RecordTrace) -> bool {
    t.executed.result is Skip
}

/// A stage failed on the record, or the sink did not take it.
pub open spec fn failed(t: RecordTrace) -> bool {
    t.executed.result is Fail || t.written matches Some(Err(_))
}

/// The text of the error a failed record gives.
pub open spec fn failure_text(t: RecordTrace) -> Seq<char> {
    match t.executed.result {
        StageResult::Fail { error } => stage_error_text(error.stage_name(), error.message_text()),
        _ => match t.written {
            Some(Err(e)) => e.text(),
            _ => Seq::empty(),
        },
    }
}

/// `log` is the log a run keeps of the record at position `index` that did
/// not succeed: who skipped it and why, the stage error, or the outermost
/// message of the sink's error.
pub open spec fn log_fits(t: RecordTrace, index: usize, log: PipelineLog) -> bool {
    match t.executed.result {
        StageResult::Skip { reason } => log == PipelineLog::Skipped {
            record_index: index,
            stage: t.executed.stage,
            reason,
        },
        StageResult::Fail { error } => log == PipelineLog::StageFailed { record_index: index, error },
        StageResult::Continue => match t.written {
            Some(Err(e)) => log matches PipelineLog::SinkFailed { record_index, message }
                && record_index == index && message@ == e.outer(),
            _ => false,
        },
    }
}

pub open spec fn count_succeeded(ts: Seq<RecordTrace>) -> nat
    decreases ts.len(),
{
    if ts.len() == 0 {
        0
    } else {
        count_succeeded(ts.drop_last()) + if succeeded(ts.last()) {
            1nat
        } else {
            0nat
        }
    }
}

pub open spec fn count_skipped(ts: Seq<RecordTrace>) -> nat
    decreases ts.len(),
{
    if ts.len() == 0 {
        0
    } else {
        count_skipped(ts.drop_last()) + if skipped(ts.last()) {
            1nat
        } else {
            0nat
        }
    }
}

pub open spec fn count_failed(ts: Seq<RecordTrace>) -> nat
    decreases ts.len(),
{
    if ts.len() == 0 {
        0
    } else {
        count_failed(ts.drop_last()) + if failed(ts.last()) {
            1nat
        } else {
            0nat
        }
    }
}

/// The summary of records `ts`: each counted once, by what happened to it.
pub open spec fn summary_fits(s: PipelineSummary, ts: Seq<RecordTrace>) -> bool {
    &&& s.processed == ts.len()
    &&& s.succeeded == count_succeeded(ts)
    &&& s.skipped == count_skipped(ts)
    &&& s.failed == count_failed(ts)
}

/// How many logs a run keeps of records `ts`: one for each record that did
/// not succeed, while the options keep one more.
pub open spec fn kept_logs(options: PipelineOptions, ts: Seq<RecordTrace>) -> nat
    decreases ts.len(),
{
    if ts.len() == 0 {
        0
    } else {
        let n = kept_logs(options, ts.drop_last());
        if !succeeded(ts.last()) && spec_should_log(options, n) {
            n + 1
        } else {
            n
        }
    }
}

/// `logs` are the logs a run keeps of records `ts`, in order: the log of
/// each record that did not succeed, while the options keep one more.
pub open spec fn logs_fit(options: PipelineOptions, ts: Seq<RecordTrace>, logs: Seq<PipelineLog>) -> bool
    decreases ts.len(),
{
    if ts.len() == 0 {
        logs.len() == 0
    } else {
        let n = kept_logs(options, ts.drop_last());
        if !succeeded(ts.last()) && spec_should_log(options, n) {
            &&& logs.len() == n + 1
            &&& logs_fit(options, ts.drop_last(), logs.take(n as int))
            &&& log_fits(ts.last(), ts.len() as usize, logs[n as int])
        } else {
            logs_fit(options, ts.drop_last(), logs)
        }
    }
}

/// The records record `t` handed to the sink: its record as the stages left
/// it, when it was written.
pub open spec fn handed_by(t: RecordTrace) -> Seq<Record> {
    if t.written is Some {
        seq![t.record]
    } else {
        Seq::empty()
    }
}

/// The records `ts` handed to the sink, in order.
pub open spec fn handed(ts: Seq<RecordTrace>) -> Seq<Record>
    decreases ts.len(),
{
    if ts.len() == 0 {
        Seq::empty()
    } else {
        handed(ts.drop_last()) + handed_by(ts.last())
    }
}

/// What the sink answered to record `t`, if it was written, is an answer
/// the sink held alone in `sinks` may give after being handed `earlier`.
pub open spec fn sink_answered(sinks: Seq<Box<dyn Sink>>, earlier: Seq<Record>, t: RecordTrace) -> bool {
    t.written matches Some(w) ==> sinks[0].answers(earlier, t.record, w)
}

/// The sink held alone in `now` (or nothing) is the one held alone in
/// `start`, moved on by the records `handed`: it answers and finishes as
/// that one would after them.
#[verifier::opaque]
pub open spec fn sink_after(start: Seq<Box<dyn Sink>>, now: Seq<Box<dyn Sink>>, handed: Seq<Record>) -> bool {
    &&& now.len() == start.len()
    &&& start.len() > 0 ==> forall|e: Seq<Record>, n: Record, a: Result<(), PipelineError>|
        #[trigger] now[0].answers(e, n, a) == start[0].answers(handed + e, n, a)
    &&& start.len() > 0 ==> forall|e: Seq<Record>, f: Result<(), PipelineError>|
        #[trigger] now[0].finishes(e, f) == start[0].finishes(handed + e, f)
}

/// The records `items` went through the stages as `ts` says, in order, each
/// with its position counted from 1, and the sink held alone in `sinks` (or
/// nothing) answered each record written as it may after the records
/// written before it.
pub open spec fn records_fit(
    stages: Seq<Box<dyn PipelineStage>>,
    sinks: Seq<Box<dyn Sink>>,
    items: Seq<Result<Record, PipelineError>>,
    ts: Seq<RecordTrace>,
) -> bool {
    &&& ts.len() <= items.len()
    &&& forall|k: int|
        0 <= k < ts.len() ==> items[k] == Ok::<Record, PipelineError>(ts[k].input) && trace_fits(
            stages,
            sinks.len() > 0,
            (k + 1) as usize,
            #[trigger] ts[k],
        ) && sink_answered(sinks, handed(ts.take(k)), ts[k])
}

/// No record of `ts` failed.
pub open spec fn none_failed(ts: Seq<RecordTrace>) -> bool {
    forall|k: int| 0 <= k < ts.len() ==> !failed(#[trigger] ts[k])
}

/// Running the records `items` through `stages` and into the sink held
/// alone in `sinks` (or nothing) went as `ts` says and gave `r`:
/// - every item is read in order; the first item that is an error ends the
///   run with that error;
/// - under `StopOnError`, the first record that fails ends the run with
///   `Record N failed: ` and its error, and no later record is processed;
/// - otherwise the run gives the summary and logs of every record.
pub open spec fn records_outcome(
    options: PipelineOptions,
    stages: Seq<Box<dyn PipelineStage>>,
    sinks: Seq<Box<dyn Sink>>,
    items: Seq<Result<Record, PipelineError>>,
    ts: Seq<RecordTrace>,
    r: Result<PipelineRunResult, PipelineError>,
) -> bool {
    records_fit(stages, sinks, items, ts) && match r {
        Ok(result) => {
            &&& ts.len() == items.len()
            &&& options.error_policy == ErrorPolicy::StopOnError ==> none_failed(ts)
            &&& summary_fits(result.summary, ts)
            &&& result.logs@.len() == kept_logs(options, ts)
            &&& logs_fit(options, ts, result.logs@)
        },
        Err(e) => {
            ||| {
                &&& options.error_policy == ErrorPolicy::StopOnError ==> none_failed(ts)
                &&& ts.len() < items.len()
                &&& items[ts.len() as int] == Err::<Record, PipelineError>(e)
            }
            ||| {
                &&& options.error_policy == ErrorPolicy::StopOnError
                &&& ts.len() > 0
                &&& none_failed(ts.drop_last())
                &&& failed(ts.last())
                &&& e.text() == "Record "@ + nat_text(ts.len()) + " failed: "@ + failure_text(
                    ts.last(),
                )
            }
        },
    }
}

/// Reading the source gave `read`, and running its records went as `ts`
/// says and gave `r`.
pub open spec fn read_outcome(
    options: PipelineOptions,
    stages: Seq<Box<dyn PipelineStage>>,
    sinks: Seq<Box<dyn Sink>>,
    read: Result<Vec<Result<Record, PipelineError>>, PipelineError>,
    ts: Seq<RecordTrace>,
    r: Result<PipelineRunResult, PipelineError>,
) -> bool {
    match read {
        Err(e) => r == Err::<PipelineRunResult, PipelineError>(e) && ts.len() == 0,
        Ok(items) => records_outcome(options, stages, sinks, items@, ts, r),
    }
}

/// Handing the records of `ts` and then those of `t` is handing those of
/// `ts.push(t)`; the records handed by a prefix of `ts` are unchanged.
pub proof fn lemma_handed_push(ts: Seq<RecordTrace>, t: RecordTrace)
    ensures
        handed(ts.push(t)) == handed(ts) + handed_by(t),
        forall|k: int| 0 <= k <= ts.len() ==> #[trigger] ts.push(t).take(k) == ts.take(k),
{
    assert(ts.push(t).drop_last() =~= ts);
    assert forall|k: int| 0 <= k <= ts.len() implies #[trigger] ts.push(t).take(k) == ts.take(k) by {
        assert(ts.push(t).take(k) =~= ts.take(k));
    }
}

/// One more record `t`, run at the next position with the sink as the earlier
/// records left it, extends the records `ts` that fit `items`.
pub proof fn lemma_record_step(
    stages: Seq<Box<dyn PipelineStage>>,
    start: Seq<Box<dyn Sink>>,
    before: Seq<Box<dyn Sink>>,
    after: Seq<Box<dyn Sink>>,
    items: Seq<Result<Record, PipelineError>>,
    ts: Seq<RecordTrace>,
    t: RecordTrace,
)
    requires
        records_fit(stages, start, items, ts),
        ts.len() < items.len(),
        items[ts.len() as int] == Ok::<Record, PipelineError>(t.input),
        trace_fits(stages, start.len() > 0, (ts.len() + 1) as usize, t),
        sink_after(start, before, handed(ts)),
        sink_answered(before, Seq::empty(), t),
        sink_after(before, after, handed_by(t)),
    ensures
        records_fit(stages, start, items, ts.push(t)),
        sink_after(start, after, handed(ts.push(t))),
        handed(ts.push(t)) == handed(ts) + handed_by(t),
{
    reveal(sink_after);
    let next = ts.push(t);
    lemma_handed_push(ts, t);
    lemma_sink_after_compose(start, before, after, handed(ts), handed_by(t));
    if let Some(w) = t.written {
        assert(before[0].answers(Seq::empty(), t.record, w));
        assert(handed(ts) + Seq::<Record>::empty() =~= handed(ts));
    }
    assert(sink_answered(start, handed(ts), t));
    assert forall|k: int| 0 <= k < next.len() implies items[k] == Ok::<Record, PipelineError>(
        next[k].input,
    ) && trace_fits(stages, start.len() > 0, (k + 1) as usize, #[trigger] next[k]) && sink_answered(
        start,
        handed(next.take(k)),
        next[k],
    ) by {
        if k < ts.len() {
            assert(next[k] == ts[k]);
            assert(next.take(k) == ts.take(k));
        } else {
            assert(next.take(k) =~= ts);
        }
    }
}

/// A sink moved on by no record is the sink it was.
pub proof fn lemma_sink_after_none(sinks: Seq<Box<dyn Sink>>)
    ensures
        sink_after(sinks, sinks, Seq::empty()),
{
    reveal(sink_after);
    if sinks.len() > 0 {
        assert forall|e: Seq<Record>, n: Record, a: Result<(), PipelineError>|
            #[trigger] sinks[0].answers(e, n, a) == sinks[0].answers(Seq::empty() + e, n, a) by {
            assert(Seq::<Record>::empty() + e =~= e);
        }
        assert forall|e: Seq<Record>, f: Result<(), PipelineError>|
            #[trigger] sinks[0].finishes(e, f) == sinks[0].finishes(Seq::empty() + e, f) by {
            assert(Seq::<Record>::empty() + e =~= e);
        }
    }
}

/// A sink moved on by `first` and then by `then` is the first one moved on
/// by both in order.
pub proof fn lemma_sink_after_compose(
    start: Seq<Box<dyn Sink>>,
    mid: Seq<Box<dyn Sink>>,
    end: Seq<Box<dyn Sink>>,
    first: Seq<Record>,
    then: Seq<Record>,
)
    requires
        sink_after(start, mid, first),
        sink_after(mid, end, then),
    ensures
        sink_after(start, end, first + then),
{
    reveal(sink_after);
    if start.len() > 0 {
        assert forall|e: Seq<Record>, n: Record, a: Result<(), PipelineError>|
            #[trigger] end[0].answers(e, n, a) == start[0].answers((first + then) + e, n, a) by {
            assert(end[0].answers(e, n, a) == mid[0].answers(then + e, n, a));
            assert(first + (then + e) =~= (first + then) + e);
        }
        assert forall|e: Seq<Record>, f: Result<(), PipelineError>|
            #[trigger] end[0].finishes(e, f) == start[0].finishes((first + then) + e, f) by {
            assert(end[0].finishes(e, f) == mid[0].finishes(then + e, f));
            assert(first + (then + e) =~= (first + then) + e);
        }
    }
}

/// What a run returns when running the records gave `records` and finishing
/// the sink gave `finished` (`None` without a sink): a finish error fails
/// the run, and when both failed, the run's error carries the finish error
/// as its context.
pub open spec fn finish_outcome(
    records: Result<PipelineRunResult, PipelineError>,
    finished: Option<Result<(), PipelineError>>,
    r: Result<PipelineRunResult, PipelineError>,
) -> bool {
    match finished {
        Some(Err(f)) => {
            let finish_text = "Failed to finish sink: "@ + f.text();
            match records {
                Ok(_) => r matches Err(e) && e.text() == finish_text,
                Err(error) => r matches Err(e) && e.text() == finish_text + ": "@ + error.text(),
            }
        },
        _ => r == records,
    }
}

} // verus!
