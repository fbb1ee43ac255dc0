//! Stages: the steps a record goes through, and what each step reports.
use vstd::prelude::*;

use crate::record::Record;
use crate::schema::Schema;
use crate::text::{concat, owned};

verus! {

/// What a stage knows of the record it is given.
#[derive(Debug, Clone, Copy)]
pub struct StageContext {
    /// Position of the record in the source, counting from 1.
    pub record_index: usize,
}

/// A stage could not process a record.
#[derive(Debug)]
pub enum StageError {
    Execution { stage: String, message: String },
}

/// `[stage] Execution error: message`, the text of a stage error.
pub open spec fn stage_error_text(stage: Seq<char>, message: Seq<char>) -> Seq<char> {
    "["@ + stage + "] Execution error: "@ + message
}

impl StageError {
    pub fn execution(stage: &str, message: &str) -> (r: StageError)
        ensures
            r matches StageError::Execution { stage: s, message: m } && s@ == stage@ && m@
                == message@,
    {
        StageError::Execution { stage: owned(stage), message: owned(message) }
    }

    /// An error of `stage` with `message`.
    pub fn new(stage: &str, message: &str) -> (r: StageError)
        ensures
            r matches StageError::Execution { stage: s, message: m } && s@ == stage@ && m@
                == message@,
    {
        StageError::execution(stage, message)
    }

    pub open spec fn stage_name(&self) -> Seq<char> {
        match self {
            StageError::Execution { stage, .. } => stage@,
        }
    }

    pub open spec fn message_text(&self) -> Seq<char> {
        match self {
            StageError::Execution { message, .. } => message@,
        }
    }

    /// The text of the error: `[stage] Execution error: message`.
    pub fn to_string(&self) -> (r: String)
        ensures
            r@ == stage_error_text(self.stage_name(), self.message_text()),
    {
        match self {
            StageError::Execution { stage, message } => {
                let mut r = owned("[");
                r.append(stage.as_str());
                r.append("] Execution error: ");
                r.append(message.as_str());
                r
            },
        }
    }
}

impl Clone for StageError {
    fn clone(&self) -> (r: StageError)
        ensures
            r == *self,
    {
        match self {
            StageError::Execution { stage, message } => StageError::Execution {
                stage: stage.clone(),
                message: message.clone(),
            },
        }
    }
}

/// What a stage decided about a record.
#[derive(Debug)]
pub enum StageResult {
    /// Pass the record on to the next stage.
    Continue,
    /// Drop the record without error.
    Skip { reason: String },
    /// The record could not be processed.
    Fail { error: StageError },
}

impl StageResult {
    pub fn continue_() -> (r: StageResult)
        ensures
            r is Continue,
    {
        StageResult::Continue
    }

    pub fn skip(reason: &str) -> (r: StageResult)
        ensures
            r matches StageResult::Skip { reason: s } && s@ == reason@,
    {
        StageResult::Skip { reason: owned(reason) }
    }

    pub fn fail(error: StageError) -> (r: StageResult)
        ensures
            r == (StageResult::Fail { error }),
    {
        StageResult::Fail { error }
    }
}

/// A step of a pipeline. Implement it to add stages of your own.
///
/// `reports` and `outcome` describe a stage to the verifier: the name it may
/// report, and the results and records it may give for a record. Both hold
/// of everything unless a stage says more; the stages of this library do.
pub trait PipelineStage {
    /// The stage may report `name` as its name.
    open spec fn reports(&self, name: Seq<char>) -> bool {
        true
    }

    /// Given the record `before` at `ctx`, the stage may return `result` and
    /// leave the record as `after`.
    open spec fn outcome(&self, before: Record, ctx: StageContext, result: StageResult, after: Record) -> bool {
        true
    }

    fn name(&self) -> (r: &'static str)
        ensures
            self.reports(r@),
    ;

    fn execute(&self, record: &mut Record, ctx: &StageContext) -> (r: StageResult)
        ensures
            self.outcome(*old(record), *ctx, r, *final(record)),
    ;

    /// Checks the stage against the schema of the records it will see. By
    /// default every schema is accepted.
    fn validate(&self, schema: &Schema) -> (r: Result<(), StageError>)
        default_ensures
            r is Ok,
    {
        Ok(())
    }

    /// Changes a schema as the stage changes records. By default the schema
    /// is left as it is.
    fn transform_schema(&self, schema: &mut Schema) -> (r: Result<(), StageError>)
        default_ensures
            r is Ok,
            *final(schema) == *old(schema),
    {
        Ok(())
    }
}

/// The outcome of running a record through stages.
pub struct StageExecutionResult {
    /// The stage that stopped the record, or `""` when none did.
    pub stage: &'static str,
    pub result: StageResult,
}

/// Running `stages` from the one at index `i` on, a record `before` at `ctx`
/// may end with `result`, the stage name `name` and the record `after`: each
/// stage gets the record the one before it left; the first that does not
/// continue gives the result, its name and its record, and no later stage
/// runs; when every stage continues, the result is `Continue` with name `""`.
pub open spec fn runs_from(
    stages: Seq<Box<dyn PipelineStage>>,
    i: int,
    ctx: StageContext,
    before: Record,
    result: StageResult,
    name: Seq<char>,
    after: Record,
) -> bool
    decreases stages.len() - i,
{
    if 0 <= i < stages.len() {
        exists|res: StageResult, mid: Record|
            #[trigger] stages[i].outcome(before, ctx, res, mid) && if res is Continue {
                runs_from(stages, i + 1, ctx, mid, result, name, after)
            } else {
                result == res && stages[i].reports(name) && after == mid
            }
    } else {
        result is Continue && name == ""@ && after == before
    }
}

/// Runs a record through stages in order, stopping at the first stage that
/// does not continue.
pub struct StageExecutor<'a> {
    stages: &'a [Box<dyn PipelineStage>],
}

impl<'a> StageExecutor<'a> {
    pub fn new(stages: &'a [Box<dyn PipelineStage>]) -> (r: StageExecutor<'a>)
        ensures
            r.stages() == stages@,
    {
        StageExecutor { stages }
    }

    pub closed spec fn stages(&self) -> Seq<Box<dyn PipelineStage>> {
        self.stages@
    }

    pub fn execute(&self, record: &mut Record, context: &StageContext) -> (r: StageExecutionResult)
        ensures
            runs_from(self.stages(), 0, *context, *old(record), r.result, r.stage@, *final(record)),
            r.result is Continue ==> r.stage@ == ""@,
            self.stages().len() == 0 ==> r.result is Continue && *final(record) == *old(record),
    {
        proof {
            reveal_strlit("");
        }
        let ghost stages = self.stages@;
        let mut i: usize = 0;
        while i < self.stages.len()
            invariant
                stages == self.stages@,
                i <= stages.len(),
                i == 0 ==> *record == *old(record),
                forall|res: StageResult, nm: Seq<char>, aft: Record|
                    runs_from(stages, i as int, *context, *record, res, nm, aft) ==> runs_from(
                        stages,
                        0,
                        *context,
                        *old(record),
                        res,
                        nm,
                        aft,
                    ),
            decreases self.stages.len() - i,
        {
            let ghost cur = *record;
            let stage = &self.stages[i];
            let outcome = stage.execute(record, context);
            proof {
                assert(stages[i as int].outcome(cur, *context, outcome, *record));
            }
            match outcome {
                StageResult::Continue => {
                    proof {
                        assert forall|res: StageResult, nm: Seq<char>, aft: Record|
                            runs_from(stages, i + 1, *context, *record, res, nm, aft) implies runs_from(
                            stages,
                            i as int,
                            *context,
                            cur,
                            res,
                            nm,
                            aft,
                        ) by {
                            assert(stages[i as int].outcome(cur, *context, StageResult::Continue, *record));
                        }
                    }
                },
                result => {
                    let name = stage.name();
                    proof {
                        assert(runs_from(stages, i as int, *context, cur, result, name@, *record));
                    }
                    return StageExecutionResult { stage: name, result };
                },
            }
            i = i + 1;
        }
        proof {
            assert(runs_from(stages, i as int, *context, *record, StageResult::Continue, ""@, *record));
        }
        StageExecutionResult { stage: "", result: StageResult::Continue }
    }
}

} // verus!
