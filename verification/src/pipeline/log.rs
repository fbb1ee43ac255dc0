//! What a run retains about records that did not succeed.
use vstd::prelude::*;

use super::stage::StageError;

verus! {

#[derive(Debug)]
pub enum PipelineLog {
    Skipped { record_index: usize, stage: &'static str, reason: String },
    StageFailed { record_index: usize, error: StageError },
    SinkFailed { record_index: usize, message: String },
}

impl PipelineLog {
    /// The position in the source of the record the log is about.
    pub open spec fn index(&self) -> usize {
        match self {
            PipelineLog::Skipped { record_index, .. } => *record_index,
            PipelineLog::StageFailed { record_index, .. } => *record_index,
            PipelineLog::SinkFailed { record_index, .. } => *record_index,
        }
    }
}

impl Clone for PipelineLog {
    fn clone(&self) -> (r: PipelineLog)
        ensures
            r == *self,
    {
        match self {
            PipelineLog::Skipped { record_index, stage, reason } => PipelineLog::Skipped {
                record_index: *record_index,
                stage: *stage,
                reason: reason.clone(),
            },
            PipelineLog::StageFailed { record_index, error } => PipelineLog::StageFailed {
                record_index: *record_index,
                error: error.clone(),
            },
            PipelineLog::SinkFailed { record_index, message } => PipelineLog::SinkFailed {
                record_index: *record_index,
                message: message.clone(),
            },
        }
    }
}

} // verus!
