use vstd::prelude::*;

use super::log::PipelineLog;
use super::summary::PipelineSummary;

verus! {

/// What a successful run returns.
#[derive(Debug)]
pub struct PipelineRunResult {
    pub summary: PipelineSummary,
    pub logs: Vec<PipelineLog>,
}

} // verus!
