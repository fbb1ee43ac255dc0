//! How a pipeline run treats failures and logs.
use vstd::prelude::*;

verus! {

/// Policy for stage and sink-write failures. Source and finish errors always
/// fail the run.
#[derive(Debug, Clone, Copy, PartialEq, Eq, Structural)]
pub enum ErrorPolicy {
    /// Keep processing; callers must inspect `summary.failed`.
    Continue,
    /// Return the first record failure after finishing the sink.
    StopOnError,
}

impl Default for ErrorPolicy {
    fn default() -> (r: ErrorPolicy)
        ensures
            r == ErrorPolicy::Continue,
    {
        ErrorPolicy::Continue
    }
}

/// Options of a pipeline run.
#[derive(Debug, Clone, Copy)]
pub struct PipelineOptions {
    pub collect_logs: bool,
    pub error_policy: ErrorPolicy,
    /// Maximum retained logs; `None` explicitly enables unlimited retention.
    pub log_limit: Option<usize>,
}

/// The default options: logs collected, at most 1000 of them, failures counted.
pub open spec fn default_options() -> PipelineOptions {
    PipelineOptions {
        collect_logs: true,
        error_policy: ErrorPolicy::Continue,
        log_limit: Some(1000),
    }
}

impl Default for PipelineOptions {
    fn default() -> (r: PipelineOptions)
        ensures
            r == default_options(),
    {
        PipelineOptions { collect_logs: true, error_policy: ErrorPolicy::Continue, log_limit: Some(1_000) }
    }
}

/// A log may be kept when `count` logs are kept already.
pub open spec fn spec_should_log(options: PipelineOptions, count: nat) -> bool {
    options.collect_logs && match options.log_limit {
        None => true,
        Some(limit) => count < limit,
    }
}

impl PipelineOptions {
    pub fn new() -> (r: PipelineOptions)
        ensures
            r == default_options(),
    {
        PipelineOptions::default()
    }

    pub fn with_logs() -> (r: PipelineOptions)
        ensures
            r == default_options(),
    {
        PipelineOptions::default()
    }

    pub fn without_logs() -> (r: PipelineOptions)
        ensures
            r == (PipelineOptions { collect_logs: false, ..default_options() }),
    {
        PipelineOptions { collect_logs: false, ..PipelineOptions::default() }
    }

    pub fn with_error_policy(self, policy: ErrorPolicy) -> (r: PipelineOptions)
        ensures
            r == (PipelineOptions { error_policy: policy, ..self }),
    {
        let mut options = self;
        options.error_policy = policy;
        options
    }

    pub fn with_log_limit(self, limit: Option<usize>) -> (r: PipelineOptions)
        ensures
            r == (PipelineOptions { log_limit: limit, ..self }),
    {
        let mut options = self;
        options.log_limit = limit;
        options
    }

    pub fn collect_logs(&self) -> (r: bool)
        ensures
            r == self.collect_logs,
    {
        self.collect_logs
    }

    /// Whether one more log is kept when `count` are kept already.
    pub fn should_log(&self, count: usize) -> (r: bool)
        ensures
            r == spec_should_log(*self, count as nat),
    {
        self.collect_logs && match self.log_limit {
            None => true,
            Some(limit) => count < limit,
        }
    }
}

} // verus!
