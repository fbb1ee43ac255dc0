//! The errors of a pipeline run.
use vstd::prelude::*;

use crate::text::{concat, owned};
use super::stage::{stage_error_text, StageError};

verus! {

/// An error of a pipeline run, with the context it was given.
#[derive(Debug)]
pub struct PipelineError {
    /// The outermost message: the context given last, or the error itself.
    message: String,
    /// Every message, outermost first, joined by `": "`.
    full: String,
}

impl PipelineError {
    pub fn new(message: &str) -> (r: PipelineError)
        ensures
            r.text() == message@,
            r.outer() == message@,
    {
        PipelineError { message: owned(message), full: owned(message) }
    }

    /// The full text of the error, outermost context first.
    pub closed spec fn text(&self) -> Seq<char> {
        self.full@
    }

    /// The outermost message alone.
    pub closed spec fn outer(&self) -> Seq<char> {
        self.message@
    }

    /// The same error, described as happening while doing `context`.
    pub fn context(self, context: &str) -> (r: PipelineError)
        ensures
            r.text() == context@ + ": "@ + self.text(),
            r.outer() == context@,
    {
        let mut full = concat(context, ": ");
        full.append(self.full.as_str());
        PipelineError { message: owned(context), full }
    }

    /// The error a failed stage becomes.
    pub fn from_stage_error(error: &StageError) -> (r: PipelineError)
        ensures
            r.text() == stage_error_text(error.stage_name(), error.message_text()),
            r.outer() == r.text(),
    {
        let text = error.to_string();
        PipelineError { message: text.clone(), full: text }
    }

    /// The full text of the error, outermost context first.
    pub fn to_string(&self) -> (r: String)
        ensures
            r@ == self.text(),
    {
        self.full.clone()
    }

    /// The outermost message alone, as a plain `Display` of the error shows it.
    pub fn message(&self) -> (r: String)
        ensures
            r@ == self.outer(),
    {
        self.message.clone()
    }
}

} // verus!
