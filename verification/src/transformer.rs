//! Turning one record into another.
use vstd::prelude::*;

use crate::pipeline::error::PipelineError;
use crate::record::Record;

verus! {

/// Something that turns a record into a new record, or refuses it.
pub trait Transformer {
    fn transform(&self, record: Record) -> Result<Record, PipelineError>;
}

} // verus!
