//! Skipping records that lack a field.
use vstd::prelude::*;

use crate::pipeline::stage::{PipelineStage, StageContext, StageResult};
use crate::record::Record;
use crate::text::owned;

verus! {

pub open spec fn missing_field_reason(field: Seq<char>) -> Seq<char> {
    "Missing required field '"@ + field + "'"@
}

/// Skips the records that lack one field.
pub struct RequiredFieldValidator {
    field: String,
}

impl RequiredFieldValidator {
    pub fn new(field: &str) -> (r: RequiredFieldValidator)
        ensures
            r.field() == field@,
    {
        RequiredFieldValidator { field: owned(field) }
    }

    pub closed spec fn field(&self) -> Seq<char> {
        self.field@
    }
}

impl PipelineStage for RequiredFieldValidator {
    open spec fn reports(&self, name: Seq<char>) -> bool {
        name == "RequiredFieldValidator"@
    }

    open spec fn outcome(&self, before: Record, ctx: StageContext, result: StageResult, after: Record) -> bool {
        &&& after@ == before@
        &&& before@.dom().contains(self.field()) ==> result is Continue
        &&& !before@.dom().contains(self.field()) ==> (result matches StageResult::Skip { reason }
                    && reason@ == missing_field_reason(self.field()))
    }

    fn name(&self) -> (r: &'static str)
        ensures
            r@ == "RequiredFieldValidator"@,
    {
        "RequiredFieldValidator"
    }

    fn execute(&self, record: &mut Record, ctx: &StageContext) -> (r: StageResult)
        ensures
            final(record)@ == old(record)@,
            old(record)@.dom().contains(self.field()) ==> r is Continue,
            !old(record)@.dom().contains(self.field()) ==> (r matches StageResult::Skip { reason }
                && reason@ == missing_field_reason(self.field())),
    {
        if record.get(self.field.as_str()).is_none() {
            let mut reason = owned("Missing required field '");
            reason.append(self.field.as_str());
            reason.append("'");
            return StageResult::Skip { reason };
        }
        StageResult::Continue
    }
}

} // verus!
