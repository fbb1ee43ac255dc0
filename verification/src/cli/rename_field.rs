//! Renaming a field, as the command-line program's own stage.
use vstd::prelude::*;

use crate::pipeline::stage::{PipelineStage, StageContext, StageResult};
use crate::record::Record;
use crate::stages::rename_field::renamed;
use crate::text::owned;

verus! {

/// Moves the value of one field to another name.
pub struct RenameField {
    from: String,
    to: String,
}

impl RenameField {
    pub fn new(from: &str, to: &str) -> (r: RenameField)
        ensures
            r.from() == from@,
            r.to() == to@,
    {
        RenameField { from: owned(from), to: owned(to) }
    }

    pub closed spec fn from(&self) -> Seq<char> {
        self.from@
    }

    pub closed spec fn to(&self) -> Seq<char> {
        self.to@
    }
}

impl PipelineStage for RenameField {
    open spec fn reports(&self, name: Seq<char>) -> bool {
        name == "RenameField"@
    }

    open spec fn outcome(&self, before: Record, ctx: StageContext, result: StageResult, after: Record) -> bool {
        &&& result is Continue
        &&& after@ == renamed(before@, self.from(), self.to())
    }

    fn name(&self) -> (r: &'static str)
        ensures
            r@ == "RenameField"@,
    {
        "RenameField"
    }

    fn execute(&self, record: &mut Record, ctx: &StageContext) -> (r: StageResult)
        ensures
            r is Continue,
            final(record)@ == renamed(old(record)@, self.from(), self.to()),
    {
        if let Some(value) = record.remove(self.from.as_str()) {
            record.insert(self.to.as_str(), value);
        }
        proof {
            assert(record@ =~= renamed(old(record)@, self.from(), self.to()));
        }
        StageResult::Continue
    }
}

} // verus!
