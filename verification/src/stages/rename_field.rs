//! Renaming a field of records.
use vstd::prelude::*;

use crate::pipeline::stage::{PipelineStage, StageContext, StageResult};
use crate::record::Record;
use crate::text::owned;
use crate::value::Value;

verus! {

/// The record after moving the value of field `from` to field `to`; a record
/// without `from` is left as it is.
pub open spec fn renamed(
    record: Map<Seq<char>, Value>,
    from: Seq<char>,
    to: Seq<char>,
) -> Map<Seq<char>, Value> {
    if record.dom().contains(from) {
        record.remove(from).insert(to, record[from])
    } else {
        record
    }
}

/// Renames one field of every record, replacing any field with the new name.
pub struct RenameFieldStage {
    from: String,
    to: String,
}

impl RenameFieldStage {
    pub fn new(from: &str, to: &str) -> (r: RenameFieldStage)
        ensures
            r.from() == from@,
            r.to() == to@,
    {
        RenameFieldStage { from: owned(from), to: owned(to) }
    }

    pub closed spec fn from(&self) -> Seq<char> {
        self.from@
    }

    pub closed spec fn to(&self) -> Seq<char> {
        self.to@
    }
}

impl PipelineStage for RenameFieldStage {
    open spec fn reports(&self, name: Seq<char>) -> bool {
        name == "RenameField"@
    }

    open spec fn outcome(&self, before: Record, ctx: StageContext, result: StageResult, after: Record) -> bool {
        &&& result is Continue
        &&& after@ == renamed(before@, self.from(), self.to())
    }

    fn name(&self) -> (r: &'static str)
        ensures
            r@ == "RenameField"@,
    {
        "RenameField"
    }

    fn execute(&self, record: &mut Record, ctx: &StageContext) -> (r: StageResult)
        ensures
            r is Continue,
            final(record)@ == renamed(old(record)@, self.from(), self.to()),
    {
        if let Some(value) = record.remove(self.from.as_str()) {
            record.insert(self.to.as_str(), value);
        }
        proof {
            assert(record@ =~= renamed(old(record)@, self.from(), self.to()));
        }
        StageResult::Continue
    }
}

} // verus!
