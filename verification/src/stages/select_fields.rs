//! Keeping only some fields of records.
use vstd::prelude::*;

use crate::pipeline::stage::{PipelineStage, StageContext, StageResult};
use crate::record::{name_set, Record};
use super::remove_field::{owned_names, str_set};

verus! {

/// Keeps the named fields of every record and drops the others.
pub struct SelectFieldsStage {
    fields: Vec<String>,
}

impl SelectFieldsStage {
    pub fn new(fields: &[&str]) -> (r: SelectFieldsStage)
        ensures
            r.names() == str_set(fields@),
    {
        let owned = owned_names(fields);
        let r = Self { fields: owned };
        proof {
            assert forall|k: Seq<char>| r.names().contains(k) <==> str_set(fields@).contains(k) by {
                if r.names().contains(k) {
                    let i = choose|i: int| 0 <= i < r.fields@.len() && #[trigger] r.fields@[i]@ == k;
                    assert(fields@[i]@ == k);
                }
                if str_set(fields@).contains(k) {
                    let i = choose|i: int| 0 <= i < fields@.len() && #[trigger] fields@[i]@ == k;
                    assert(r.fields@[i]@ == k);
                }
            }
            assert(r.names() =~= str_set(fields@));
        }
        r
    }

    /// The names of the fields the stage keeps.
    pub closed spec fn names(&self) -> Set<Seq<char>> {
        name_set(self.fields@)
    }
}

impl PipelineStage for SelectFieldsStage {
    open spec fn reports(&self, name: Seq<char>) -> bool {
        name == "SelectFields"@
    }

    open spec fn outcome(&self, before: Record, ctx: StageContext, result: StageResult, after: Record) -> bool {
        &&& result is Continue
        &&& after@ == before@.restrict(self.names())
    }

    fn name(&self) -> (r: &'static str)
        ensures
            r@ == "SelectFields"@,
    {
        "SelectFields"
    }

    fn execute(&self, record: &mut Record, ctx: &StageContext) -> (r: StageResult)
        ensures
            r is Continue,
            final(record)@ == old(record)@.restrict(self.names()),
    {
        record.retain_names(&self.fields);
        StageResult::Continue
    }
}

} // verus!
