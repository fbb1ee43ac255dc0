//! Setting a field of records to the value of an expression.
use vstd::prelude::*;

use crate::pipeline::stage::{PipelineStage, StageContext, StageError, StageResult};
use crate::record::Record;
use crate::text::owned;
use crate::value::Value;

verus! {

/// What setting field `field` does once the expression gave `evaluated`:
/// store the value and continue, or fail with the evaluation error.
pub open spec fn set_field_outcome(
    field: Seq<char>,
    before: Map<Seq<char>, Value>,
    evaluated: Result<Value, String>,
    after: Map<Seq<char>, Value>,
    r: StageResult,
) -> bool {
    match evaluated {
        Ok(v) => r is Continue && after == before.insert(field, v),
        Err(e) => r matches StageResult::Fail { error } && error.stage_name() == "SetField"@
            && error.message_text() == e@ && after == before,
    }
}

/// Sets one field of every record to what `evaluate` computes on it.
pub struct SetFieldStage<E: Fn(&Record) -> Result<Value, String>> {
    field: String,
    evaluate: E,
}

impl<E: Fn(&Record) -> Result<Value, String>> SetFieldStage<E> {
    #[verifier::type_invariant]
    spec fn callable(&self) -> bool {
        forall|r: &Record| self.evaluate.requires((r,))
    }

    pub fn new(field: &str, evaluate: E) -> (r: SetFieldStage<E>)
        requires
            forall|r: &Record| evaluate.requires((r,)),
        ensures
            r.field() == field@,
            r.evaluator() == evaluate,
    {
        SetFieldStage { field: owned(field), evaluate }
    }

    pub closed spec fn field(&self) -> Seq<char> {
        self.field@
    }

    pub closed spec fn evaluator(&self) -> E {
        self.evaluate
    }

    /// Stores `evaluated` in the record, or fails with its error.
    pub fn apply(&self, record: &mut Record, evaluated: Result<Value, String>) -> (r: StageResult)
        ensures
            set_field_outcome(self.field(), old(record)@, evaluated, final(record)@, r),
    {
        proof {
            reveal_strlit("SetField");
        }
        match evaluated {
            Ok(value) => {
                record.insert(self.field.as_str(), value);
                StageResult::continue_()
            },
            Err(error) => StageResult::fail(StageError::execution("SetField", error.as_str())),
        }
    }
}

impl<E: Fn(&Record) -> Result<Value, String>> PipelineStage for SetFieldStage<E> {
    open spec fn reports(&self, name: Seq<char>) -> bool {
        name == "SetField"@
    }

    open spec fn outcome(&self, before: Record, ctx: StageContext, result: StageResult, after: Record) -> bool {
        &&& exists|evaluated: Result<Value, String>|
                    self.evaluator().ensures((&before,), evaluated) && set_field_outcome(
                        self.field(),
                        before@,
                        evaluated,
                        after@,
                        result,
                    )
    }

    fn name(&self) -> (r: &'static str)
        ensures
            r@ == "SetField"@,
    {
        "SetField"
    }

    fn execute(&self, record: &mut Record, ctx: &StageContext) -> (r: StageResult)
        ensures
            exists|evaluated: Result<Value, String>|
                self.evaluator().ensures((&*old(record),), evaluated) && set_field_outcome(
                    self.field(),
                    old(record)@,
                    evaluated,
                    final(record)@,
                    r,
                ),
    {
        proof {
            use_type_invariant(self);
        }
        let evaluated = (self.evaluate)(record);
        self.apply(record, evaluated)
    }
}

} // verus!
