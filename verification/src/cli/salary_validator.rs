//! Checking and converting the `salary` field.
use vstd::prelude::*;

use crate::parse::{parse_i64, spec_parse_i64};
use crate::pipeline::stage::{PipelineStage, StageContext, StageError, StageResult};
use crate::record::Record;
use crate::value::{is_text_of, Value};

verus! {

/// What the salary validator does once the salary was written as `text`:
/// store it as an integer when the text holds a positive integer, and fail
/// otherwise.
pub open spec fn salary_outcome(
    before: Map<Seq<char>, Value>,
    text: Seq<char>,
    after: Map<Seq<char>, Value>,
    r: StageResult,
) -> bool {
    match spec_parse_i64(text) {
        Ok(n) if n > 0 => r is Continue && after == before.insert("salary"@, Value::Int64(n as i64)),
        _ => r matches StageResult::Fail { error } && error.stage_name() == "SalaryValidator"@
            && error.message_text() == "invalid salary"@ && after == before,
    }
}

/// Requires a salary whose text is a positive integer and stores it as an
/// integer; `float_text` writes floats as text.
pub struct SalaryValidator<T: Fn(u64) -> String> {
    float_text: T,
}

impl<T: Fn(u64) -> String> SalaryValidator<T> {
    #[verifier::type_invariant]
    spec fn callable(&self) -> bool {
        forall|b: u64| self.float_text.requires((b,))
    }

    pub fn new(float_text: T) -> (r: SalaryValidator<T>)
        requires
            forall|b: u64| float_text.requires((b,)),
        ensures
            r.float_writer() == float_text,
    {
        SalaryValidator { float_text }
    }

    pub closed spec fn float_writer(&self) -> T {
        self.float_text
    }
}

impl<T: Fn(u64) -> String> PipelineStage for SalaryValidator<T> {
    open spec fn reports(&self, name: Seq<char>) -> bool {
        name == "SalaryValidator"@
    }

    open spec fn outcome(&self, before: Record, ctx: StageContext, result: StageResult, after: Record) -> bool {
        &&& !before@.dom().contains("salary"@) ==> (result matches StageResult::Skip { reason }
                    && reason@ == "missing salary"@ && after@ == before@)
        &&& before@.dom().contains("salary"@) ==> exists|t: String|
                    is_text_of(before@["salary"@], t, self.float_writer()) && #[trigger] salary_outcome(
                        before@,
                        t@,
                        after@,
                        result,
                    )
    }

    fn name(&self) -> (r: &'static str)
        ensures
            r@ == "SalaryValidator"@,
    {
        "SalaryValidator"
    }

    fn execute(&self, record: &mut Record, ctx: &StageContext) -> (r: StageResult)
        ensures
            !old(record)@.dom().contains("salary"@) ==> (r matches StageResult::Skip { reason }
                && reason@ == "missing salary"@ && final(record)@ == old(record)@),
            old(record)@.dom().contains("salary"@) ==> exists|t: String|
                is_text_of(old(record)@["salary"@], t, self.float_writer()) && #[trigger] salary_outcome(
                    old(record)@,
                    t@,
                    final(record)@,
                    r,
                ),
    {
        proof {
            use_type_invariant(self);
            reveal_strlit("salary");
            reveal_strlit("SalaryValidator");
        }
        let text = match record.get("salary") {
            Some(v) => v.to_text(&self.float_text),
            None => {
                return StageResult::skip("missing salary");
            },
        };
        let ghost before = record@;
        match parse_i64(text.as_str()) {
            Ok(salary) => {
                if salary > 0 {
                    record.insert("salary", Value::Int64(salary));
                    proof {
                        assert(salary_outcome(before, text@, record@, StageResult::Continue));
                    }
                    return StageResult::Continue;
                }
            },
            Err(_) => {},
        }
        let r = StageResult::Fail { error: StageError::execution("SalaryValidator", "invalid salary") };
        proof {
            assert(salary_outcome(before, text@, record@, r));
        }
        r
    }
}

} // verus!
