//! Checking and converting the `age` field.
use vstd::prelude::*;

use crate::parse::{parse_i64, spec_parse_i64};
use crate::pipeline::stage::{PipelineStage, StageContext, StageError, StageResult};
use crate::record::Record;
use crate::value::Value;

verus! {

/// What the age validator does to a record: skip it without an age, fail
/// when the age is not a string holding a positive integer, and otherwise
/// store the age as an integer.
pub open spec fn age_outcome(
    before: Map<Seq<char>, Value>,
    after: Map<Seq<char>, Value>,
    r: StageResult,
) -> bool {
    let age = "age"@;
    if !before.dom().contains(age) {
        r matches StageResult::Skip { reason } && reason@ == "missing age"@ && after == before
    } else {
        match before[age] {
            Value::String(s) => match spec_parse_i64(s@) {
                Ok(n) => if n <= 0 {
                    r matches StageResult::Fail { error } && error.stage_name() == "AgeValidator"@
                        && error.message_text() == "age must be greater than zero"@ && after
                        == before
                } else {
                    r is Continue && after == before.insert(age, Value::Int64(n as i64))
                },
                Err(_) => r matches StageResult::Fail { error } && error.stage_name()
                    == "AgeValidator"@ && error.message_text() == "age is not a valid integer"@
                    && after == before,
            },
            _ => r matches StageResult::Fail { error } && error.stage_name() == "AgeValidator"@
                && error.message_text() == "age must be a string"@ && after == before,
        }
    }
}

/// Requires a positive integer age, given as a string, and stores it as an
/// integer.
pub struct AgeValidator;

impl AgeValidator {
    pub fn new() -> (r: AgeValidator) {
        AgeValidator
    }
}

impl PipelineStage for AgeValidator {
    open spec fn reports(&self, name: Seq<char>) -> bool {
        name == "AgeValidator"@
    }

    open spec fn outcome(&self, before: Record, ctx: StageContext, result: StageResult, after: Record) -> bool {
        &&& age_outcome(before@, after@, result)
    }

    fn name(&self) -> (r: &'static str)
        ensures
            r@ == "AgeValidator"@,
    {
        "AgeValidator"
    }

    fn execute(&self, record: &mut Record, ctx: &StageContext) -> (r: StageResult)
        ensures
            age_outcome(old(record)@, final(record)@, r),
    {
        proof {
            reveal_strlit("age");
            reveal_strlit("AgeValidator");
        }
        let age = match record.get("age") {
            Some(value) => match value.as_string() {
                Some(text) => match parse_i64(text) {
                    Ok(age) => age,
                    Err(_) => {
                        return StageResult::Fail {
                            error: StageError::execution("AgeValidator", "age is not a valid integer"),
                        };
                    },
                },
                None => {
                    return StageResult::Fail {
                        error: StageError::execution("AgeValidator", "age must be a string"),
                    };
                },
            },
            None => {
                return StageResult::skip("missing age");
            },
        };
        if age <= 0 {
            return StageResult::Fail {
                error: StageError::execution("AgeValidator", "age must be greater than zero"),
            };
        }
        record.insert("age", Value::Int64(age));
        StageResult::Continue
    }
}

} // verus!
