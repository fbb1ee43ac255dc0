//! Validating employee records and deriving their seniority.
use vstd::prelude::*;

use crate::pipeline::stage::{PipelineStage, StageContext, StageError, StageResult};
use crate::record::Record;
use crate::text::owned;
use crate::value::Value;

verus! {

/// The seniority of an employee with `years` of experience.
pub open spec fn seniority(years: int) -> Seq<char> {
    if years >= 8 {
        "Senior"@
    } else if years >= 3 {
        "Mid"@
    } else {
        "Junior"@
    }
}

/// The years of experience of a record: its `experience_years` when that is
/// an integer, else 0.
pub open spec fn experience_years(m: Map<Seq<char>, Value>) -> int {
    if m.dom().contains("experience_years"@) {
        match m["experience_years"@] {
            Value::Int64(v) => v as int,
            _ => 0,
        }
    } else {
        0
    }
}

/// The failure of this stage with `message`.
pub open spec fn employee_failure(r: StageResult, message: Seq<char>) -> bool {
    r matches StageResult::Fail { error } && error.stage_name() == "EmployeeValidationStage"@
        && error.message_text() == message
}

/// What the stage does: skip records without an age; fail when the age is
/// not a positive integer or the salary is not a positive integer; and
/// otherwise store the seniority the experience gives.
pub open spec fn employee_outcome(
    before: Map<Seq<char>, Value>,
    after: Map<Seq<char>, Value>,
    r: StageResult,
) -> bool {
    if !before.dom().contains("age"@) {
        r matches StageResult::Skip { reason } && reason@ == "missing age"@ && after == before
    } else if !(before["age"@] is Int64) {
        employee_failure(r, "age must be an integer"@) && after == before
    } else if before["age"@]->Int64_0 <= 0 {
        employee_failure(r, "age must be greater than zero"@) && after == before
    } else if !before.dom().contains("salary"@) || !(before["salary"@] is Int64)
        || before["salary"@]->Int64_0 <= 0 {
        employee_failure(r, "invalid salary"@) && after == before
    } else {
        &&& r is Continue
        &&& after.dom() == before.dom().insert("seniority_level"@)
        &&& after.remove("seniority_level"@) == before.remove("seniority_level"@)
        &&& after["seniority_level"@] matches Value::String(s) && s@ == seniority(
            experience_years(before),
        )
    }
}

/// Checks age and salary of employee records and adds their seniority.
pub struct EmployeeValidationStage;

impl PipelineStage for EmployeeValidationStage {
    open spec fn reports(&self, name: Seq<char>) -> bool {
        name == "EmployeeValidationStage"@
    }

    open spec fn outcome(&self, before: Record, ctx: StageContext, result: StageResult, after: Record) -> bool {
        &&& employee_outcome(before@, after@, result)
    }

    fn name(&self) -> (r: &'static str)
        ensures
            r@ == "EmployeeValidationStage"@,
    {
        "EmployeeValidationStage"
    }

    fn execute(&self, record: &mut Record, ctx: &StageContext) -> (r: StageResult)
        ensures
            employee_outcome(old(record)@, final(record)@, r),
    {
        match self.validate_age(record) {
            StageResult::Continue => {},
            result => return result,
        }
        match self.validate_salary(record) {
            StageResult::Continue => {},
            result => return result,
        }
        self.enrich_experience(record)
    }
}

impl EmployeeValidationStage {
    fn enrich_experience(&self, record: &mut Record) -> (r: StageResult)
        ensures
            r is Continue,
            final(record)@.dom() == old(record)@.dom().insert("seniority_level"@),
            final(record)@.remove("seniority_level"@) == old(record)@.remove("seniority_level"@),
            final(record)@["seniority_level"@] matches Value::String(s) && s@ == seniority(
                experience_years(old(record)@),
            ),
    {
        proof {
            reveal_strlit("experience_years");
            reveal_strlit("seniority_level");
        }
        let years = match record.get("experience_years") {
            Some(Value::Int64(v)) => *v,
            _ => 0,
        };
        let level = if years >= 8 {
            "Senior"
        } else if years >= 3 {
            "Mid"
        } else {
            "Junior"
        };
        let ghost before = record@;
        record.insert("seniority_level", Value::String(owned(level)));
        proof {
            assert(record@.remove("seniority_level"@) =~= before.remove("seniority_level"@));
        }
        StageResult::Continue
    }

    fn validate_age(&self, record: &mut Record) -> (r: StageResult)
        ensures
            final(record)@ == old(record)@,
            !old(record)@.dom().contains("age"@) ==> (r matches StageResult::Skip { reason }
                && reason@ == "missing age"@),
            old(record)@.dom().contains("age"@) && !(old(record)@["age"@] is Int64)
                ==> employee_failure(r, "age must be an integer"@),
            old(record)@.dom().contains("age"@) && old(record)@["age"@] is Int64
                && old(record)@["age"@]->Int64_0 <= 0 ==> employee_failure(
                r,
                "age must be greater than zero"@,
            ),
            old(record)@.dom().contains("age"@) && old(record)@["age"@] is Int64
                && old(record)@["age"@]->Int64_0 > 0 ==> r is Continue,
    {
        proof {
            reveal_strlit("age");
            reveal_strlit("EmployeeValidationStage");
        }
        let age_value = match record.get("age") {
            Some(value) => value,
            None => {
                return StageResult::skip("missing age");
            },
        };
        let age = match age_value.as_i64() {
            Some(age) => age,
            None => {
                return StageResult::Fail {
                    error: StageError::execution("EmployeeValidationStage", "age must be an integer"),
                };
            },
        };
        if age <= 0 {
            return StageResult::Fail {
                error: StageError::execution(
                    "EmployeeValidationStage",
                    "age must be greater than zero",
                ),
            };
        }
        StageResult::Continue
    }

    fn validate_salary(&self, record: &mut Record) -> (r: StageResult)
        ensures
            final(record)@ == old(record)@,
            (old(record)@.dom().contains("salary"@) && old(record)@["salary"@] is Int64
                && old(record)@["salary"@]->Int64_0 > 0) ==> r is Continue,
            !(old(record)@.dom().contains("salary"@) && old(record)@["salary"@] is Int64
                && old(record)@["salary"@]->Int64_0 > 0) ==> employee_failure(r, "invalid salary"@),
    {
        proof {
            reveal_strlit("salary");
            reveal_strlit("EmployeeValidationStage");
        }
        let salary = match record.get("salary") {
            Some(Value::Int64(s)) => *s,
            _ => {
                return StageResult::Fail {
                    error: StageError::execution("EmployeeValidationStage", "invalid salary"),
                };
            },
        };
        if salary <= 0 {
            return StageResult::Fail {
                error: StageError::execution("EmployeeValidationStage", "invalid salary"),
            };
        }
        StageResult::Continue
    }
}

} // verus!
