//! Deriving seniority from the experience level of records.
use vstd::prelude::*;

use crate::parse::{parse_i32, spec_parse_i32};
use crate::pipeline::stage::{PipelineStage, StageContext, StageResult};
use crate::record::Record;
use crate::text::owned;
use crate::value::{is_text_of, Value};
use super::employee_validation::seniority;

verus! {

/// The years a record's `experience_level` gives when written as `text`:
/// the `i32` the text holds, or 0.
pub open spec fn years_of_text(text: Seq<char>) -> int {
    match spec_parse_i32(text) {
        Ok(n) => n,
        Err(_) => 0,
    }
}

/// Stores in `seniority_level` the seniority that the experience level
/// gives; `float_text` writes floats as text.
pub struct ExperienceEnrichment<T: Fn(u64) -> String> {
    float_text: T,
}

impl<T: Fn(u64) -> String> ExperienceEnrichment<T> {
    #[verifier::type_invariant]
    spec fn callable(&self) -> bool {
        forall|b: u64| self.float_text.requires((b,))
    }

    pub fn new(float_text: T) -> (r: ExperienceEnrichment<T>)
        requires
            forall|b: u64| float_text.requires((b,)),
        ensures
            r.float_writer() == float_text,
    {
        ExperienceEnrichment { float_text }
    }

    pub closed spec fn float_writer(&self) -> T {
        self.float_text
    }
}

impl<T: Fn(u64) -> String> PipelineStage for ExperienceEnrichment<T> {
    open spec fn reports(&self, name: Seq<char>) -> bool {
        name == "ExperienceEnrichment"@
    }

    open spec fn outcome(&self, before: Record, ctx: StageContext, result: StageResult, after: Record) -> bool {
        &&& result is Continue
        &&& after@.dom() == before@.dom().insert("seniority_level"@)
        &&& after@.remove("seniority_level"@) == before@.remove("seniority_level"@)
        &&& after@["seniority_level"@] matches Value::String(s) && ({
                    let m = before@;
                    if m.dom().contains("experience_level"@) {
                        exists|t: String|
                            is_text_of(m["experience_level"@], t, self.float_writer()) && s@
                                == seniority(#[trigger] years_of_text(t@))
                    } else {
                        s@ == seniority(0)
                    }
                })
    }

    fn name(&self) -> (r: &'static str)
        ensures
            r@ == "ExperienceEnrichment"@,
    {
        "ExperienceEnrichment"
    }

    /// The experience level, written as text, is read as years; anything
    /// that is not an `i32` counts as 0.
    fn execute(&self, record: &mut Record, ctx: &StageContext) -> (r: StageResult)
        ensures
            r is Continue,
            final(record)@.dom() == old(record)@.dom().insert("seniority_level"@),
            final(record)@.remove("seniority_level"@) == old(record)@.remove("seniority_level"@),
            final(record)@["seniority_level"@] matches Value::String(s) && ({
                let m = old(record)@;
                if m.dom().contains("experience_level"@) {
                    exists|t: String|
                        is_text_of(m["experience_level"@], t, self.float_writer()) && s@
                            == seniority(#[trigger] years_of_text(t@))
                } else {
                    s@ == seniority(0)
                }
            }),
    {
        proof {
            use_type_invariant(self);
            reveal_strlit("experience_level");
            reveal_strlit("seniority_level");
        }
        let ghost before = record@;
        let text: Option<String> = match record.get("experience_level") {
            Some(v) => Some(v.to_text(&self.float_text)),
            None => None,
        };
        let years: i32 = match &text {
            Some(t) => match parse_i32(t.as_str()) {
                Ok(n) => n,
                Err(_) => 0,
            },
            None => 0,
        };
        let level = if years >= 8 {
            "Senior"
        } else if years >= 3 {
            "Mid"
        } else {
            "Junior"
        };
        record.insert("seniority_level", Value::String(owned(level)));
        proof {
            assert(record@.remove("seniority_level"@) =~= before.remove("seniority_level"@));
            if let Some(t) = text {
                assert(years == years_of_text(t@));
                assert(is_text_of(before["experience_level"@], t, self.float_writer()));
            }
        }
        StageResult::Continue
    }
}

} // verus!
