//! Keeping the records for which an expression holds.
use vstd::prelude::*;

use crate::pipeline::stage::{PipelineStage, StageContext, StageError, StageResult};
use crate::record::Record;
use crate::text::owned;
use crate::value::{is_text_of, Value};

verus! {

/// The reason a filter gives for skipping a record when it was given none.
pub open spec fn default_skip_reason() -> Seq<char> {
    "Record did not satisfy filter"@
}

/// The message of a filter whose expression gave a value that is no boolean,
/// written as `text`.
pub open spec fn not_boolean_message(text: Seq<char>) -> Seq<char> {
    "Filter expression returned '"@ + text + "', expected Boolean"@
}

/// What a filter decides from the result of its expression: continue on
/// `true`, skip on `false`, fail on any other value or an evaluation error.
pub open spec fn filter_decision<T: Fn(u64) -> String>(
    reason: Option<Seq<char>>,
    evaluated: Result<Value, String>,
    float_text: T,
    r: StageResult,
) -> bool {
    match evaluated {
        Ok(Value::Boolean(true)) => r is Continue,
        Ok(Value::Boolean(false)) => r matches StageResult::Skip { reason: s } && s@ == match reason {
            Some(given) => given,
            None => default_skip_reason(),
        },
        Ok(v) => r matches StageResult::Fail { error } && error.stage_name() == "Filter"@ && exists|
            t: String,
        | is_text_of(v, t, float_text) && #[trigger] not_boolean_message(t@) == error.message_text(),
        Err(e) => r matches StageResult::Fail { error } && error.stage_name() == "Filter"@
            && error.message_text() == e@,
    }
}

/// Passes on the records for which `evaluate` gives `true` and skips those
/// for which it gives `false`. `evaluate` computes the filter's expression on
/// a record; `float_text` writes floats as text.
pub struct FilterStage<E: Fn(&Record) -> Result<Value, String>, T: Fn(u64) -> String> {
    evaluate: E,
    float_text: T,
    reason: Option<String>,
}

impl<E: Fn(&Record) -> Result<Value, String>, T: Fn(u64) -> String> FilterStage<E, T> {
    #[verifier::type_invariant]
    spec fn callable(&self) -> bool {
        &&& forall|r: &Record| self.evaluate.requires((r,))
        &&& forall|b: u64| self.float_text.requires((b,))
    }

    pub fn new(evaluate: E, float_text: T) -> (r: FilterStage<E, T>)
        requires
            forall|r: &Record| evaluate.requires((r,)),
            forall|b: u64| float_text.requires((b,)),
        ensures
            r.evaluator() == evaluate,
            r.float_writer() == float_text,
            r.reason() is None,
    {
        FilterStage { evaluate, float_text, reason: None }
    }

    pub closed spec fn evaluator(&self) -> E {
        self.evaluate
    }

    pub closed spec fn float_writer(&self) -> T {
        self.float_text
    }

    /// The reason given for skipped records, if one was set.
    pub closed spec fn reason(&self) -> Option<Seq<char>> {
        match self.reason {
            Some(s) => Some(s@),
            None => None,
        }
    }

    pub fn with_reason(self, reason: &str) -> (r: FilterStage<E, T>)
        ensures
            r.evaluator() == self.evaluator(),
            r.float_writer() == self.float_writer(),
            r.reason() == Some(reason@),
    {
        proof {
            use_type_invariant(&self);
        }
        FilterStage { evaluate: self.evaluate, float_text: self.float_text, reason: Some(owned(reason)) }
    }

    fn skip_reason(&self) -> (r: String)
        ensures
            r@ == match self.reason() {
                Some(given) => given,
                None => default_skip_reason(),
            },
    {
        match &self.reason {
            Some(reason) => reason.clone(),
            None => owned("Record did not satisfy filter"),
        }
    }

    /// The decision of the filter once its expression gave `evaluated`.
    pub fn decide(&self, evaluated: Result<Value, String>) -> (r: StageResult)
        ensures
            filter_decision(self.reason(), evaluated, self.float_writer(), r),
    {
        proof {
            use_type_invariant(self);
            reveal_strlit("Filter");
        }
        match evaluated {
            Ok(Value::Boolean(true)) => StageResult::continue_(),
            Ok(Value::Boolean(false)) => StageResult::Skip { reason: self.skip_reason() },
            Ok(value) => {
                let text = value.to_text(&self.float_text);
                let mut message = owned("Filter expression returned '");
                message.append(text.as_str());
                message.append("', expected Boolean");
                proof {
                    assert(message@ == not_boolean_message(text@));
                }
                StageResult::fail(StageError::execution("Filter", message.as_str()))
            },
            Err(error) => StageResult::fail(StageError::execution("Filter", error.as_str())),
        }
    }
}

impl<E: Fn(&Record) -> Result<Value, String>, T: Fn(u64) -> String> PipelineStage for FilterStage<
    E,
    T,
> {
    open spec fn reports(&self, name: Seq<char>) -> bool {
        name == "Filter"@
    }

    open spec fn outcome(&self, before: Record, ctx: StageContext, result: StageResult, after: Record) -> bool {
        &&& after@ == before@
        &&& exists|evaluated: Result<Value, String>|
                    self.evaluator().ensures((&before,), evaluated) && filter_decision(
                        self.reason(),
                        evaluated,
                        self.float_writer(),
                        result,
                    )
    }

    fn name(&self) -> (r: &'static str)
        ensures
            r@ == "Filter"@,
    {
        "Filter"
    }

    fn execute(&self, record: &mut Record, ctx: &StageContext) -> (r: StageResult)
        ensures
            final(record)@ == old(record)@,
            exists|evaluated: Result<Value, String>|
                self.evaluator().ensures((&*old(record),), evaluated) && filter_decision(
                    self.reason(),
                    evaluated,
                    self.float_writer(),
                    r,
                ),
    {
        proof {
            use_type_invariant(self);
        }
        let evaluated = (self.evaluate)(record);
        self.decide(evaluated)
    }
}

} // verus!
