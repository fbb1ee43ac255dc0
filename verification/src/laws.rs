//! Properties that hold across the operations of the library.
use vstd::prelude::*;

use crate::parse::{
    int_text, is_float_text, lemma_int_text_is_float_text, lemma_int_text_parses, spec_parse_i64,
    IntErrorKind,
};
use crate::infer::{
    all_names, inferred_from, inferred_nullable, lemma_inferred_unique, lemma_names_permutation,
    lemma_tally_concat, lemma_tally_permutation, majority_type, tally,
};
use crate::schema::{same_field, Field};
use crate::stages::rename_field::renamed;
use crate::validation::{coerce_outcome, empty_outcome, field_step, fields_pass};
use crate::value::{values_equal, DataType, Value};
use crate::pipeline::error::PipelineError;
use crate::pipeline::options::{spec_should_log, ErrorPolicy, PipelineOptions};
use crate::pipeline::log::PipelineLog;
use crate::pipeline::pipeline::expected_log_count;
use crate::pipeline::run_result::PipelineRunResult;
use crate::pipeline::stage::PipelineStage;
use crate::pipeline::trace::{
    count_failed, count_skipped, failed, kept_logs, logs_fit, none_failed, read_outcome, records_outcome,
    skipped, succeeded, RecordTrace,
};
use crate::record::Record;
use crate::sink::Sink;
use crate::infer::{classify, field_names, ValueKind};
use crate::stages::filter::filter_decision;
use crate::stages::set_field::set_field_outcome;
use crate::pipeline::stage::StageResult;
use crate::value::is_text_of;

verus! {

/// Reading a field after writing it gives the value written, and writing a
/// field leaves every other field as it was.
pub proof fn law_read_after_write(
    record: Map<Seq<char>, Value>,
    key: Seq<char>,
    value: Value,
    other: Seq<char>,
)
    ensures
        record.insert(key, value).dom().contains(key),
        record.insert(key, value)[key] == value,
        other != key ==> (record.insert(key, value).dom().contains(other) == record.dom().contains(
            other,
        ) && (record.dom().contains(other) ==> record.insert(key, value)[other] == record[other])),
{
}

/// After a field is removed, reading it finds nothing, and removing it again
/// changes nothing.
pub proof fn law_remove_is_final(record: Map<Seq<char>, Value>, key: Seq<char>)
    ensures
        !record.remove(key).dom().contains(key),
        record.remove(key).remove(key) == record.remove(key),
{
    assert(record.remove(key).remove(key) =~= record.remove(key));
}

/// Renaming a field and renaming it back gives the record back, when the new
/// name was free.
pub proof fn law_rename_round_trip(record: Map<Seq<char>, Value>, from: Seq<char>, to: Seq<char>)
    requires
        record.dom().contains(from),
        !record.dom().contains(to),
    ensures
        renamed(renamed(record, from, to), to, from) == record,
{
    let once = renamed(record, from, to);
    assert(once.dom().contains(to));
    assert(renamed(once, to, from) =~= record);
}

/// Renaming moves the value: the new name holds it and the old name is gone.
pub proof fn law_rename_moves_value(record: Map<Seq<char>, Value>, from: Seq<char>, to: Seq<char>)
    requires
        record.dom().contains(from),
        from != to,
    ensures
        renamed(record, from, to).dom().contains(to),
        renamed(record, from, to)[to] == record[from],
        !renamed(record, from, to).dom().contains(from),
{
}

/// Selecting the same fields twice is the same as selecting them once.
pub proof fn law_select_idempotent(record: Map<Seq<char>, Value>, names: Set<Seq<char>>)
    ensures
        record.restrict(names).restrict(names) == record.restrict(names),
{
    assert(record.restrict(names).restrict(names) =~= record.restrict(names));
}

/// Removing the same fields twice is the same as removing them once.
pub proof fn law_remove_idempotent(record: Map<Seq<char>, Value>, names: Set<Seq<char>>)
    ensures
        record.remove_keys(names).remove_keys(names) == record.remove_keys(names),
{
    assert(record.remove_keys(names).remove_keys(names) =~= record.remove_keys(names));
}

/// Selecting some fields and removing the same fields split a record in two:
/// no field is in both parts, and together they are the record.
pub proof fn law_select_and_remove_split(record: Map<Seq<char>, Value>, names: Set<Seq<char>>)
    ensures
        record.restrict(names).dom().disjoint(record.remove_keys(names).dom()),
        record.restrict(names).union_prefer_right(record.remove_keys(names)) == record,
{
    assert(record.restrict(names).union_prefer_right(record.remove_keys(names)) =~= record);
}

/// `v` is a value a field of type `t` may hold after validation: a value of
/// the type, or null where the field may be null; a string field that may
/// not be null holds a non-empty string.
pub open spec fn conforms(v: Value, t: DataType, nullable: bool) -> bool {
    match t {
        DataType::Null => v is Null,
        DataType::Int64 => v is Int64 || (nullable && v is Null),
        DataType::Float64 => v is Float64 || (nullable && v is Null),
        DataType::Boolean => v is Boolean || (nullable && v is Null),
        DataType::String => (v matches Value::String(s) && (nullable || s@.len() > 0)) || (nullable
            && v is Null),
    }
}

/// No two fields share a name.
pub open spec fn distinct_field_names(fields: Seq<Field>) -> bool {
    forall|i: int, j: int|
        0 <= i < fields.len() && 0 <= j < fields.len() && i != j ==> #[trigger] fields[i].spec_name()
            != #[trigger] fields[j].spec_name()
}

pub open spec fn schema_names(fields: Seq<Field>) -> Set<Seq<char>> {
    Set::new(
        |k: Seq<char>| exists|i: int| 0 <= i < fields.len() && #[trigger] fields[i].spec_name() == k,
    )
}

/// A successful coercion gives a value that conforms to the type.
proof fn lemma_coerced_conforms<P: Fn(&str) -> u64, I: Fn(i64) -> u64, T: Fn(u64) -> String>(
    v: Value,
    t: DataType,
    nullable: bool,
    key: Seq<char>,
    parse_float: P,
    int_to_float: I,
    float_text: T,
    c: Value,
)
    requires
        coerce_outcome(v, t, nullable, key, parse_float, int_to_float, float_text, Ok(c)),
    ensures
        conforms(c, t, nullable),
{
    match t {
        DataType::String => {
            let text = choose|text: String|
                {
                    &&& match v {
                        Value::String(s) => text@ == s@,
                        _ => crate::value::is_text_of(v, text, float_text),
                    }
                    &&& if text@.len() == 0 && !nullable {
                        Ok::<Value, Seq<char>>(c) == Err::<Value, Seq<char>>(
                            crate::validation::not_nullable_text(key),
                        )
                    } else {
                        Ok::<Value, Seq<char>>(c) matches Ok(Value::String(x)) && x@
                            == #[trigger] text@
                    }
                };
        },
        DataType::Float64 => {
            match v {
                Value::Int64(x) => {
                    let b = choose|b: u64|
                        #[trigger] int_to_float.ensures((x,), b) && Ok::<Value, Seq<char>>(c)
                            == Ok::<Value, Seq<char>>(Value::Float64(b));
                },
                Value::String(s) => {
                    if s@.len() != 0 && crate::parse::is_float_text(s@) {
                        let (b, t) = choose|b: u64, t: &str|
                            t@ == s@ && #[trigger] parse_float.ensures((t,), b) && Ok::<
                                Value,
                                Seq<char>,
                            >(c) == Ok::<Value, Seq<char>>(Value::Float64(b));
                    }
                },
                _ => {},
            }
        },
        _ => {},
    }
}

/// After a record passes schema validation against fields with distinct
/// names, it has every schema field, each holding a value of the field's
/// type or null where allowed, and every other field is as it was.
pub proof fn law_validated_record_conforms<P: Fn(&str) -> u64, I: Fn(i64) -> u64, T: Fn(u64) -> String>(
    fields: Seq<Field>,
    parse_float: P,
    int_to_float: I,
    float_text: T,
    before: Map<Seq<char>, Value>,
    after: Map<Seq<char>, Value>,
)
    requires
        distinct_field_names(fields),
        fields_pass(fields, parse_float, int_to_float, float_text, before, after),
    ensures
        forall|i: int|
            0 <= i < fields.len() ==> after.dom().contains(#[trigger] fields[i].spec_name())
                && conforms(
                after[fields[i].spec_name()],
                fields[i].spec_data_type(),
                fields[i].spec_nullable(),
            ),
        after.remove_keys(schema_names(fields)) == before.remove_keys(schema_names(fields)),
    decreases fields.len(),
{
    if fields.len() == 0 {
        assert(after.remove_keys(schema_names(fields)) =~= before.remove_keys(schema_names(fields)));
    } else {
        let rest = fields.drop_last();
        let last = fields.last();
        let key = last.spec_name();
        let mid = choose|mid: Map<Seq<char>, Value>|
            fields_pass(rest, parse_float, int_to_float, float_text, before, mid) && #[trigger] field_step(
                last,
                parse_float,
                int_to_float,
                float_text,
                mid,
                after,
                None,
            );
        assert(distinct_field_names(rest)) by {
            assert forall|i: int, j: int|
                0 <= i < rest.len() && 0 <= j < rest.len() && i != j implies #[trigger] rest[i].spec_name()
                != #[trigger] rest[j].spec_name() by {
                assert(rest[i] == fields[i] && rest[j] == fields[j]);
            }
        }
        law_validated_record_conforms(rest, parse_float, int_to_float, float_text, before, mid);
        if !mid.dom().contains(key) || mid[key] is Null {
            assert(after == mid.insert(key, Value::Null));
        } else {
            let out = choose|out: Result<Value, Seq<char>>|
                #[trigger] coerce_outcome(
                    mid[key],
                    last.spec_data_type(),
                    last.spec_nullable(),
                    key,
                    parse_float,
                    int_to_float,
                    float_text,
                    out,
                ) && match out {
                    Ok(c) => after == mid.insert(key, c),
                    Err(message) => false,
                };
            let c = out->Ok_0;
            lemma_coerced_conforms(
                mid[key],
                last.spec_data_type(),
                last.spec_nullable(),
                key,
                parse_float,
                int_to_float,
                float_text,
                c,
            );
        }
        assert(after.dom().contains(key));
        assert(conforms(after[key], last.spec_data_type(), last.spec_nullable()));
        assert forall|i: int| 0 <= i < fields.len() implies after.dom().contains(
            #[trigger] fields[i].spec_name(),
        ) && conforms(
            after[fields[i].spec_name()],
            fields[i].spec_data_type(),
            fields[i].spec_nullable(),
        ) by {
            if i < rest.len() {
                assert(rest[i] == fields[i]);
                assert(fields[i].spec_name() != key);
            }
        }
        let names = schema_names(fields);
        let rest_names = schema_names(rest);
        assert(names =~= rest_names.insert(key)) by {
            assert forall|k: Seq<char>| names.contains(k) <==> (rest_names.contains(k) || k == key) by {
                if names.contains(k) {
                    let i = choose|i: int| 0 <= i < fields.len() && #[trigger] fields[i].spec_name() == k;
                    if i < rest.len() {
                        assert(rest[i] == fields[i]);
                    }
                }
                if rest_names.contains(k) {
                    let i = choose|i: int| 0 <= i < rest.len() && #[trigger] rest[i].spec_name() == k;
                    assert(fields[i] == rest[i]);
                }
                if k == key {
                    assert(fields[fields.len() - 1] == last);
                }
            }
        }
        assert(after.remove_keys(names) =~= mid.remove_keys(rest_names).remove(key));
        assert(before.remove_keys(names) =~= before.remove_keys(rest_names).remove(key));
    }
}

/// An integer written as text reads back as the same integer.
pub proof fn law_int_text_round_trip(v: i64)
    ensures
        spec_parse_i64(int_text(v as int)) == Ok::<int, IntErrorKind>(v as int),
        is_float_text(int_text(v as int)),
{
    lemma_int_text_parses(v);
    lemma_int_text_is_float_text(v as int);
}

/// Coercing an integer to a string field, and that string back to an
/// integer field, gives the integer back.
pub proof fn law_int_string_coercion_round_trip<P: Fn(&str) -> u64, I: Fn(i64) -> u64, T: Fn(u64) -> String>(
    x: i64,
    nullable: bool,
    key: Seq<char>,
    parse_float: P,
    int_to_float: I,
    float_text: T,
    as_text: Result<Value, Seq<char>>,
    back: Result<Value, Seq<char>>,
)
    requires
        coerce_outcome(Value::Int64(x), DataType::String, nullable, key, parse_float, int_to_float, float_text, as_text),
        as_text matches Ok(v) && coerce_outcome(v, DataType::Int64, nullable, key, parse_float, int_to_float, float_text, back),
    ensures
        as_text matches Ok(Value::String(s)) && s@ == int_text(x as int),
        back == Ok::<Value, Seq<char>>(Value::Int64(x)),
{
    lemma_int_text_parses(x);
    crate::parse::lemma_nat_text(if x < 0 { (-x) as nat } else { x as nat });
    let text = choose|text: String|
        {
            &&& crate::value::is_text_of(Value::Int64(x), text, float_text)
            &&& if text@.len() == 0 && !nullable {
                as_text == Err::<Value, Seq<char>>(crate::validation::not_nullable_text(key))
            } else {
                as_text matches Ok(Value::String(c)) && c@ == #[trigger] text@
            }
        };
    assert(text@ == int_text(x as int));
    assert(text@.len() > 0);
}

/// `a` and `b` are the same value, strings compared by their text.
pub open spec fn same_value(a: Value, b: Value) -> bool {
    match (a, b) {
        (Value::String(x), Value::String(y)) => x@ == y@,
        _ => a == b,
    }
}

/// Coercing a value that coercion gave, to the same type for the same
/// field, succeeds again and gives the same value: coercion leaves its own
/// non-null results unchanged.
pub proof fn law_coercion_is_stable<P: Fn(&str) -> u64, I: Fn(i64) -> u64, T: Fn(u64) -> String>(
    v: Value,
    t: DataType,
    nullable: bool,
    key: Seq<char>,
    parse_float: P,
    int_to_float: I,
    float_text: T,
    c: Value,
    again: Result<Value, Seq<char>>,
)
    requires
        coerce_outcome(v, t, nullable, key, parse_float, int_to_float, float_text, Ok(c)),
        !(c is Null),
        coerce_outcome(c, t, nullable, key, parse_float, int_to_float, float_text, again),
    ensures
        again matches Ok(d) && same_value(d, c),
{
    lemma_coerced_conforms(v, t, nullable, key, parse_float, int_to_float, float_text, c);
    if t == DataType::String {
        let s = c->String_0;
        let text = choose|text: String|
            {
                &&& text@ == s@
                &&& if text@.len() == 0 && !nullable {
                    again == Err::<Value, Seq<char>>(crate::validation::not_nullable_text(key))
                } else {
                    again matches Ok(Value::String(x)) && x@ == #[trigger] text@
                }
            };
    }
}

/// Inference ignores the order of the sample: samples holding the same
/// records, each as often, describe exactly the same schemas.
pub proof fn law_inference_ignores_order(
    a: Seq<Map<Seq<char>, Value>>,
    b: Seq<Map<Seq<char>, Value>>,
    fields: Seq<Field>,
)
    requires
        a.to_multiset() == b.to_multiset(),
    ensures
        inferred_from(fields, a) <==> inferred_from(fields, b),
{
    broadcast use vstd::seq_lib::group_to_multiset_ensures;

    assert(a.len() == a.to_multiset().len());
    assert(b.len() == b.to_multiset().len());
    lemma_names_permutation(a, b);
    assert forall|k: Seq<char>| tally(a, k) == tally(b, k) by {
        lemma_tally_permutation(a, b, k);
    }
}

/// Inference ignores duplication: a sample read twice over describes
/// exactly the same schemas as the sample once.
pub proof fn law_inference_ignores_duplication(a: Seq<Map<Seq<char>, Value>>, fields: Seq<Field>)
    ensures
        inferred_from(fields, a) <==> inferred_from(fields, a + a),
{
    assert(all_names(a + a) =~= all_names(a)) by {
        assert forall|k: Seq<char>| all_names(a + a).contains(k) implies all_names(a).contains(k) by {
            let i = choose|i: int| 0 <= i < (a + a).len() && #[trigger] (a + a)[i].dom().contains(k);
            if i < a.len() {
                assert((a + a)[i] == a[i]);
            } else {
                assert((a + a)[i] == a[i - a.len()]);
            }
        }
        assert forall|k: Seq<char>| all_names(a).contains(k) implies all_names(a + a).contains(k) by {
            let i = choose|i: int| 0 <= i < a.len() && #[trigger] a[i].dom().contains(k);
            assert((a + a)[i] == a[i]);
        }
    }
    assert forall|k: Seq<char>|
        #[trigger] majority_type(tally(a + a, k)) == majority_type(tally(a, k))
            && inferred_nullable(a + a, k) == inferred_nullable(a, k) by {
        lemma_tally_concat(a, a, k);
    }
}

/// Inference ignores the order of the sample: the schemas inferred from two
/// samples holding the same records, each as often, have the same fields,
/// types and nullability, in the same order.
pub proof fn law_inferred_schema_ignores_order(
    a: Seq<Map<Seq<char>, Value>>,
    b: Seq<Map<Seq<char>, Value>>,
    from_a: Seq<Field>,
    from_b: Seq<Field>,
)
    requires
        a.to_multiset() == b.to_multiset(),
        inferred_from(from_a, a),
        inferred_from(from_b, b),
    ensures
        from_a.len() == from_b.len(),
        forall|i: int| 0 <= i < from_a.len() ==> same_field(#[trigger] from_a[i], from_b[i]),
{
    law_inference_ignores_order(a, b, from_a);
    lemma_inferred_unique(from_a, from_b, b);
}

/// Inference ignores duplication: the schema inferred from a sample read
/// twice over has the same fields, types and nullability, in the same
/// order, as the one inferred from the sample once.
pub proof fn law_inferred_schema_ignores_duplication(
    a: Seq<Map<Seq<char>, Value>>,
    once: Seq<Field>,
    twice: Seq<Field>,
)
    requires
        inferred_from(once, a),
        inferred_from(twice, a + a),
    ensures
        once.len() == twice.len(),
        forall|i: int| 0 <= i < once.len() ==> same_field(#[trigger] once[i], twice[i]),
{
    law_inference_ignores_duplication(a, once);
    lemma_inferred_unique(once, twice, a + a);
}

/// Value equality is symmetric.
pub proof fn law_value_equality_symmetric(a: Value, b: Value)
    ensures
        values_equal(a, b) == values_equal(b, a),
{
}

/// A float NaN equals no value, itself included; every other value equals
/// itself.
pub proof fn law_value_equality_reflexive_but_nan(v: Value)
    ensures
        values_equal(v, v) <==> !(v matches Value::Float64(b) && crate::value::float_is_nan(b)),
{
}

/// How many logs a run keeps changes nothing in its summary: two runs of
/// the same records that went the same way, under options that differ in
/// whether and how many logs they keep, count the same records processed,
/// succeeded, skipped and failed.
pub proof fn law_summary_ignores_log_options(
    first: PipelineOptions,
    second: PipelineOptions,
    stages: Seq<Box<dyn PipelineStage>>,
    sinks: Seq<Box<dyn Sink>>,
    items: Seq<Result<Record, PipelineError>>,
    ts: Seq<RecordTrace>,
    a: PipelineRunResult,
    b: PipelineRunResult,
)
    requires
        first.error_policy == second.error_policy,
        records_outcome(first, stages, sinks, items, ts, Ok(a)),
        records_outcome(second, stages, sinks, items, ts, Ok(b)),
    ensures
        a.summary == b.summary,
        a.summary.processed == items.len(),
{
}

/// Records whose sink answer is only given when every stage continued
/// keep as many logs as did not succeed, up to the limit, or none when logs
/// are not collected.
proof fn lemma_kept_logs_count(options: PipelineOptions, ts: Seq<RecordTrace>)
    requires
        forall|k: int| 0 <= k < ts.len() ==> (#[trigger] ts[k]).written is Some ==> ts[k].executed.result is Continue,
    ensures
        kept_logs(options, ts) == expected_log_count(options, count_skipped(ts) + count_failed(ts)),
    decreases ts.len(),
{
    if ts.len() > 0 {
        let rest = ts.drop_last();
        assert forall|k: int| 0 <= k < rest.len() && (#[trigger] rest[k]).written is Some implies rest[
            k
        ].executed.result is Continue by {
            assert(rest[k] == ts[k]);
        }
        lemma_kept_logs_count(options, rest);
        let t = ts.last();
        assert(ts[ts.len() - 1] == t);
        assert(succeeded(t) ==> !skipped(t) && !failed(t));
        assert(!succeeded(t) ==> (skipped(t) != failed(t)));
    }
}

/// A run that read every record keeps as many logs as records that were
/// skipped or failed, at most the log limit when there is one, and none
/// when the options do not collect logs.
pub proof fn law_kept_log_count(
    options: PipelineOptions,
    stages: Seq<Box<dyn PipelineStage>>,
    sinks: Seq<Box<dyn Sink>>,
    items: Seq<Result<Record, PipelineError>>,
    ts: Seq<RecordTrace>,
    result: PipelineRunResult,
)
    requires
        records_outcome(options, stages, sinks, items, ts, Ok(result)),
    ensures
        result.logs@.len() == expected_log_count(
            options,
            (result.summary.skipped + result.summary.failed) as nat,
        ),
        result.logs@.len() == if !options.collect_logs {
            0
        } else {
            match options.log_limit {
                None => (result.summary.skipped + result.summary.failed) as nat,
                Some(limit) => if result.summary.skipped + result.summary.failed < limit {
                    (result.summary.skipped + result.summary.failed) as nat
                } else {
                    limit as nat
                },
            }
        },
{
    assert forall|k: int| 0 <= k < ts.len() && (#[trigger] ts[k]).written is Some implies ts[
        k
    ].executed.result is Continue by {
        assert(ts[k] == ts[k]);
    }
    lemma_kept_logs_count(options, ts);
}

/// Stopping on errors changes nothing in a run where no record fails: with
/// the same logging options, reading the same records in the same way gives
/// the same result under `StopOnError` as under `Continue`.
pub proof fn law_stop_without_failure_is_continue(
    stop: PipelineOptions,
    keep_going: PipelineOptions,
    stages: Seq<Box<dyn PipelineStage>>,
    sinks: Seq<Box<dyn Sink>>,
    read: Result<Vec<Result<Record, PipelineError>>, PipelineError>,
    ts: Seq<RecordTrace>,
    r: Result<PipelineRunResult, PipelineError>,
)
    requires
        stop.error_policy == ErrorPolicy::StopOnError,
        keep_going.error_policy == ErrorPolicy::Continue,
        stop.collect_logs == keep_going.collect_logs,
        stop.log_limit == keep_going.log_limit,
        none_failed(ts),
    ensures
        read_outcome(stop, stages, sinks, read, ts, r) <==> read_outcome(keep_going, stages, sinks, read, ts, r),
{
    lemma_same_logs(stop, keep_going, ts);
    if ts.len() > 0 {
        assert(!failed(ts.last())) by {
            assert(ts[ts.len() - 1] == ts.last());
        }
    }
}

/// Options that collect and limit logs alike keep the same logs.
proof fn lemma_same_logs(a: PipelineOptions, b: PipelineOptions, ts: Seq<RecordTrace>)
    requires
        a.collect_logs == b.collect_logs,
        a.log_limit == b.log_limit,
    ensures
        kept_logs(a, ts) == kept_logs(b, ts),
        forall|logs: Seq<PipelineLog>| #[trigger] logs_fit(a, ts, logs) == logs_fit(b, ts, logs),
    decreases ts.len(),
{
    assert(forall|n: nat| #[trigger] spec_should_log(a, n) == spec_should_log(b, n));
    if ts.len() > 0 {
        let rest = ts.drop_last();
        lemma_same_logs(a, b, rest);
        let n = kept_logs(a, rest);
        assert forall|logs: Seq<PipelineLog>| #[trigger] logs_fit(a, ts, logs) == logs_fit(b, ts, logs) by {
            assert(logs_fit(a, rest, logs.take(n as int)) == logs_fit(b, rest, logs.take(n as int)));
            assert(logs_fit(a, rest, logs) == logs_fit(b, rest, logs));
        }
    }
}

/// A string holding a decimal integer, as std reads one, counts as an
/// integer when inferring a schema, not as a float or as text.
pub proof fn law_integer_text_counts_as_integer(s: String)
    requires
        s@.len() > 0,
        spec_parse_i64(s@) is Ok,
    ensures
        classify(Value::String(s)) == ValueKind::Int,
{
}

/// `v` is a non-empty string holding a decimal integer.
pub open spec fn is_integer_text_value(v: Value) -> bool {
    v matches Value::String(s) && s@.len() > 0 && spec_parse_i64(s@) is Ok
}

/// Where every record that has field `k` holds integer text in it, the
/// field's tally counts each of them as an integer and nothing else.
proof fn lemma_integer_text_tally(records: Seq<Map<Seq<char>, Value>>, k: Seq<char>)
    requires
        forall|i: int|
            0 <= i < records.len() && #[trigger] records[i].dom().contains(k) ==> is_integer_text_value(
                records[i][k],
            ),
    ensures
        tally(records, k).ints == tally(records, k).present,
        tally(records, k).floats == 0,
        tally(records, k).bools == 0,
        tally(records, k).texts == 0,
        !tally(records, k).nullish,
    decreases records.len(),
{
    if records.len() > 0 {
        let rest = records.drop_last();
        assert forall|i: int|
            0 <= i < rest.len() && #[trigger] rest[i].dom().contains(k) implies is_integer_text_value(
            rest[i][k],
        ) by {
            assert(rest[i] == records[i]);
        }
        lemma_integer_text_tally(rest, k);
        let last = records.last();
        assert(records[records.len() - 1] == last);
        if last.dom().contains(k) {
            assert(is_integer_text_value(last[k]));
            assert(classify(last[k]) == ValueKind::Int);
        }
    }
}

/// A field whose every value in the sample is a decimal integer string is
/// inferred as `Int64`, and may be null only when some record lacks it.
pub proof fn law_integer_text_field_is_int64(
    fields: Seq<Field>,
    records: Seq<Map<Seq<char>, Value>>,
    i: int,
)
    requires
        inferred_from(fields, records),
        0 <= i < fields.len(),
        forall|j: int|
            0 <= j < records.len() && #[trigger] records[j].dom().contains(fields[i].spec_name())
                ==> is_integer_text_value(records[j][fields[i].spec_name()]),
    ensures
        fields[i].spec_data_type() == DataType::Int64,
        fields[i].spec_nullable() == (exists|j: int|
            0 <= j < records.len() && !#[trigger] records[j].dom().contains(fields[i].spec_name())),
{
    let k = fields[i].spec_name();
    lemma_integer_text_tally(records, k);
    assert(field_names(fields).contains(k));
    assert(all_names(records).contains(k));
    let j0 = choose|j: int| 0 <= j < records.len() && #[trigger] records[j].dom().contains(k);
    lemma_tally_present(records, k, j0);
    lemma_tally_present_count(records, k);
}

/// A record holding field `k` is counted in its tally.
proof fn lemma_tally_present(records: Seq<Map<Seq<char>, Value>>, k: Seq<char>, j: int)
    requires
        0 <= j < records.len(),
        records[j].dom().contains(k),
    ensures
        tally(records, k).present > 0,
    decreases records.len(),
{
    if j < records.len() - 1 {
        let rest = records.drop_last();
        assert(rest[j] == records[j]);
        lemma_tally_present(rest, k, j);
    } else {
        assert(records.last() == records[j]);
    }
}

/// The tally counts every record exactly when each one has the field.
proof fn lemma_tally_present_count(records: Seq<Map<Seq<char>, Value>>, k: Seq<char>)
    ensures
        tally(records, k).present <= records.len(),
        tally(records, k).present < records.len() <==> exists|j: int|
            0 <= j < records.len() && !#[trigger] records[j].dom().contains(k),
    decreases records.len(),
{
    if records.len() > 0 {
        let rest = records.drop_last();
        lemma_tally_present_count(rest, k);
        let last = records.last();
        assert(records[records.len() - 1] == last);
        if exists|j: int| 0 <= j < rest.len() && !#[trigger] rest[j].dom().contains(k) {
            let j = choose|j: int| 0 <= j < rest.len() && !#[trigger] rest[j].dom().contains(k);
            assert(rest[j] == records[j]);
        }
        if exists|j: int| 0 <= j < records.len() && !#[trigger] records[j].dom().contains(k) {
            let j = choose|j: int| 0 <= j < records.len() && !#[trigger] records[j].dom().contains(k);
            if j < rest.len() {
                assert(rest[j] == records[j]);
            }
        }
    }
}

/// Coercing a value to a string field keeps its text: a successful
/// coercion gives a string holding the string itself, or the text of any
/// other value; it fails only on an empty text for a field that may not be
/// null. An empty string for a field that may be null stays an empty
/// string.
pub proof fn law_string_coercion_keeps_text<P: Fn(&str) -> u64, I: Fn(i64) -> u64, T: Fn(u64) -> String>(
    v: Value,
    nullable: bool,
    key: Seq<char>,
    parse_float: P,
    int_to_float: I,
    float_text: T,
    out: Result<Value, Seq<char>>,
)
    requires
        coerce_outcome(v, DataType::String, nullable, key, parse_float, int_to_float, float_text, out),
    ensures
        out matches Ok(c) ==> c matches Value::String(x) && match v {
            Value::String(s) => x@ == s@,
            _ => exists|t: String| #[trigger] is_text_of(v, t, float_text) && t@ == x@,
        },
        v matches Value::String(s) ==> (out is Ok <==> (s@.len() > 0 || nullable)),
        (v matches Value::String(s) && s@.len() == 0 && nullable) ==> (out matches Ok(
            Value::String(x),
        ) && x@.len() == 0),
{
}

/// A filter continues only when its expression gives `true`, skips only
/// when it gives `false`, and fails on anything else: any other value,
/// strings that read as booleans included, or an evaluation error.
pub proof fn law_filter_needs_a_boolean<T: Fn(u64) -> String>(
    reason: Option<Seq<char>>,
    evaluated: Result<Value, String>,
    float_text: T,
    r: StageResult,
)
    requires
        filter_decision(reason, evaluated, float_text, r),
    ensures
        r is Continue <==> evaluated == Ok::<Value, String>(Value::Boolean(true)),
        r is Skip <==> evaluated == Ok::<Value, String>(Value::Boolean(false)),
        (evaluated matches Ok(v) && !(v is Boolean)) ==> r is Fail,
{
}

/// Setting a field stores whatever the expression gives, null included:
/// afterwards the field holds that value and every other field is as it
/// was.
pub proof fn law_set_field_stores_the_value(
    field: Seq<char>,
    before: Map<Seq<char>, Value>,
    v: Value,
    after: Map<Seq<char>, Value>,
    r: StageResult,
    other: Seq<char>,
)
    requires
        set_field_outcome(field, before, Ok(v), after, r),
    ensures
        r is Continue,
        after.dom().contains(field),
        after[field] == v,
        other != field ==> (after.dom().contains(other) == before.dom().contains(other)),
        other != field && before.dom().contains(other) ==> after[other] == before[other],
{
}

/// Renaming touches only the two names: a record without the old name is
/// left exactly as it was; otherwise the new name holds the old name's
/// value, the old name is gone, and every other field is as it was.
pub proof fn law_rename_changes_only_the_two_names(
    record: Map<Seq<char>, Value>,
    from: Seq<char>,
    to: Seq<char>,
    other: Seq<char>,
)
    ensures
        !record.dom().contains(from) ==> renamed(record, from, to) == record,
        record.dom().contains(from) ==> renamed(record, from, to).dom().contains(to)
            && renamed(record, from, to)[to] == record[from],
        record.dom().contains(from) && from != to ==> !renamed(record, from, to).dom().contains(from),
        other != from && other != to ==> (renamed(record, from, to).dom().contains(other)
            == record.dom().contains(other)),
        other != from && other != to && record.dom().contains(other) ==> renamed(record, from, to)[other]
            == record[other],
{
}

} // verus!
