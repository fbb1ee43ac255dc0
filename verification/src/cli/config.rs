//! The configuration of a pipeline as the command-line program reads it.
use vstd::prelude::*;

use crate::pipeline::error::PipelineError;
use crate::infer::{inferred_from, record_views};
use crate::pipeline::pipeline::Pipeline;
use crate::pipeline::stage::{PipelineStage, StageContext, StageResult};
use crate::sink::Sink;
use crate::source::{sample_outcome, Source};
use crate::record::Record;
use crate::schema::{same_field, Schema};
use crate::stages::{FilterStage, RemoveFieldStage, RenameFieldStage, SelectFieldsStage, SetFieldStage};
use crate::stages::remove_field::str_set;
use crate::text::concat;
use crate::validation::SchemaValidation;
use crate::value::Value;
use crate::parse::is_float_text;

verus! {

/// Where records are read from.
#[derive(Debug)]
pub enum SourceConfig {
    Json { path: String },
    Csv { path: String },
}

/// Where records are written to.
#[derive(Debug)]
pub enum SinkConfig {
    Json { path: String },
    Csv { path: String },
}

/// Whether to infer a schema, and from how many records.
#[derive(Debug)]
pub struct SchemaConfig {
    pub infer: bool,
    pub sample_size: usize,
}

impl Default for SchemaConfig {
    fn default() -> (r: SchemaConfig)
        ensures
            !r.infer,
            r.sample_size == 0,
    {
        SchemaConfig { infer: false, sample_size: 0 }
    }
}

/// The sample size used when a schema section does not give one.
pub fn default_sample_size() -> (r: usize)
    ensures
        r == 1000,
{
    1000
}

/// One stage of the configured pipeline.
#[derive(Debug)]
pub enum StageConfig {
    RenameField { from: String, to: String },
    SelectFields { fields: Vec<String> },
    RemoveField { fields: Vec<String> },
    SchemaValidation,
    Filter { expression: String },
    SetField { field: String, expression: String },
}

/// A whole pipeline configuration.
#[derive(Debug)]
pub struct PipelineConfig {
    pub source: SourceConfig,
    pub sink: Option<SinkConfig>,
    pub schema: SchemaConfig,
    pub stages: Vec<StageConfig>,
}

pub open spec fn schema_required_text() -> Seq<char> {
    "stage 'schema_validation' requires 'schema: { infer: true }' in the config"@
}

/// Whether a stage can be built from `config`: schema validation needs a
/// schema, and a filter or set-field expression must compile.
pub open spec fn stage_can_build<C: Fn(&str) -> Result<E, String>, E>(
    config: StageConfig,
    has_schema: bool,
    compile: C,
) -> bool {
    match config {
        StageConfig::SchemaValidation => has_schema,
        StageConfig::Filter { expression } => exists|t: &str, c: Result<E, String>|
            t@ == expression@ && #[trigger] compile.ensures((t,), c) && c is Ok,
        StageConfig::SetField { expression, .. } => exists|t: &str, c: Result<E, String>|
            t@ == expression@ && #[trigger] compile.ensures((t,), c) && c is Ok,
        _ => true,
    }
}

/// `e` is the error building a stage from `config` gives: schema
/// validation without a schema, or an expression that does not compile,
/// with the compiler's message.
pub open spec fn stage_build_error<C: Fn(&str) -> Result<E, String>, E>(
    config: StageConfig,
    has_schema: bool,
    compile: C,
    e: PipelineError,
) -> bool {
    match config {
        StageConfig::SchemaValidation => !has_schema && e.text() == schema_required_text(),
        StageConfig::Filter { expression } => exists|t: &str, m: String|
            t@ == expression@ && #[trigger] compile.ensures((t,), Err::<E, String>(m)) && e.text()
                == "Failed to parse filter expression: "@ + m@,
        StageConfig::SetField { expression, .. } => exists|t: &str, m: String|
            t@ == expression@ && #[trigger] compile.ensures((t,), Err::<E, String>(m)) && e.text()
                == "Failed to parse set_field expression: "@ + m@,
        _ => false,
    }
}

/// Building the stages `stages` with or without a schema gives `r`: every
/// stage builds, or the error of the first that does not.
pub open spec fn stages_outcome<C: Fn(&str) -> Result<E, String>, E>(
    stages: Seq<StageConfig>,
    has_schema: bool,
    compile: C,
    r: Result<(), PipelineError>,
) -> bool {
    match r {
        Ok(()) => forall|i: int|
            0 <= i < stages.len() ==> stage_can_build::<C, E>(#[trigger] stages[i], has_schema, compile),
        Err(e) => exists|i: int|
            0 <= i < stages.len() && (forall|j: int|
                0 <= j < i ==> stage_can_build::<C, E>(#[trigger] stages[j], has_schema, compile))
                && stage_build_error::<C, E>(#[trigger] stages[i], has_schema, compile, e),
    }
}

fn borrowed_names(names: &Vec<String>) -> (r: Vec<&str>)
    ensures
        r@.len() == names@.len(),
        forall|i: int| 0 <= i < names@.len() ==> #[trigger] r@[i]@ == names@[i]@,
{
    let mut r: Vec<&str> = Vec::new();
    let mut i: usize = 0;
    while i < names.len()
        invariant
            i <= names@.len(),
            r@.len() == i,
            forall|j: int| 0 <= j < i ==> #[trigger] r@[j]@ == names@[j]@,
        decreases names@.len() - i,
    {
        r.push(names[i].as_str());
        i = i + 1;
    }
    r
}

/// The names among `names`, as a set.
pub open spec fn string_set(names: Seq<String>) -> Set<Seq<char>> {
    Set::new(|k: Seq<char>| exists|i: int| 0 <= i < names.len() && #[trigger] names[i]@ == k)
}

/// A stage built from a configuration entry.
pub enum BuiltStage<
    E: Fn(&Record) -> Result<Value, String>,
    P: Fn(&str) -> u64,
    I: Fn(i64) -> u64,
    T: Fn(u64) -> String,
> {
    Rename(RenameFieldStage),
    Select(SelectFieldsStage),
    Remove(RemoveFieldStage),
    Validate(SchemaValidation<P, I, T>),
    Filter(FilterStage<E, T>),
    SetField(SetFieldStage<E>),
}

/// `stage` is the stage `config` describes: a rename from and to the given
/// names; a selection or removal of the given names; validation against
/// `schema` with the given float work; a filter or a set-field stage whose
/// evaluator is what `compile` gave for the expression text.
pub open spec fn built_from<
    C: Fn(&str) -> Result<E, String>,
    E: Fn(&Record) -> Result<Value, String>,
    P: Fn(&str) -> u64,
    I: Fn(i64) -> u64,
    T: Fn(u64) -> String,
>(
    config: StageConfig,
    schema: Option<Schema>,
    compile: C,
    parse_float: P,
    int_to_float: I,
    float_text: T,
    stage: BuiltStage<E, P, I, T>,
) -> bool {
    match config {
        StageConfig::RenameField { from, to } => stage matches BuiltStage::Rename(s) && s.from()
            == from@ && s.to() == to@,
        StageConfig::SelectFields { fields } => stage matches BuiltStage::Select(s) && s.names()
            == string_set(fields@),
        StageConfig::RemoveField { fields } => stage matches BuiltStage::Remove(s) && s.names()
            == string_set(fields@),
        StageConfig::SchemaValidation => {
            &&& schema matches Some(sc)
            &&& stage matches BuiltStage::Validate(v)
            &&& v.fields().len() == sc.spec_fields().len()
            &&& forall|i: int|
                0 <= i < sc.spec_fields().len() ==> same_field(
                    #[trigger] v.fields()[i],
                    sc.spec_fields()[i],
                )
            &&& v.float_reader() == parse_float
            &&& v.int_converter() == int_to_float
            &&& v.float_writer() == float_text
        },
        StageConfig::Filter { expression } => {
            &&& stage matches BuiltStage::Filter(f)
            &&& f.reason() is None
            &&& f.float_writer() == float_text
            &&& exists|t: &str|
                t@ == expression@ && #[trigger] compile.ensures((t,), Ok::<E, String>(f.evaluator()))
        },
        StageConfig::SetField { field, expression } => {
            &&& stage matches BuiltStage::SetField(s)
            &&& s.field() == field@
            &&& exists|t: &str|
                t@ == expression@ && #[trigger] compile.ensures((t,), Ok::<E, String>(s.evaluator()))
        },
    }
}

/// Builds the stage a configuration entry describes. `compile` turns
/// expression text into an evaluator; `parse_float`, `int_to_float` and
/// `float_text` do the float work of the stages that need it. Schema
/// validation needs the inferred `schema`.
pub fn build_stage<C, E, P, I, T>(
    config: &StageConfig,
    schema: Option<&Schema>,
    compile: &C,
    parse_float: P,
    int_to_float: I,
    float_text: T,
) -> (r: Result<BuiltStage<E, P, I, T>, PipelineError>)
    where
        C: Fn(&str) -> Result<E, String>,
        E: Fn(&Record) -> Result<Value, String>,
        P: Fn(&str) -> u64,
        I: Fn(i64) -> u64,
        T: Fn(u64) -> String,
    requires
        forall|s: &str| compile.requires((s,)),
        forall|s: &str, e: E| #[trigger] compile.ensures((s,), Ok::<E, String>(e)) ==> forall|r: &Record| e.requires((r,)),
        forall|s: &str| is_float_text(s@) ==> parse_float.requires((s,)),
        forall|x: i64| int_to_float.requires((x,)),
        forall|b: u64| float_text.requires((b,)),
    ensures
        match r {
            Ok(stage) => stage_can_build::<C, E>(*config, schema is Some, *compile) && built_from(
                *config,
                match schema {
                    Some(sc) => Some(*sc),
                    None => None,
                },
                *compile,
                parse_float,
                int_to_float,
                float_text,
                stage,
            ),
            Err(e) => stage_build_error::<C, E>(*config, schema is Some, *compile, e),
        },
{
    match config {
        StageConfig::RenameField { from, to } => {
            let stage = RenameFieldStage::new(from.as_str(), to.as_str());
            Ok(BuiltStage::Rename(stage))
        },
        StageConfig::SelectFields { fields } => {
            let names = borrowed_names(fields);
            let stage = SelectFieldsStage::new(names.as_slice());
            proof {
                lemma_borrowed_set(names@, fields@);
            }
            Ok(BuiltStage::Select(stage))
        },
        StageConfig::RemoveField { fields } => {
            let names = borrowed_names(fields);
            let stage = RemoveFieldStage::new(names.as_slice());
            proof {
                lemma_borrowed_set(names@, fields@);
            }
            Ok(BuiltStage::Remove(stage))
        },
        StageConfig::SchemaValidation => match schema {
            Some(schema) => {
                let stage = SchemaValidation::new(schema.clone(), parse_float, int_to_float, float_text);
                Ok(BuiltStage::Validate(stage))
            },
            None => {
                proof {
                    reveal_strlit("stage 'schema_validation' requires 'schema: { infer: true }' in the config");
                }
                Err(
                    PipelineError::new(
                        "stage 'schema_validation' requires 'schema: { infer: true }' in the config",
                    ),
                )
            },
        },
        StageConfig::Filter { expression } => match compile(expression.as_str()) {
            Ok(evaluate) => Ok(BuiltStage::Filter(FilterStage::new(evaluate, float_text))),
            Err(message) => Err(
                PipelineError::new(concat("Failed to parse filter expression: ", message.as_str()).as_str()),
            ),
        },
        StageConfig::SetField { field, expression } => match compile(expression.as_str()) {
            Ok(evaluate) => Ok(BuiltStage::SetField(SetFieldStage::new(field.as_str(), evaluate))),
            Err(message) => Err(
                PipelineError::new(
                    concat("Failed to parse set_field expression: ", message.as_str()).as_str(),
                ),
            ),
        },
    }
}

/// Names borrowed one for one from `owned` make the same set.
proof fn lemma_borrowed_set(borrowed: Seq<&str>, owned: Seq<String>)
    requires
        borrowed.len() == owned.len(),
        forall|i: int| 0 <= i < owned.len() ==> #[trigger] borrowed[i]@ == owned[i]@,
    ensures
        str_set(borrowed) == string_set(owned),
{
    assert forall|k: Seq<char>| str_set(borrowed).contains(k) <==> string_set(owned).contains(k) by {
        if str_set(borrowed).contains(k) {
            let i = choose|i: int| 0 <= i < borrowed.len() && #[trigger] borrowed[i]@ == k;
            assert(owned[i]@ == k);
        }
        if string_set(owned).contains(k) {
            let i = choose|i: int| 0 <= i < owned.len() && #[trigger] owned[i]@ == k;
            assert(borrowed[i]@ == k);
        }
    }
    assert(str_set(borrowed) =~= string_set(owned));
}

/// The names `stage` may report.
pub open spec fn built_reports<E, P, I, T>(stage: BuiltStage<E, P, I, T>, name: Seq<char>) -> bool
    where
        E: Fn(&Record) -> Result<Value, String>,
        P: Fn(&str) -> u64,
        I: Fn(i64) -> u64,
        T: Fn(u64) -> String,
{
    match stage {
        BuiltStage::Rename(s) => s.reports(name),
        BuiltStage::Select(s) => s.reports(name),
        BuiltStage::Remove(s) => s.reports(name),
        BuiltStage::Validate(s) => s.reports(name),
        BuiltStage::Filter(s) => s.reports(name),
        BuiltStage::SetField(s) => s.reports(name),
    }
}

/// What `stage` may give for the record `before` at `ctx`.
pub open spec fn built_outcome<E, P, I, T>(
    stage: BuiltStage<E, P, I, T>,
    before: Record,
    ctx: StageContext,
    result: StageResult,
    after: Record,
) -> bool
    where
        E: Fn(&Record) -> Result<Value, String>,
        P: Fn(&str) -> u64,
        I: Fn(i64) -> u64,
        T: Fn(u64) -> String,
{
    match stage {
        BuiltStage::Rename(s) => s.outcome(before, ctx, result, after),
        BuiltStage::Select(s) => s.outcome(before, ctx, result, after),
        BuiltStage::Remove(s) => s.outcome(before, ctx, result, after),
        BuiltStage::Validate(s) => s.outcome(before, ctx, result, after),
        BuiltStage::Filter(s) => s.outcome(before, ctx, result, after),
        BuiltStage::SetField(s) => s.outcome(before, ctx, result, after),
    }
}

/// The stage at position `i` of `stages` reports the names and gives the
/// results and records that the built stage `stage` does.
pub open spec fn runs_as<E, P, I, T>(stages: Seq<Box<dyn PipelineStage>>, i: int, stage: BuiltStage<E, P, I, T>) -> bool
    where
        E: Fn(&Record) -> Result<Value, String>,
        P: Fn(&str) -> u64,
        I: Fn(i64) -> u64,
        T: Fn(u64) -> String,
{
    &&& forall|name: Seq<char>| #[trigger] stages[i].reports(name) == built_reports(stage, name)
    &&& forall|before: Record, ctx: StageContext, result: StageResult, after: Record|
        #[trigger] stages[i].outcome(before, ctx, result, after) == built_outcome(
            stage,
            before,
            ctx,
            result,
            after,
        )
}

/// `stages` are, in order, stages that run as the ones the entries
/// `configs` describe: there are built stages, one for each entry, each
/// the stage its entry describes, and each stage at the same position runs
/// as it.
pub open spec fn stages_built_from<C, E, P, I, T>(
    configs: Seq<StageConfig>,
    schema: Option<Schema>,
    compile: C,
    parse_float: P,
    int_to_float: I,
    float_text: T,
    stages: Seq<Box<dyn PipelineStage>>,
) -> bool
    where
        C: Fn(&str) -> Result<E, String>,
        E: Fn(&Record) -> Result<Value, String>,
        P: Fn(&str) -> u64,
        I: Fn(i64) -> u64,
        T: Fn(u64) -> String,
{
    &&& stages.len() == configs.len()
    &&& exists|built: Seq<BuiltStage<E, P, I, T>>|
        #![trigger built.len()]
        built.len() == configs.len() && forall|j: int|
            0 <= j < configs.len() ==> built_from(
                configs[j],
                schema,
                compile,
                parse_float,
                int_to_float,
                float_text,
                #[trigger] built[j],
            ) && runs_as(stages, j, built[j])
}

/// The stage, ready to be run by a pipeline, alone in a `Vec`.
fn boxed_stage<E, P, I, T>(stage: BuiltStage<E, P, I, T>) -> (r: Vec<Box<dyn PipelineStage>>)
    where
        E: Fn(&Record) -> Result<Value, String> + 'static,
        P: Fn(&str) -> u64 + 'static,
        I: Fn(i64) -> u64 + 'static,
        T: Fn(u64) -> String + 'static,
    ensures
        r@.len() == 1,
        runs_as(r@, 0, stage),
{
    match stage {
        BuiltStage::Rename(s) => alone_rename(s),
        BuiltStage::Select(s) => alone_select(s),
        BuiltStage::Remove(s) => alone_remove(s),
        BuiltStage::Validate(s) => alone_validation(s),
        BuiltStage::Filter(s) => alone_filter(s),
        BuiltStage::SetField(s) => alone_set_field(s),
    }
}

/// A rename stage, ready to be run by a pipeline, alone in a `Vec`.
fn alone_rename(stage: RenameFieldStage) -> (r: Vec<Box<dyn PipelineStage>>)
    ensures
        r@.len() == 1,
        forall|n: Seq<char>| #[trigger] r@[0].reports(n) == stage.reports(n),
        forall|x: Record, c: StageContext, res: StageResult, a: Record|
            #[trigger] r@[0].outcome(x, c, res, a) == stage.outcome(x, c, res, a),
{
    let ghost g = stage;
    let b: Box<dyn PipelineStage + 'static> = Box::new(stage);
    proof {
        assert(forall|n: Seq<char>| #[trigger] b.reports(n) == g.reports(n));
        assert(forall|x: Record, c: StageContext, res: StageResult, a: Record|
            #[trigger] b.outcome(x, c, res, a) == g.outcome(x, c, res, a));
    }
    let mut one = Vec::new();
    one.push(b);
    proof {
        vstd::seq::axiom_seq_push_len(Seq::empty(), b);
        vstd::seq::axiom_seq_push_index_same(Seq::empty(), b, 0);
    }
    one
}

/// A select stage, ready to be run by a pipeline, alone in a `Vec`.
fn alone_select(stage: SelectFieldsStage) -> (r: Vec<Box<dyn PipelineStage>>)
    ensures
        r@.len() == 1,
        forall|n: Seq<char>| #[trigger] r@[0].reports(n) == stage.reports(n),
        forall|x: Record, c: StageContext, res: StageResult, a: Record|
            #[trigger] r@[0].outcome(x, c, res, a) == stage.outcome(x, c, res, a),
{
    let ghost g = stage;
    let b: Box<dyn PipelineStage + 'static> = Box::new(stage);
    proof {
        assert(forall|n: Seq<char>| #[trigger] b.reports(n) == g.reports(n));
        assert(forall|x: Record, c: StageContext, res: StageResult, a: Record|
            #[trigger] b.outcome(x, c, res, a) == g.outcome(x, c, res, a));
    }
    let mut one = Vec::new();
    one.push(b);
    proof {
        vstd::seq::axiom_seq_push_len(Seq::empty(), b);
        vstd::seq::axiom_seq_push_index_same(Seq::empty(), b, 0);
    }
    one
}

/// A remove stage, ready to be run by a pipeline, alone in a `Vec`.
fn alone_remove(stage: RemoveFieldStage) -> (r: Vec<Box<dyn PipelineStage>>)
    ensures
        r@.len() == 1,
        forall|n: Seq<char>| #[trigger] r@[0].reports(n) == stage.reports(n),
        forall|x: Record, c: StageContext, res: StageResult, a: Record|
            #[trigger] r@[0].outcome(x, c, res, a) == stage.outcome(x, c, res, a),
{
    let ghost g = stage;
    let b: Box<dyn PipelineStage + 'static> = Box::new(stage);
    proof {
        assert(forall|n: Seq<char>| #[trigger] b.reports(n) == g.reports(n));
        assert(forall|x: Record, c: StageContext, res: StageResult, a: Record|
            #[trigger] b.outcome(x, c, res, a) == g.outcome(x, c, res, a));
    }
    let mut one = Vec::new();
    one.push(b);
    proof {
        vstd::seq::axiom_seq_push_len(Seq::empty(), b);
        vstd::seq::axiom_seq_push_index_same(Seq::empty(), b, 0);
    }
    one
}

/// A validation stage, ready to be run by a pipeline, alone in a `Vec`.
fn alone_validation<P, I, T>(stage: SchemaValidation<P, I, T>) -> (r: Vec<Box<dyn PipelineStage>>)
    where
        P: Fn(&str) -> u64 + 'static,
        I: Fn(i64) -> u64 + 'static,
        T: Fn(u64) -> String + 'static,
    ensures
        r@.len() == 1,
        forall|n: Seq<char>| #[trigger] r@[0].reports(n) == stage.reports(n),
        forall|x: Record, c: StageContext, res: StageResult, a: Record|
            #[trigger] r@[0].outcome(x, c, res, a) == stage.outcome(x, c, res, a),
{
    let ghost g = stage;
    let b: Box<dyn PipelineStage + 'static> = Box::new(stage);
    proof {
        assert(forall|n: Seq<char>| #[trigger] b.reports(n) == g.reports(n));
        assert(forall|x: Record, c: StageContext, res: StageResult, a: Record|
            #[trigger] b.outcome(x, c, res, a) == g.outcome(x, c, res, a));
    }
    let mut one = Vec::new();
    one.push(b);
    proof {
        vstd::seq::axiom_seq_push_len(Seq::empty(), b);
        vstd::seq::axiom_seq_push_index_same(Seq::empty(), b, 0);
    }
    one
}

/// A filter stage, ready to be run by a pipeline, alone in a `Vec`.
fn alone_filter<E, T>(stage: FilterStage<E, T>) -> (r: Vec<Box<dyn PipelineStage>>)
    where
        E: Fn(&Record) -> Result<Value, String> + 'static,
        T: Fn(u64) -> String + 'static,
    ensures
        r@.len() == 1,
        forall|n: Seq<char>| #[trigger] r@[0].reports(n) == stage.reports(n),
        forall|x: Record, c: StageContext, res: StageResult, a: Record|
            #[trigger] r@[0].outcome(x, c, res, a) == stage.outcome(x, c, res, a),
{
    let ghost g = stage;
    let b: Box<dyn PipelineStage + 'static> = Box::new(stage);
    proof {
        assert(forall|n: Seq<char>| #[trigger] b.reports(n) == g.reports(n));
        assert(forall|x: Record, c: StageContext, res: StageResult, a: Record|
            #[trigger] b.outcome(x, c, res, a) == g.outcome(x, c, res, a));
    }
    let mut one = Vec::new();
    one.push(b);
    proof {
        vstd::seq::axiom_seq_push_len(Seq::empty(), b);
        vstd::seq::axiom_seq_push_index_same(Seq::empty(), b, 0);
    }
    one
}

/// A set-field stage, ready to be run by a pipeline, alone in a `Vec`.
fn alone_set_field<E>(stage: SetFieldStage<E>) -> (r: Vec<Box<dyn PipelineStage>>)
    where
        E: Fn(&Record) -> Result<Value, String> + 'static,
    ensures
        r@.len() == 1,
        forall|n: Seq<char>| #[trigger] r@[0].reports(n) == stage.reports(n),
        forall|x: Record, c: StageContext, res: StageResult, a: Record|
            #[trigger] r@[0].outcome(x, c, res, a) == stage.outcome(x, c, res, a),
{
    let ghost g = stage;
    let b: Box<dyn PipelineStage + 'static> = Box::new(stage);
    proof {
        assert(forall|n: Seq<char>| #[trigger] b.reports(n) == g.reports(n));
        assert(forall|x: Record, c: StageContext, res: StageResult, a: Record|
            #[trigger] b.outcome(x, c, res, a) == g.outcome(x, c, res, a));
    }
    let mut one = Vec::new();
    one.push(b);
    proof {
        vstd::seq::axiom_seq_push_len(Seq::empty(), b);
        vstd::seq::axiom_seq_push_index_same(Seq::empty(), b, 0);
    }
    one
}

/// Appending the one stage in `added` to `before` gives `after`: the stages
/// of `before` keep their positions and the new one follows.
proof fn lemma_appended_stage(
    before: Seq<Box<dyn PipelineStage>>,
    added: Seq<Box<dyn PipelineStage>>,
    after: Seq<Box<dyn PipelineStage>>,
)
    requires
        after == before + added,
        added.len() == 1,
    ensures
        after.len() == before.len() + 1,
        forall|j: int, name: Seq<char>|
            0 <= j < before.len() ==> #[trigger] after[j].reports(name) == before[j].reports(name),
        forall|j: int, x: Record, c: StageContext, r: StageResult, a: Record|
            0 <= j < before.len() ==> #[trigger] after[j].outcome(x, c, r, a) == before[j].outcome(x, c, r, a),
        forall|name: Seq<char>| #[trigger] after[before.len() as int].reports(name) == added[0].reports(name),
        forall|x: Record, c: StageContext, r: StageResult, a: Record|
            #[trigger] after[before.len() as int].outcome(x, c, r, a) == added[0].outcome(x, c, r, a),
{
    vstd::seq::axiom_seq_add_len(before, added);
    assert forall|j: int, name: Seq<char>|
        0 <= j < before.len() implies #[trigger] after[j].reports(name) == before[j].reports(name) by {
        vstd::seq::axiom_seq_add_index1(before, added, j);
    }
    assert forall|j: int, x: Record, c: StageContext, r: StageResult, a: Record|
        0 <= j < before.len() implies #[trigger] after[j].outcome(x, c, r, a) == before[j].outcome(x, c, r, a) by {
        vstd::seq::axiom_seq_add_index1(before, added, j);
    }
    vstd::seq::axiom_seq_add_index2(before, added, before.len() as int);
}

/// The error of a sample that could not be read.
pub open spec fn sample_error_text(inner: Seq<char>) -> Seq<char> {
    "Failed to read sample for schema inference: "@ + inner
}

impl PipelineConfig {
    /// The pipeline of the source in `sources`, a stage for each stage entry
    /// in order, and the sink in `sinks`, if any.
    fn assemble_parts<C, E, P, I, T>(
        self,
        sources: Vec<Box<dyn Source>>,
        sinks: Vec<Box<dyn Sink>>,
        schema: Option<Schema>,
        compile: &C,
        parse_float: P,
        int_to_float: I,
        float_text: T,
    ) -> (r: Result<(Pipeline, Option<Schema>), PipelineError>)
        where
            C: Fn(&str) -> Result<E, String>,
            E: Fn(&Record) -> Result<Value, String> + 'static,
            P: Fn(&str) -> u64 + Copy + 'static,
            I: Fn(i64) -> u64 + Copy + 'static,
            T: Fn(u64) -> String + Copy + 'static,
        requires
            sources@.len() == 1,
            sinks@.len() <= 1,
            forall|s: &str| compile.requires((s,)),
            forall|s: &str, e: E| #[trigger] compile.ensures((s,), Ok::<E, String>(e)) ==> forall|r: &Record| e.requires((r,)),
            forall|s: &str| is_float_text(s@) ==> parse_float.requires((s,)),
            forall|x: i64| int_to_float.requires((x,)),
            forall|b: u64| float_text.requires((b,)),
        ensures
            match r {
                Ok((pipeline, s)) => {
                    &&& s == schema
                    &&& pipeline.source_seq() == sources@
                    &&& pipeline.sink_seq() == sinks@
                    &&& pipeline.stage_count() == self.stages@.len()
                    &&& stages_built_from::<C, E, P, I, T>(
                        self.stages@,
                        schema,
                        *compile,
                        parse_float,
                        int_to_float,
                        float_text,
                        pipeline.stage_seq(),
                    )
                    &&& stages_outcome::<C, E>(self.stages@, schema is Some, *compile, Ok(()))
                },
                Err(e) => stages_outcome::<C, E>(self.stages@, schema is Some, *compile, Err(e)),
            },
    {
        let mut stages: Vec<Box<dyn PipelineStage>> = Vec::new();
        let ghost mut builts: Seq<BuiltStage<E, P, I, T>> = Seq::empty();
        let mut i: usize = 0;
        while i < self.stages.len()
            invariant
                i <= self.stages@.len(),
                stages@.len() == i,
                builts.len() == i,
                forall|j: int|
                    0 <= j < i ==> built_from(
                        self.stages@[j],
                        schema,
                        *compile,
                        parse_float,
                        int_to_float,
                        float_text,
                        #[trigger] builts[j],
                    ) && runs_as(stages@, j, builts[j]),
                forall|s: &str| compile.requires((s,)),
                forall|s: &str, e: E| #[trigger] compile.ensures((s,), Ok::<E, String>(e)) ==> forall|r: &Record| e.requires((r,)),
                forall|s: &str| is_float_text(s@) ==> parse_float.requires((s,)),
                forall|x: i64| int_to_float.requires((x,)),
                forall|b: u64| float_text.requires((b,)),
                forall|j: int|
                    0 <= j < i ==> stage_can_build::<C, E>(#[trigger] self.stages@[j], schema is Some, *compile),
            decreases self.stages@.len() - i,
        {
            match build_stage(&self.stages[i], schema.as_ref(), compile, parse_float, int_to_float, float_text) {
                Ok(stage) => {
                    let ghost built = stage;
                    let mut one = boxed_stage(stage);
                    let ghost before = stages@;
                    let ghost added = one@;
                    stages.append(&mut one);
                    proof {
                        lemma_appended_stage(before, added, stages@);
                        let next = builts.push(built);
                        assert forall|j: int| 0 <= j < i + 1 implies built_from(
                            self.stages@[j],
                            schema,
                            *compile,
                            parse_float,
                            int_to_float,
                            float_text,
                            #[trigger] next[j],
                        ) && runs_as(stages@, j, next[j]) by {
                            if j < i {
                                assert(next[j] == builts[j]);
                                assert(runs_as(before, j, builts[j]));
                            } else {
                                assert(next[j] == built);
                                assert(j == before.len());
                            }
                        }
                        builts = next;
                    }
                },
                Err(e) => {
                    proof {
                        assert(stage_build_error::<C, E>(self.stages@[i as int], schema is Some, *compile, e));
                    }
                    return Err(e);
                },
            }
            i = i + 1;
        }
        proof {
            assert(stages@.len() == self.stages@.len());
            assert(stages_built_from::<C, E, P, I, T>(
                self.stages@,
                schema,
                *compile,
                parse_float,
                int_to_float,
                float_text,
                stages@,
            ));
        }
        Ok((Pipeline::from_parts(sources, stages, sinks), schema))
    }

    /// Puts the pipeline together: `source`, a stage for each stage entry in
    /// order, and `sink` where there is one. `schema` is what schema
    /// validation checks against, and is handed back.
    pub fn assemble<C, E, P, I, T>(
        self,
        source: Box<dyn Source>,
        sink: Option<Box<dyn Sink>>,
        schema: Option<Schema>,
        compile: &C,
        parse_float: P,
        int_to_float: I,
        float_text: T,
    ) -> (r: Result<(Pipeline, Option<Schema>), PipelineError>)
        where
            C: Fn(&str) -> Result<E, String>,
            E: Fn(&Record) -> Result<Value, String> + 'static,
            P: Fn(&str) -> u64 + Copy + 'static,
            I: Fn(i64) -> u64 + Copy + 'static,
            T: Fn(u64) -> String + Copy + 'static,
        requires
            forall|s: &str| compile.requires((s,)),
            forall|s: &str, e: E| #[trigger] compile.ensures((s,), Ok::<E, String>(e)) ==> forall|r: &Record| e.requires((r,)),
            forall|s: &str| is_float_text(s@) ==> parse_float.requires((s,)),
            forall|x: i64| int_to_float.requires((x,)),
            forall|b: u64| float_text.requires((b,)),
        ensures
            match r {
                Ok((pipeline, s)) => {
                    &&& s == schema
                    &&& stages_built_from::<C, E, P, I, T>(
                        self.stages@,
                        schema,
                        *compile,
                        parse_float,
                        int_to_float,
                        float_text,
                        pipeline.stage_seq(),
                    )
                    &&& pipeline.source_seq().len() == 1
                    &&& pipeline.source_seq()[0] == source
                    &&& pipeline.has_sink() == sink is Some
                    &&& (sink matches Some(k) ==> pipeline.sink_seq()[0] == k)
                    &&& pipeline.stage_count() == self.stages@.len()
                    &&& stages_outcome::<C, E>(self.stages@, schema is Some, *compile, Ok(()))
                },
                Err(e) => stages_outcome::<C, E>(self.stages@, schema is Some, *compile, Err(e)),
            },
    {
        let mut sources = Vec::new();
        sources.push(source);
        proof {
            vstd::seq::axiom_seq_push_len(Seq::empty(), source);
            vstd::seq::axiom_seq_push_index_same(Seq::empty(), source, 0);
        }
        let mut sinks = Vec::new();
        if let Some(sink) = sink {
            sinks.push(sink);
            proof {
                vstd::seq::axiom_seq_push_len(Seq::empty(), sink);
                vstd::seq::axiom_seq_push_index_same(Seq::empty(), sink, 0);
            }
        }
        self.assemble_parts(sources, sinks, schema, compile, parse_float, int_to_float, float_text)
    }

    /// Builds the pipeline the configuration describes from `source` and
    /// `sink`, the ones its `source` and `sink` entries name. When
    /// `schema.infer` asks for it, the schema is inferred from what
    /// `read_sample(schema.sample_size)` gives and handed back.
    pub fn build<C, E, P, I, T>(
        self,
        source: Box<dyn Source>,
        sink: Option<Box<dyn Sink>>,
        compile: &C,
        parse_float: P,
        int_to_float: I,
        float_text: T,
    ) -> (r: Result<(Pipeline, Option<Schema>), PipelineError>)
        where
            C: Fn(&str) -> Result<E, String>,
            E: Fn(&Record) -> Result<Value, String> + 'static,
            P: Fn(&str) -> u64 + Copy + 'static,
            I: Fn(i64) -> u64 + Copy + 'static,
            T: Fn(u64) -> String + Copy + 'static,
        requires
            forall|s: &str| compile.requires((s,)),
            forall|s: &str, e: E| #[trigger] compile.ensures((s,), Ok::<E, String>(e)) ==> forall|r: &Record| e.requires((r,)),
            forall|s: &str| is_float_text(s@) ==> parse_float.requires((s,)),
            forall|x: i64| int_to_float.requires((x,)),
            forall|b: u64| float_text.requires((b,)),
        ensures
            match r {
                Ok((pipeline, s)) => {
                    &&& pipeline.source_seq().len() == 1
                    &&& pipeline.source_seq()[0] == source
                    &&& pipeline.has_sink() == sink is Some
                    &&& (sink matches Some(k) ==> pipeline.sink_seq()[0] == k)
                    &&& pipeline.stage_count() == self.stages@.len()
                    &&& (s is Some <==> self.schema.infer)
                    &&& stages_built_from::<C, E, P, I, T>(
                        self.stages@,
                        s,
                        *compile,
                        parse_float,
                        int_to_float,
                        float_text,
                        pipeline.stage_seq(),
                    )
                    &&& (s matches Some(schema) ==> exists|
                        read: Result<Vec<Result<Record, PipelineError>>, PipelineError>,
                        sample: Vec<Record>,
                    |
                        #![trigger source.gives(read), sample_outcome(read, self.schema.sample_size, Ok(sample))]
                        source.gives(read) && sample_outcome(read, self.schema.sample_size, Ok(sample))
                            && inferred_from(schema.spec_fields(), record_views(sample@)))
                    &&& stages_outcome::<C, E>(self.stages@, self.schema.infer, *compile, Ok(()))
                },
                Err(e) => {
                    ||| self.schema.infer && exists|
                        read: Result<Vec<Result<Record, PipelineError>>, PipelineError>,
                        failure: PipelineError,
                    |
                        #![trigger source.gives(read), sample_outcome(read, self.schema.sample_size, Err(failure))]
                        source.gives(read) && sample_outcome(read, self.schema.sample_size, Err(failure))
                            && e.text() == sample_error_text(failure.text())
                    ||| stages_outcome::<C, E>(self.stages@, self.schema.infer, *compile, Err(e))
                },
            },
    {
        let schema = if self.schema.infer {
            match source.read_sample(self.schema.sample_size) {
                Ok(sample) => {
                    let schema = Schema::infer(sample.as_slice());
                    proof {
                        assert(inferred_from(schema.spec_fields(), record_views(sample@)));
                    }
                    Some(schema)
                },
                Err(error) => {
                    let e = error.context("Failed to read sample for schema inference");
                    proof {
                        reveal_strlit("Failed to read sample for schema inference");
                        reveal_strlit("Failed to read sample for schema inference: ");
                        reveal_strlit(": ");
                        assert(e.text() =~= sample_error_text(error.text()));
                    }
                    return Err(e);
                },
            }
        } else {
            None
        };
        let mut sources = Vec::new();
        sources.push(source);
        proof {
            vstd::seq::axiom_seq_push_len(Seq::empty(), source);
            vstd::seq::axiom_seq_push_index_same(Seq::empty(), source, 0);
        }
        let mut sinks = Vec::new();
        if let Some(sink) = sink {
            sinks.push(sink);
            proof {
                vstd::seq::axiom_seq_push_len(Seq::empty(), sink);
                vstd::seq::axiom_seq_push_index_same(Seq::empty(), sink, 0);
            }
        }
        self.assemble_parts(sources, sinks, schema, compile, parse_float, int_to_float, float_text)
    }
}

} // verus!
