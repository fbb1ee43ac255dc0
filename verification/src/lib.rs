//! Satva: records, schemas and the stages of a record-processing pipeline.
pub mod cli;
pub mod infer;
pub mod laws;
pub mod parse;
pub mod pipeline;
pub mod prelude;
pub mod record;
pub mod schema;
pub mod sink;
pub mod source;
pub mod stages;
pub mod text;
pub mod transformer;
pub mod validation;
pub mod value;

pub use pipeline::builder::PipelineBuilder;
pub use pipeline::error::PipelineError;
pub use pipeline::log::PipelineLog;
pub use pipeline::options::{ErrorPolicy, PipelineOptions};
pub use pipeline::pipeline::Pipeline;
pub use pipeline::run_result::PipelineRunResult;
pub use pipeline::stage::{
    PipelineStage, StageContext, StageError, StageExecutionResult, StageExecutor, StageResult,
};
pub use pipeline::summary::PipelineSummary;
pub use record::Record;
pub use schema::{Field, Schema};
pub use sink::Sink;
pub use source::Source;
pub use stages::{FilterStage, RemoveFieldStage, RenameFieldStage, SelectFieldsStage, SetFieldStage};
pub use validation::SchemaValidation;
pub use value::{DataType, Value};
