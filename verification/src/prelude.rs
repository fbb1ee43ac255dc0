//! The items most pipelines need.
pub use crate::{
    ErrorPolicy, Pipeline, PipelineBuilder, PipelineError, PipelineLog, PipelineOptions,
    PipelineRunResult, PipelineStage, PipelineSummary, Record, SchemaValidation, Sink, Source,
    StageContext, StageError, StageResult, Value,
};

pub use crate::stages::{
    FilterStage, RemoveFieldStage, RenameFieldStage, SelectFieldsStage, SetFieldStage,
};
