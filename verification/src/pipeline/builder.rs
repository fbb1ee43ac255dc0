//! Assembling a pipeline step by step.
use vstd::prelude::*;

use super::error::PipelineError;
use crate::sink::Sink;
use crate::source::Source;
use super::pipeline::Pipeline;
use super::stage::PipelineStage;

verus! {

pub struct PipelineBuilder {
    /// The source, once given, alone in a `Vec`: the verifier follows a
    /// trait object through a `Vec` but not through a plain field.
    sources: Vec<Box<dyn Source>>,
    /// The sink, once given, alone in a `Vec` for the same reason.
    sinks: Vec<Box<dyn Sink>>,
    stages: Vec<Box<dyn PipelineStage>>,
}

impl Default for PipelineBuilder {
    fn default() -> (r: PipelineBuilder)
        ensures
            r.is_empty(),
    {
        PipelineBuilder::new()
    }
}

impl PipelineBuilder {
    #[verifier::type_invariant]
    spec fn at_most_one(&self) -> bool {
        self.sources@.len() <= 1 && self.sinks@.len() <= 1
    }

    pub fn new() -> (r: PipelineBuilder)
        ensures
            r.is_empty(),
    {
        PipelineBuilder { sources: Vec::new(), sinks: Vec::new(), stages: Vec::new() }
    }

    /// Nothing has been given to the builder yet.
    pub closed spec fn is_empty(&self) -> bool {
        self.sources@.len() == 0 && self.sinks@.len() == 0 && self.stages@.len() == 0
    }

    /// The source given last, alone in a sequence, or nothing.
    pub closed spec fn source_seq(&self) -> Seq<Box<dyn Source>> {
        self.sources@
    }

    /// The sink given last, alone in a sequence, or nothing.
    pub closed spec fn sink_seq(&self) -> Seq<Box<dyn Sink>> {
        self.sinks@
    }

    pub open spec fn has_source(&self) -> bool {
        self.source_seq().len() > 0
    }

    pub open spec fn has_sink(&self) -> bool {
        self.sink_seq().len() > 0
    }

    /// How many stages have been given to the builder.
    pub closed spec fn stage_count(&self) -> nat {
        self.stages@.len()
    }

    /// The stages given to the builder, in the order they were given.
    pub closed spec fn stage_seq(&self) -> Seq<Box<dyn PipelineStage>> {
        self.stages@
    }

    /// The builder with `source` as its source, in place of any given before.
    pub fn source(self, source: Box<dyn Source>) -> (r: PipelineBuilder)
        ensures
            r.source_seq().len() == 1,
            r.source_seq()[0] == source,
            r.sink_seq() == self.sink_seq(),
            r.stage_count() == self.stage_count(),
            r.stage_seq() == self.stage_seq(),
    {
        proof {
            use_type_invariant(&self);
        }
        let mut builder = self;
        let mut sources = Vec::new();
        sources.push(source);
        proof {
            vstd::seq::axiom_seq_push_len(Seq::empty(), source);
            vstd::seq::axiom_seq_push_index_same(Seq::empty(), source, 0);
        }
        builder.sources = sources;
        builder
    }

    /// The builder with `sink` as its sink, in place of any given before.
    pub fn sink(self, sink: Box<dyn Sink>) -> (r: PipelineBuilder)
        ensures
            r.sink_seq().len() == 1,
            r.sink_seq()[0] == sink,
            r.source_seq() == self.source_seq(),
            r.stage_count() == self.stage_count(),
            r.stage_seq() == self.stage_seq(),
    {
        proof {
            use_type_invariant(&self);
        }
        let mut builder = self;
        let mut sinks = Vec::new();
        sinks.push(sink);
        proof {
            vstd::seq::axiom_seq_push_len(Seq::empty(), sink);
            vstd::seq::axiom_seq_push_index_same(Seq::empty(), sink, 0);
        }
        builder.sinks = sinks;
        builder
    }

    /// The builder with `stage` added after the stages given before.
    pub fn stage(self, stage: Box<dyn PipelineStage>) -> (r: PipelineBuilder)
        ensures
            r.source_seq() == self.source_seq(),
            r.sink_seq() == self.sink_seq(),
            r.stage_count() == self.stage_count() + 1,
            r.stage_seq() == self.stage_seq().push(stage),
    {
        proof {
            use_type_invariant(&self);
        }
        let PipelineBuilder { sources, sinks, stages } = self;
        let mut stages = stages;
        let ghost before = stages@;
        stages.push(stage);
        proof {
            vstd::seq::axiom_seq_push_len(before, stage);
        }
        PipelineBuilder { sources, sinks, stages }
    }

    /// The pipeline of the source, stages and sink given, or an error when no
    /// source was given.
    pub fn build(self) -> (r: Result<Pipeline, PipelineError>)
        ensures
            r is Ok <==> self.has_source(),
            r matches Ok(p) ==> {
                &&& p.source_seq() == self.source_seq()
                &&& p.stage_seq() == self.stage_seq()
                &&& p.stage_count() == self.stage_count()
                &&& p.sink_seq() == self.sink_seq()
            },
            r matches Err(e) ==> e.text() == "Pipeline source is required"@,
    {
        proof {
            use_type_invariant(&self);
        }
        if self.sources.len() == 0 {
            return Err(PipelineError::new("Pipeline source is required"));
        }
        let PipelineBuilder { sources, sinks, stages } = self;
        Ok(Pipeline::from_parts(sources, stages, sinks))
    }
}

} // verus!
