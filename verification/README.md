# satva_core

Records, schemas and the stages of a record-processing pipeline, with
contracts proved by Verus.

- `src/record.rs`, `src/value.rs`, `src/schema.rs`: records as maps from
  field names to values; values with IEEE float equality; schemas.
- `src/infer.rs`: schema inference by majority vote over sample records.
- `src/validation.rs`: schema validation with type coercion.
- `src/stages/`: rename, select, remove, filter and set-field stages.
- `src/pipeline/`: options, logs, summaries, the stage executor, the
  builder and the pipeline run; `trace.rs` states what a run gives in terms
  of what its source may give (`Source::gives`), what its stages may do
  (`PipelineStage::outcome` and `reports`) and how its sink may answer
  after the records written to it (`Sink::answers` and `finishes`). These
  hooks hold of everything unless an implementation says more; the stages
  of this library say exactly what they do.
- `src/cli/`: the stages and configuration of the command-line program.
- `src/parse.rs`, `src/text.rs`: integer and boolean text as std reads and
  writes it, and which texts std reads as floats (reading and writing float
  values is left to closures).
- `src/laws.rs`: properties that span several operations.
- `app/`: the `satva` command: YAML loading, JSONL/CSV I/O through the
  project's I/O crate, expression parsing, float arithmetic.

Floating-point work and expression evaluation are handed to the library as
closures, so the library's contracts hold for every closure that meets the
stated preconditions.
