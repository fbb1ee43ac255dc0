//! Where the records that pass every stage go.
use vstd::prelude::*;

use crate::pipeline::error::PipelineError;
use crate::record::Record;

verus! {

/// Where the records that pass every stage go.
///
/// `answers` and `finishes` describe a sink to the verifier, from its
/// present state: after being handed `earlier` in order, what it may answer
/// when handed one more record, and what finishing it may give. Writing a
/// record moves the sink on by that record. Both hold of everything unless
/// a sink says more.
pub trait Sink {
    /// Handed the records `earlier` in order and then `record`, the sink may
    /// answer `r` to `record`.
    open spec fn answers(&self, earlier: Seq<Record>, record: Record, r: Result<(), PipelineError>) -> bool {
        true
    }

    /// Handed the records `earlier` in order and then finished, the sink may
    /// answer `r`.
    open spec fn finishes(&self, earlier: Seq<Record>, r: Result<(), PipelineError>) -> bool {
        true
    }

    /// Flush pending output before a run returns, including after a
    /// processing error. This is not a transaction commit or a guarantee of
    /// disk durability. A sink with nothing to flush answers `Ok(())`.
    fn finish(&mut self) -> (r: Result<(), PipelineError>)
        ensures
            old(self).finishes(Seq::empty(), r),
    ;

    /// Take one record. The sink afterwards answers as it would have after
    /// `record`.
    fn write(&mut self, record: &Record) -> (r: Result<(), PipelineError>)
        ensures
            old(self).answers(Seq::empty(), *record, r),
            forall|earlier: Seq<Record>, next: Record, a: Result<(), PipelineError>|
                #[trigger] final(self).answers(earlier, next, a) == old(self).answers(
                    seq![*record] + earlier,
                    next,
                    a,
                ),
            forall|earlier: Seq<Record>, f: Result<(), PipelineError>|
                #[trigger] final(self).finishes(earlier, f) == old(self).finishes(
                    seq![*record] + earlier,
                    f,
                ),
    ;
}

} // verus!
