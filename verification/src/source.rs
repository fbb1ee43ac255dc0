//! Where the records of a pipeline come from.
use vstd::prelude::*;

use crate::pipeline::error::PipelineError;
use crate::record::Record;

verus! {

/// Where the records of a pipeline come from.
///
/// `gives` describes a source to the verifier: what reading it may give. It
/// holds of everything unless a source says more.
pub trait Source {
    /// Reading the source may give `r`.
    open spec fn gives(&self, r: Result<Vec<Result<Record, PipelineError>>, PipelineError>) -> bool {
        true
    }

    /// Every record of the source in order, each read or failed.
    fn read(&self) -> (r: Result<Vec<Result<Record, PipelineError>>, PipelineError>)
        ensures
            self.gives(r),
    ;

    /// The first `limit` records, or the first error among them.
    fn read_sample(&self, limit: usize) -> (r: Result<Vec<Record>, PipelineError>)
        ensures
            exists|read: Result<Vec<Result<Record, PipelineError>>, PipelineError>|
                #[trigger] self.gives(read) && sample_outcome(read, limit, r),
    {
        match self.read() {
            Ok(items) => take_sample(items, limit),
            Err(error) => Err(error),
        }
    }
}

/// What reading a sample of `limit` records gives when reading the source
/// gave `read`: its error, or the first error among the first `limit` items,
/// or the records among them.
pub open spec fn sample_outcome(
    read: Result<Vec<Result<Record, PipelineError>>, PipelineError>,
    limit: usize,
    r: Result<Vec<Record>, PipelineError>,
) -> bool {
    match read {
        Err(e) => r == Err::<Vec<Record>, PipelineError>(e),
        Ok(items) => match r {
            Ok(sample) => sample@ == spec_sample(items@, limit as nat) && forall|i: int|
                0 <= i < items@.len() && i < limit ==> items@[i] is Ok,
            Err(e) => exists|i: int|
                0 <= i < items@.len() && i < limit && items@[i] == Err::<Record, PipelineError>(e)
                    && forall|j: int| 0 <= j < i ==> items@[j] is Ok,
        },
    }
}

/// The records among the first `limit` items, when none of them failed.
pub open spec fn spec_sample(items: Seq<Result<Record, PipelineError>>, limit: nat) -> Seq<Record> {
    items.take(if limit < items.len() { limit as int } else { items.len() as int }).map_values(
        |item: Result<Record, PipelineError>| item->Ok_0,
    )
}

/// The first `limit` records of `items`, or the first error among them.
pub fn take_sample(items: Vec<Result<Record, PipelineError>>, limit: usize) -> (r: Result<
    Vec<Record>,
    PipelineError,
>)
    ensures
        match r {
            Ok(sample) => sample@ == spec_sample(items@, limit as nat) && forall|i: int|
                0 <= i < items@.len() && i < limit ==> items@[i] is Ok,
            Err(e) => exists|i: int|
                0 <= i < items@.len() && i < limit && items@[i] == Err::<Record, PipelineError>(e)
                    && forall|j: int| 0 <= j < i ==> items@[j] is Ok,
        },
{
    let ghost initial = items@;
    let mut kept = items;
    kept.truncate(limit);
    let ghost all = kept@;
    proof {
        assert(all == initial.take(if limit < initial.len() { limit as int } else { initial.len() as int }));
    }
    let mut sample: Vec<Record> = Vec::new();
    for item in it: kept
        invariant
            it.seq() == all,
            initial == items@,
            all == initial.take(if limit < initial.len() { limit as int } else { initial.len() as int }),
            sample@ == all.take(it.index() as int).map_values(
                |item: Result<Record, PipelineError>| item->Ok_0,
            ),
            forall|j: int| 0 <= j < it.index() ==> all[j] is Ok,
    {
        let ghost index = it.index();
        match item {
            Ok(record) => {
                sample.push(record);
                proof {
                    assert(all.take(index + 1).map_values(
                        |item: Result<Record, PipelineError>| item->Ok_0,
                    ) =~= all.take(index as int).map_values(
                        |item: Result<Record, PipelineError>| item->Ok_0,
                    ).push(record));
                }
            },
            Err(error) => {
                proof {
                    assert(index < all.len());
                    assert(all[index as int] == Err::<Record, PipelineError>(error));
                    assert(initial[index as int] == all[index as int]);
                    assert forall|j: int| 0 <= j < index implies initial[j] is Ok by {
                        assert(initial[j] == all[j]);
                    }
                    assert(exists|i: int|
                        0 <= i < initial.len() && i < limit && initial[i] == Err::<
                            Record,
                            PipelineError,
                        >(error) && forall|j: int| 0 <= j < i ==> initial[j] is Ok);
                }
                return Err(error);
            },
        }
    }
    proof {
        assert(all.take(all.len() as int) =~= all);
        assert forall|j: int| 0 <= j < initial.len() && j < limit implies initial[j] is Ok by {
            assert(initial[j] == all[j]);
        }
    }
    Ok(sample)
}

} // verus!
