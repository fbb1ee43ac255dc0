//! Dropping fields from records.
use vstd::prelude::*;

use crate::pipeline::stage::{PipelineStage, StageContext, StageResult};
use crate::record::{name_set, Record};
use crate::text::owned;

verus! {

/// The names in `names`, as owned strings.
pub fn owned_names(names: &[&str]) -> (r: Vec<String>)
    ensures
        r@.len() == names@.len(),
        forall|i: int| 0 <= i < names@.len() ==> #[trigger] r@[i]@ == names@[i]@,
{
    let mut r: Vec<String> = Vec::new();
    let mut i: usize = 0;
    while i < names.len()
        invariant
            i <= names@.len(),
            r@.len() == i,
            forall|j: int| 0 <= j < i ==> #[trigger] r@[j]@ == names@[j]@,
        decreases names@.len() - i,
    {
        r.push(owned(names[i]));
        i = i + 1;
    }
    r
}

/// The names among `names`, as characters.
pub open spec fn str_set(names: Seq<&str>) -> Set<Seq<char>> {
    Set::new(|k: Seq<char>| exists|i: int| 0 <= i < names.len() && #[trigger] names[i]@ == k)
}

/// Removes the named fields from every record.
pub struct RemoveFieldStage {
    fields: Vec<String>,
}

impl RemoveFieldStage {
    pub fn new(fields: &[&str]) -> (r: RemoveFieldStage)
        ensures
            r.names() == str_set(fields@),
    {
        let owned = owned_names(fields);
        let r = Self { fields: owned };
        proof {
            assert forall|k: Seq<char>| r.names().contains(k) <==> str_set(fields@).contains(k) by {
                if r.names().contains(k) {
                    let i = choose|i: int| 0 <= i < r.fields@.len() && #[trigger] r.fields@[i]@ == k;
                    assert(fields@[i]@ == k);
                }
                if str_set(fields@).contains(k) {
                    let i = choose|i: int| 0 <= i < fields@.len() && #[trigger] fields@[i]@ == k;
                    assert(r.fields@[i]@ == k);
                }
            }
            assert(r.names() =~= str_set(fields@));
        }
        r
    }

    /// The names of the fields the stage removes.
    pub closed spec fn names(&self) -> Set<Seq<char>> {
        name_set(self.fields@)
    }
}

impl PipelineStage for RemoveFieldStage {
    open spec fn reports(&self, name: Seq<char>) -> bool {
        name == "RemoveField"@
    }

    open spec fn outcome(&self, before: Record, ctx: StageContext, result: StageResult, after: Record) -> bool {
        &&& result is Continue
        &&& after@ == before@.remove_keys(self.names())
    }

    fn name(&self) -> (r: &'static str)
        ensures
            r@ == "RemoveField"@,
    {
        "RemoveField"
    }

    fn execute(&self, record: &mut Record, ctx: &StageContext) -> (r: StageResult)
        ensures
            r is Continue,
            final(record)@ == old(record)@.remove_keys(self.names()),
    {
        let ghost initial = record@;
        let mut i: usize = 0;
        while i < self.fields.len()
            invariant
                i <= self.fields@.len(),
                record@ == initial.remove_keys(name_set(self.fields@.take(i as int))),
            decreases self.fields@.len() - i,
        {
            record.remove(self.fields[i].as_str());
            proof {
                let before = name_set(self.fields@.take(i as int));
                let after = name_set(self.fields@.take(i + 1));
                assert forall|k: Seq<char>| after.contains(k) <==> (before.contains(k) || k
                    == self.fields@[i as int]@) by {
                    if after.contains(k) {
                        let j = choose|j: int| 0 <= j < i + 1 && #[trigger] self.fields@.take(i + 1)[j]@ == k;
                        if j < i {
                            assert(self.fields@.take(i as int)[j] == self.fields@.take(i + 1)[j]);
                        }
                    }
                    if before.contains(k) {
                        let j = choose|j: int| 0 <= j < i && #[trigger] self.fields@.take(i as int)[j]@ == k;
                        assert(self.fields@.take(i + 1)[j] == self.fields@.take(i as int)[j]);
                    }
                    if k == self.fields@[i as int]@ {
                        assert(self.fields@.take(i + 1)[i as int] == self.fields@[i as int]);
                    }
                }
                assert(record@ =~= initial.remove_keys(after));
            }
            i = i + 1;
        }
        proof {
            assert(self.fields@.take(self.fields@.len() as int) =~= self.fields@);
        }
        StageResult::Continue
    }
}

} // verus!
