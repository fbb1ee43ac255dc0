//! A fixed source of two records, for trying pipelines out.
use vstd::prelude::*;

use crate::pipeline::error::PipelineError;
use crate::record::Record;
use crate::source::Source;
use crate::value::Value;

verus! {

/// The record at `index` of the mock source: `fname` "Hardik" with `age`
/// 21, then `age` 30 alone.
pub open spec fn is_mock_record(index: int, m: Map<Seq<char>, Value>) -> bool {
    if index == 0 {
        &&& m.dom() == set!["fname"@, "age"@]
        &&& m["fname"@] matches Value::String(s) && s@ == "Hardik"@
        &&& m["age"@] == Value::Int64(21)
    } else {
        &&& index == 1
        &&& m.dom() == set!["age"@]
        &&& m["age"@] == Value::Int64(30)
    }
}

/// A source that always reads the same two records.
pub struct MockSource;

/// What reading the mock source gives: its two records.
pub open spec fn mock_read(r: Result<Vec<Result<Record, PipelineError>>, PipelineError>) -> bool {
    r matches Ok(items) && items@.len() == 2 && (items@[0] matches Ok(first) && is_mock_record(
        0,
        first@,
    )) && (items@[1] matches Ok(second) && is_mock_record(1, second@))
}

impl Source for MockSource {
    open spec fn gives(&self, r: Result<Vec<Result<Record, PipelineError>>, PipelineError>) -> bool {
        mock_read(r)
    }

    fn read(&self) -> (r: Result<Vec<Result<Record, PipelineError>>, PipelineError>)
        ensures
            r matches Ok(items) && items@.len() == 2 && (items@[0] matches Ok(first)
                && is_mock_record(0, first@)) && (items@[1] matches Ok(second) && is_mock_record(
                1,
                second@,
            )),
    {
        let mut record1 = Record::new();
        record1.insert("fname", Value::string("Hardik"));
        record1.insert("age", Value::int64(21));
        let mut record2 = Record::new();
        record2.insert("age", Value::int64(30));
        let ghost first = record1@;
        let ghost second = record2@;
        let items = vec![Ok(record1), Ok(record2)];
        proof {
            reveal_strlit("fname");
            reveal_strlit("age");
            assert("fname"@.len() != "age"@.len());
            assert("fname"@ != "age"@);
            assert(first.dom() =~= set!["fname"@, "age"@]);
            assert(second.dom() =~= set!["age"@]);
            assert(is_mock_record(0, first));
            assert(is_mock_record(1, second));
        }
        let r = Ok(items);
        proof {
            assert(mock_read(r));
            assert(self.gives(r));
        }
        r
    }
}

} // verus!
