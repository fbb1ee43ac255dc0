//! Counts of what happened to the records of a run.
use vstd::prelude::*;

verus! {

#[derive(Debug)]
pub struct PipelineSummary {
    pub processed: usize,
    pub succeeded: usize,
    pub skipped: usize,
    pub failed: usize,
}

impl Default for PipelineSummary {
    fn default() -> (r: PipelineSummary)
        ensures
            r == (PipelineSummary { processed: 0, succeeded: 0, skipped: 0, failed: 0 }),
    {
        PipelineSummary { processed: 0, succeeded: 0, skipped: 0, failed: 0 }
    }
}

impl PipelineSummary {
    pub fn record_processed(&mut self)
        requires
            old(self).processed < usize::MAX,
        ensures
            *final(self) == (PipelineSummary { processed: (old(self).processed + 1) as usize, ..*old(self) }),
    {
        self.processed = self.processed + 1;
    }

    pub fn record_succeeded(&mut self)
        requires
            old(self).succeeded < usize::MAX,
        ensures
            *final(self) == (PipelineSummary { succeeded: (old(self).succeeded + 1) as usize, ..*old(self) }),
    {
        self.succeeded = self.succeeded + 1;
    }

    pub fn record_skipped(&mut self)
        requires
            old(self).skipped < usize::MAX,
        ensures
            *final(self) == (PipelineSummary { skipped: (old(self).skipped + 1) as usize, ..*old(self) }),
    {
        self.skipped = self.skipped + 1;
    }

    pub fn record_failed(&mut self)
        requires
            old(self).failed < usize::MAX,
        ensures
            *final(self) == (PipelineSummary { failed: (old(self).failed + 1) as usize, ..*old(self) }),
    {
        self.failed = self.failed + 1;
    }
}

} // verus!
