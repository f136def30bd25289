//! The files that wait to be scanned.
use crate::media::MediaScanJob;
use vstd::prelude::*;

verus! {

/// The files of one scan that were not scanned yet, in order. The number of a
/// scan tells it from those that were begun before and after it.
#[derive(Debug)]
pub struct ScanQueue {
    pub epoch: u64,
    pub jobs: Vec<MediaScanJob>,
}

impl ScanQueue {
    /// A queue that waits for its first scan.
    pub fn new() -> (r: Self)
        ensures
            r.epoch == 0,
            r.jobs@.len() == 0,
    {
        ScanQueue { epoch: 0, jobs: Vec::new() }
    }

    /// Begins a scan, and forgets what is left of the last one.
    pub fn begin(&mut self, epoch: u64, jobs: Vec<MediaScanJob>)
        ensures
            final(self).epoch == epoch,
            final(self).jobs == jobs,
    {
        self.epoch = epoch;
        self.jobs = jobs;
    }

    /// Whether this scan is the current one: only then a result counts, and the
    /// end of the queue is the end of the scan.
    pub fn is_current(&self, current_epoch: u64) -> (r: bool)
        ensures
            r == (self.epoch == current_epoch),
    {
        self.epoch == current_epoch
    }

    /// The file that is to be scanned next. An outdated scan ends.
    pub fn next_job(&mut self, current_epoch: u64) -> (r: Option<MediaScanJob>)
        ensures
            final(self).epoch == old(self).epoch,
            match r {
                Some(job) => old(self).epoch == current_epoch && old(self).jobs@ == seq![job]
                    + final(self).jobs@,
                None => (old(self).jobs@.len() == 0 || old(self).epoch != current_epoch)
                    && final(self).jobs@.len() == 0,
            },
    {
        if self.jobs.len() == 0 || self.epoch != current_epoch {
            self.jobs = Vec::new();
            return None;
        }
        let job = self.jobs.remove(0);
        assert(old(self).jobs@ =~= seq![job] + self.jobs@);
        Some(job)
    }
}

/// The files that a queue hands out while its scan stays the current one, in the
/// order in which it does.
pub open spec fn handed_out(jobs: Seq<MediaScanJob>, n: int) -> Seq<MediaScanJob>
    decreases n,
{
    if n <= 0 || jobs.len() == 0 {
        Seq::empty()
    } else {
        seq![jobs[0]] + handed_out(jobs.skip(1), n - 1)
    }
}

/// Every file of a scan that is not outdated is scanned once, in order.
pub proof fn every_file_is_scanned_in_order(jobs: Seq<MediaScanJob>)
    ensures
        handed_out(jobs, jobs.len() as int) == jobs,
    decreases jobs.len(),
{
    if jobs.len() > 0 {
        every_file_is_scanned_in_order(jobs.skip(1));
        assert(seq![jobs[0]] + jobs.skip(1) =~= jobs);
    }
}

} // verus!
