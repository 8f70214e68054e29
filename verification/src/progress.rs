//! The progress tracker: a completed-downloads counter with the name of
//! the most recently completed file. The counter only ever advances, by
//! exactly one per recorded completion, and never beyond the total fixed
//! at construction. Failed downloads are never recorded, so the counter
//! may finish below the total.

use vstd::prelude::*;

verus! {

/// Progress of one pipeline run: how many of `total` submitted downloads
/// have completed successfully, and which file finished last.
pub struct DownloadProgress {
    /// Number of downloads submitted, fixed at construction.
    pub total: usize,
    /// Number of successful completions recorded so far.
    pub current: usize,
    /// Name of the most recently completed file.
    pub last_file: String,
}

impl DownloadProgress {
    /// The tracker's invariant: the counter never exceeds the total.
    pub open spec fn wf(&self) -> bool {
        self.current <= self.total
    }

    /// A fresh tracker for `total` submitted downloads, with nothing
    /// completed yet.
    pub fn new(total: usize) -> (r: Self)
        ensures
            r.total == total,
            r.current == 0,
            r.last_file@ == Seq::<char>::empty(),
            r.wf(),
    {
        DownloadProgress { total, current: 0, last_file: String::new() }
    }

    /// Records one successful completion: the counter advances by exactly
    /// one — it neither skips nor double-counts — and the last-completed
    /// name is replaced by `filename`.
    pub fn increment(&mut self, filename: &str)
        requires
            old(self).current < old(self).total,
        ensures
            final(self).current == old(self).current + 1,
            final(self).total == old(self).total,
            final(self).last_file@ == filename@,
            final(self).wf(),
    {
        self.current = self.current + 1;
        self.last_file = filename.to_owned();
    }

    /// Whether every submitted download has completed successfully.
    pub fn is_complete(&self) -> (r: bool)
        ensures
            r == (self.current == self.total),
    {
        self.current == self.total
    }

    /// The completed share in tenths of a percent, rounded down; at most
    /// one thousand while the invariant holds.
    pub fn percent_tenths(&self) -> (r: u32)
        requires
            self.wf(),
            self.total > 0,
        ensures
            r == (self.current as int) * 1000 / (self.total as int),
            r <= 1000,
    {
        proof {
            assert((self.current as int) * 1000 <= (self.total as int) * 1000) by (nonlinear_arith)
                requires
                    self.current <= self.total,
            ;
            assert((self.total as int) * 1000 / (self.total as int) == 1000) by (nonlinear_arith)
                requires
                    self.total > 0,
            ;
            vstd::arithmetic::div_mod::lemma_div_is_ordered(
                (self.current as int) * 1000,
                (self.total as int) * 1000,
                self.total as int,
            );
            assert((self.current as int) * 1000 <= u128::MAX) by (nonlinear_arith)
                requires
                    self.current <= usize::MAX,
            ;
        }
        let r128: u128 = (self.current as u128) * 1000 / (self.total as u128);
        r128 as u32
    }
}

} // verus!
