//! The download executor's bookkeeping: a bounded admission limit over the
//! in-flight transfers, the per-item outcomes, and their aggregation. The
//! network and filesystem work itself happens outside; this model decides
//! when a transfer may start, records every terminal outcome, and keeps
//! the progress tracker in step with the successes.

use vstd::prelude::*;

use crate::progress::DownloadProgress;

verus! {

/// The terminal result of one download task: the filename written on
/// success, or the URL with a failure description.
#[derive(Debug, Clone, PartialEq, Eq)]
pub enum DownloadOutcome {
    Success { filename: String },
    Failure { url: String, reason: String },
}

/// How many outcomes in `s` are successes.
pub open spec fn count_successes(s: Seq<DownloadOutcome>) -> int
    decreases s.len(),
{
    if s.len() == 0 {
        0
    } else {
        count_successes(s.drop_last()) + if s.last() is Success {
            1int
        } else {
            0int
        }
    }
}

/// The success count never exceeds the number of outcomes.
pub proof fn lemma_count_successes_bounds(s: Seq<DownloadOutcome>)
    ensures
        0 <= count_successes(s) <= s.len(),
    decreases s.len(),
{
    if s.len() > 0 {
        lemma_count_successes_bounds(s.drop_last());
    }
}

/// Appending one outcome raises the success count by one exactly when it
/// is a success.
pub proof fn lemma_count_successes_push(s: Seq<DownloadOutcome>, o: DownloadOutcome)
    ensures
        count_successes(s.push(o)) == count_successes(s) + if o is Success {
            1int
        } else {
            0int
        },
{
    assert(s.push(o).drop_last() =~= s);
}

/// One run of the download executor: `total` tasks submitted, at most
/// `limit` in flight at once, every finished task's outcome recorded, and
/// the progress tracker advanced once per success.
pub struct DownloadRun {
    /// The admission limit: the most transfers allowed in
    /// flight at once.
    pub limit: usize,
    /// Number of tasks submitted to the run.
    pub total: usize,
    /// Number of tasks that have been admitted so far.
    pub started: usize,
    /// Number of admitted tasks that have not finished yet.
    pub in_flight: usize,
    /// Terminal outcomes of the finished tasks, in completion order.
    pub outcomes: Vec<DownloadOutcome>,
    /// The run's progress tracker; its counter equals the successes among
    /// `outcomes`.
    pub progress: DownloadProgress,
}

impl DownloadRun {
    /// The run's invariant: the admission limit is never exceeded, bookkeeping adds
    /// up, and the tracker counts exactly the recorded successes.
    pub open spec fn wf(&self) -> bool {
        &&& 1 <= self.limit
        &&& self.in_flight <= self.limit
        &&& self.in_flight <= self.started <= self.total
        &&& self.outcomes@.len() == self.started - self.in_flight
        &&& self.progress.total == self.total
        &&& self.progress.current == count_successes(self.outcomes@)
        &&& self.progress.wf()
    }

    /// A fresh run over `total` tasks admitting at most `limit` at once.
    pub fn new(total: usize, limit: usize) -> (r: Self)
        requires
            1 <= limit,
        ensures
            r.wf(),
            r.total == total,
            r.limit == limit,
            r.started == 0,
            r.in_flight == 0,
            r.outcomes@ == Seq::<DownloadOutcome>::empty(),
            r.progress.current == 0,
    {
        let r = DownloadRun {
            limit,
            total,
            started: 0,
            in_flight: 0,
            outcomes: Vec::new(),
            progress: DownloadProgress::new(total),
        };
        proof {
            assert(r.outcomes@ =~= Seq::<DownloadOutcome>::empty());
        }
        r
    }

    /// Whether another transfer may be admitted: some task is still
    /// waiting and the admission limit leaves room.
    pub fn can_start(&self) -> (r: bool)
        ensures
            r == (self.in_flight < self.limit && self.started < self.total),
    {
        self.in_flight < self.limit && self.started < self.total
    }

    /// Admits one waiting task. The admission limit is respected: afterwards at most `limit` transfers are in flight.
    pub fn start(&mut self)
        requires
            old(self).wf(),
            old(self).in_flight < old(self).limit,
            old(self).started < old(self).total,
        ensures
            final(self).wf(),
            final(self).in_flight == old(self).in_flight + 1,
            final(self).started == old(self).started + 1,
            final(self).in_flight <= final(self).limit,
            final(self).limit == old(self).limit,
            final(self).total == old(self).total,
            final(self).outcomes == old(self).outcomes,
            final(self).progress == old(self).progress,
    {
        self.in_flight = self.in_flight + 1;
        self.started = self.started + 1;
    }

    /// Records the terminal outcome of one in-flight task: the task
    /// stops counting as in flight, its outcome is appended, and on success — and
    /// only then — the progress tracker advances by one. A failure is
    /// absorbed here: it frees its place below the limit like any success
    /// and never touches the other tasks' bookkeeping.
    pub fn complete(&mut self, outcome: DownloadOutcome)
        requires
            old(self).wf(),
            old(self).in_flight > 0,
        ensures
            final(self).wf(),
            final(self).in_flight == old(self).in_flight - 1,
            final(self).started == old(self).started,
            final(self).limit == old(self).limit,
            final(self).total == old(self).total,
            final(self).outcomes@ == old(self).outcomes@.push(outcome),
            final(self).progress.total == old(self).progress.total,
            final(self).progress.current == old(self).progress.current + (
            if outcome is Success {
                1int
            } else {
                0int
            }),
            (match outcome {
                DownloadOutcome::Success { filename } => final(self).progress.last_file@
                    == filename@,
                DownloadOutcome::Failure { .. } => final(self).progress.last_file == old(
                    self,
                ).progress.last_file,
            }),
    {
        proof {
            lemma_count_successes_bounds(self.outcomes@);
            lemma_count_successes_push(self.outcomes@, outcome);
        }
        match &outcome {
            DownloadOutcome::Success { filename } => {
                self.progress.increment(filename.as_str());
            },
            DownloadOutcome::Failure { .. } => {},
        }
        self.outcomes.push(outcome);
        self.in_flight = self.in_flight - 1;
    }
}

/// The admission bound: in a well-formed run, no more than `limit`
/// transfers are ever in flight at once.
pub proof fn lemma_admission_bounded(r: DownloadRun)
    requires
        r.wf(),
    ensures
        r.in_flight <= r.limit,
{
}

/// Progress counts successes exactly: in a well-formed run the tracker's
/// counter equals the number of successful completions recorded so far —
/// it neither skips nor double-counts, and failures never advance it.
pub proof fn lemma_progress_counts_successes(r: DownloadRun)
    requires
        r.wf(),
    ensures
        r.progress.current == count_successes(r.outcomes@),
        r.progress.current <= r.outcomes@.len(),
{
    lemma_count_successes_bounds(r.outcomes@);
}

/// A single failure is isolated: among `n` recorded outcomes of which
/// exactly one is a failure, the other `n - 1` are all counted as
/// successes.
pub proof fn lemma_one_failure_isolated(s: Seq<DownloadOutcome>, i: int)
    requires
        0 <= i < s.len(),
        s[i] is Failure,
        forall|j: int| 0 <= j < s.len() && j != i ==> s[j] is Success,
    ensures
        count_successes(s) == s.len() - 1,
    decreases s.len(),
{
    if s.len() - 1 == i {
        lemma_all_successes(s.drop_last());
    } else {
        assert(s.last() is Success);
        lemma_one_failure_isolated(s.drop_last(), i);
    }
}

/// A run with no failures counts every outcome as a success.
pub proof fn lemma_all_successes(s: Seq<DownloadOutcome>)
    requires
        forall|j: int| 0 <= j < s.len() ==> s[j] is Success,
    ensures
        count_successes(s) == s.len(),
    decreases s.len(),
{
    if s.len() > 0 {
        lemma_all_successes(s.drop_last());
    }
}

/// Counts the successes among recorded outcomes, for the final report.
pub fn count_successes_exec(outcomes: &Vec<DownloadOutcome>) -> (r: usize)
    ensures
        r == count_successes(outcomes@),
{
    let n = outcomes.len();
    let mut r: usize = 0;
    let mut i: usize = 0;
    proof {
        assert(outcomes@.take(0) =~= Seq::<DownloadOutcome>::empty());
        lemma_count_successes_bounds(outcomes@);
    }
    while i < n
        invariant
            n == outcomes@.len(),
            i <= n,
            r == count_successes(outcomes@.take(i as int)),
            r <= i,
        decreases n - i,
    {
        proof {
            assert(outcomes@.take(i + 1).drop_last() =~= outcomes@.take(i as int));
            assert(outcomes@.take(i + 1).last() == outcomes@[i as int]);
            lemma_count_successes_bounds(outcomes@.take(i as int));
        }
        match &outcomes[i] {
            DownloadOutcome::Success { .. } => {
                r = r + 1;
            },
            DownloadOutcome::Failure { .. } => {},
        }
        i += 1;
    }
    proof {
        assert(outcomes@.take(n as int) =~= outcomes@);
    }
    r
}

} // verus!
