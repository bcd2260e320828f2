//! The books of a run of download jobs.
//!
//! The caller fetches and writes; the executor decides and records. It says
//! which job may start next, so that no more than [`MAX_IN_FLIGHT`] fetches
//! run at a time; it takes each result as it arrives and groups the results
//! into batches, a batch being closed when it holds [`BATCH_SIZE`] results or
//! when [`BATCH_WINDOW`] time units have passed since it was opened; and once
//! all fetches are back it hands the results out, in the order in which they
//! arrived, to be written or reported. A job that fails is recorded and
//! reported; it neither stops the others nor is tried again.

use crate::downloader::{jobs_view, DownloadJob, JobView};
use vstd::prelude::*;

verus! {

/// How many fetches may run at the same time.
pub const MAX_IN_FLIGHT: usize = 3;

/// How many results close a batch.
pub const BATCH_SIZE: usize = 3;

/// After how many time units an open batch is closed, full or not.
pub const BATCH_WINDOW: u64 = 20;

/// Where a job stands. A job only moves forward: from `Queued` to
/// `InFlight`, from there to `Completed` or `Failed`, and from `Completed` to
/// `Persisted`.
#[derive(Clone, Copy, Debug, PartialEq, Eq, Structural)]
pub enum JobStatus {
    /// Not started yet.
    Queued,
    /// Its fetch is running.
    InFlight,
    /// Its fetch brought a payload.
    Completed,
    /// Its fetch failed.
    Failed,
    /// Its payload has been written to its destination.
    Persisted,
}

/// How a fetch ended.
#[derive(Debug, PartialEq, Eq)]
pub enum Outcome {
    /// The fetch brought this payload.
    Fetched(String),
    /// The fetch failed; the text is the transport's message.
    Failed(String),
}

/// The mathematical content of an [`Outcome`].
pub enum OutcomeView {
    Fetched(Seq<char>),
    Failed(Seq<char>),
}

impl View for Outcome {
    type V = OutcomeView;

    open spec fn view(&self) -> OutcomeView {
        match self {
            Outcome::Fetched(payload) => OutcomeView::Fetched(payload@),
            Outcome::Failed(message) => OutcomeView::Failed(message@),
        }
    }
}

/// The result of one job: which job, and how its fetch ended.
#[derive(Debug, PartialEq, Eq)]
pub struct Completion {
    /// The job's place in the job list.
    pub job: usize,
    /// How its fetch ended.
    pub outcome: Outcome,
}

/// The mathematical content of a [`Completion`].
pub struct CompletionView {
    pub job: int,
    pub outcome: OutcomeView,
}

impl View for Completion {
    type V = CompletionView;

    open spec fn view(&self) -> CompletionView {
        CompletionView { job: self.job as int, outcome: self.outcome@ }
    }
}

/// The contents of a list of results.
pub open spec fn results_view(results: Seq<Completion>) -> Seq<CompletionView> {
    results.map_values(|c: Completion| c@)
}

/// The status that a job takes when its fetch ends with `outcome`.
pub open spec fn status_after(outcome: OutcomeView) -> JobStatus {
    match outcome {
        OutcomeView::Fetched(_) => JobStatus::Completed,
        OutcomeView::Failed(_) => JobStatus::Failed,
    }
}

/// Whether `status` may stand for a job whose fetch ended with `outcome`.
pub open spec fn status_fits(status: JobStatus, outcome: OutcomeView) -> bool {
    match outcome {
        OutcomeView::Fetched(_) => status == JobStatus::Completed || status
            == JobStatus::Persisted,
        OutcomeView::Failed(_) => status == JobStatus::Failed,
    }
}

/// Whether the fetch of a job of this status is back.
pub open spec fn is_back(status: JobStatus) -> bool {
    status == JobStatus::Completed || status == JobStatus::Failed || status
        == JobStatus::Persisted
}

/// How many of the jobs are in flight.
pub open spec fn count_in_flight(status: Seq<JobStatus>) -> nat
    decreases status.len(),
{
    if status.len() == 0 {
        0
    } else {
        count_in_flight(status.drop_last()) + if status.last() == JobStatus::InFlight {
            1nat
        } else {
            0nat
        }
    }
}

/// The books of a run, as mathematics.
pub struct ExecutorView {
    /// The jobs, in the order in which they were handed in.
    pub jobs: Seq<JobView>,
    /// Where each job stands.
    pub status: Seq<JobStatus>,
    /// How many jobs have been started; jobs start in the order of the list.
    pub started: nat,
    /// How many fetches are running.
    pub in_flight: nat,
    /// The results, in the order in which they arrived.
    pub results: Seq<CompletionView>,
    /// Where in `results` each closed batch ends.
    pub cuts: Seq<nat>,
    /// When the open batch was opened.
    pub batch_opened: u64,
    /// How many results have been handed out for writing.
    pub written: nat,
}

impl ExecutorView {
    /// Where in `results` the open batch begins.
    pub open spec fn open_from(self) -> nat {
        if self.cuts.len() == 0 {
            0
        } else {
            self.cuts.last()
        }
    }

    /// Where in `results` the closed batch `k` begins.
    pub open spec fn batch_from(self, k: int) -> nat {
        if k == 0 {
            0
        } else {
            self.cuts[k - 1]
        }
    }

    /// The closed batch `k`.
    pub open spec fn batch(self, k: int) -> Seq<CompletionView> {
        self.results.subrange(self.batch_from(k) as int, self.cuts[k] as int)
    }

    /// The first `n` closed batches, one after the other.
    pub open spec fn batches_joined(self, n: nat) -> Seq<CompletionView>
        decreases n,
    {
        if n == 0 {
            Seq::empty()
        } else {
            self.batches_joined((n - 1) as nat) + self.batch(n - 1)
        }
    }

    /// The results that no closed batch holds yet.
    pub open spec fn open_batch(self) -> Seq<CompletionView> {
        self.results.skip(self.open_from() as int)
    }

    /// The books are consistent and the open batch is not full.
    pub open spec fn wf(self) -> bool {
        &&& self.consistent()
        &&& self.results.len() < self.open_from() + BATCH_SIZE
    }

    /// The books are consistent; the open batch may be full and about to be
    /// closed.
    pub open spec fn consistent(self) -> bool {
        &&& self.status.len() == self.jobs.len()
        &&& self.started <= self.jobs.len()
        &&& forall|j: int|
            0 <= j < self.status.len() ==> (j < self.started <==> #[trigger] self.status[j]
                != JobStatus::Queued)
        &&& self.in_flight == count_in_flight(self.status)
        &&& self.in_flight <= MAX_IN_FLIGHT
        &&& self.results.len() + self.in_flight == self.started
        &&& forall|k: int|
            0 <= k < self.results.len() ==> 0 <= (#[trigger] self.results[k]).job
                < self.jobs.len() && status_fits(
                self.status[self.results[k].job],
                self.results[k].outcome,
            )
        &&& forall|k: int, l: int|
            0 <= k < l < self.results.len() ==> (#[trigger] self.results[k]).job != (
            #[trigger] self.results[l]).job
        &&& forall|j: int|
            0 <= j < self.status.len() && is_back(#[trigger] self.status[j]) ==> exists|k: int|
                0 <= k < self.results.len() && (#[trigger] self.results[k]).job == j
        &&& forall|k: int|
            0 <= k < self.cuts.len() ==> self.batch_from(k) <= #[trigger] self.cuts[k]
                <= self.batch_from(k) + BATCH_SIZE
        &&& self.open_from() <= self.results.len() <= self.open_from() + BATCH_SIZE
        &&& self.written <= self.results.len()
    }

    /// The books at the start of a run of `jobs` at time `now`.
    pub open spec fn start(jobs: Seq<JobView>, now: u64) -> ExecutorView {
        ExecutorView {
            jobs,
            status: Seq::new(jobs.len(), |j: int| JobStatus::Queued),
            started: 0,
            in_flight: 0,
            results: Seq::empty(),
            cuts: Seq::empty(),
            batch_opened: now,
            written: 0,
        }
    }

    /// Whether another job may start: one is left, and fewer than
    /// [`MAX_IN_FLIGHT`] are running.
    pub open spec fn can_start(self) -> bool {
        self.in_flight < MAX_IN_FLIGHT && self.started < self.jobs.len()
    }

    /// The books after the next job has started.
    pub open spec fn after_start(self) -> ExecutorView {
        ExecutorView {
            status: self.status.update(self.started as int, JobStatus::InFlight),
            started: self.started + 1,
            in_flight: self.in_flight + 1,
            ..self
        }
    }

    /// Whether the window of the open batch has passed at time `now`.
    pub open spec fn window_passed(self, now: u64) -> bool {
        now >= self.batch_opened && now - self.batch_opened >= BATCH_WINDOW
    }

    /// The books after the open batch, empty or not, was closed at `now`.
    pub open spec fn close_batch(self, now: u64) -> ExecutorView {
        ExecutorView { cuts: self.cuts.push(self.results.len()), batch_opened: now, ..self }
    }

    /// The books after the clock was looked at: the open batch is closed if
    /// its window has passed.
    pub open spec fn after_tick(self, now: u64) -> ExecutorView {
        if self.window_passed(now) {
            self.close_batch(now)
        } else {
            self
        }
    }

    /// The books after the result of `job` was entered, without regard to
    /// batches.
    pub open spec fn record(self, job: int, outcome: OutcomeView) -> ExecutorView {
        ExecutorView {
            status: self.status.update(job, status_after(outcome)),
            in_flight: (self.in_flight - 1) as nat,
            results: self.results.push(CompletionView { job, outcome }),
            ..self
        }
    }

    /// The books after the fetch of `job` ended with `outcome` at `now`: a
    /// batch whose window has passed is closed first, the result joins the
    /// open batch, and that batch is closed if it is full now.
    pub open spec fn after_complete(self, job: int, outcome: OutcomeView, now: u64) -> ExecutorView {
        let recorded = self.after_tick(now).record(job, outcome);
        if recorded.open_batch().len() >= BATCH_SIZE {
            recorded.close_batch(now)
        } else {
            recorded
        }
    }

    /// Whether every job has been started and every fetch is back.
    pub open spec fn fetching_done(self) -> bool {
        self.started == self.jobs.len() && self.in_flight == 0
    }

    /// The books after the run of fetches was closed: what is left in the
    /// open batch becomes the last batch.
    pub open spec fn after_finish(self) -> ExecutorView {
        if self.open_batch().len() > 0 {
            self.close_batch(self.batch_opened)
        } else {
            self
        }
    }
}

/// What to do with one result once all fetches are back.
#[derive(Debug, PartialEq, Eq)]
pub enum WriteStep {
    /// Write `payload` to `destination_path`, replacing what is there.
    Persist { job: usize, destination_path: String, payload: String },
    /// Tell the user that the job failed.
    Report { job: usize, line: String },
}

/// The mathematical content of a [`WriteStep`].
pub enum WriteStepView {
    Persist { job: int, destination_path: Seq<char>, payload: Seq<char> },
    Report { job: int, line: Seq<char> },
}

impl View for WriteStep {
    type V = WriteStepView;

    open spec fn view(&self) -> WriteStepView {
        match self {
            WriteStep::Persist { job, destination_path, payload } => WriteStepView::Persist {
                job: *job as int,
                destination_path: destination_path@,
                payload: payload@,
            },
            WriteStep::Report { job, line } => WriteStepView::Report {
                job: *job as int,
                line: line@,
            },
        }
    }
}

/// The line that reports a fetch that failed.
pub open spec fn fetch_failure_line(job: JobView, message: Seq<char>) -> Seq<char> {
    "Error in download job "@ + job.source_url + ": "@ + message
}

/// The line that reports a payload that could not be written.
pub open spec fn write_failure_line(job: JobView, message: Seq<char>) -> Seq<char> {
    "Error writing "@ + job.destination_path + ": "@ + message
}

/// What to do with `result`: write the payload of a fetch that succeeded to
/// the destination of its job, report one that failed.
pub open spec fn write_step(jobs: Seq<JobView>, result: CompletionView) -> WriteStepView {
    match result.outcome {
        OutcomeView::Fetched(payload) => WriteStepView::Persist {
            job: result.job,
            destination_path: jobs[result.job].destination_path,
            payload,
        },
        OutcomeView::Failed(message) => WriteStepView::Report {
            job: result.job,
            line: fetch_failure_line(jobs[result.job], message),
        },
    }
}

/// The books of a run of download jobs.
#[derive(Debug)]
pub struct Executor {
    jobs: Vec<DownloadJob>,
    status: Vec<JobStatus>,
    started: usize,
    in_flight: usize,
    results: Vec<Completion>,
    cuts: Vec<usize>,
    batch_opened: u64,
    written: usize,
}

impl View for Executor {
    type V = ExecutorView;

    closed spec fn view(&self) -> ExecutorView {
        ExecutorView {
            jobs: jobs_view(self.jobs@),
            status: self.status@,
            started: self.started as nat,
            in_flight: self.in_flight as nat,
            results: results_view(self.results@),
            cuts: self.cuts@.map_values(|c: usize| c as nat),
            batch_opened: self.batch_opened,
            written: self.written as nat,
        }
    }
}

impl Executor {
    /// The books are consistent.
    pub open spec fn wf(&self) -> bool {
        self@.wf()
    }

    /// Opens the books for `jobs` at time `now`: nothing has started, and the
    /// first batch is open and empty.
    pub fn new(jobs: Vec<DownloadJob>, now: u64) -> (executor: Executor)
        ensures
            executor@ == ExecutorView::start(jobs_view(jobs@), now),
            executor.wf(),
    {
        let mut status: Vec<JobStatus> = Vec::new();
        let mut i: usize = 0;
        while i < jobs.len()
            invariant
                i <= jobs.len(),
                status@.len() == i,
                forall|j: int| 0 <= j < i ==> status@[j] == JobStatus::Queued,
            decreases jobs.len() - i,
        {
            status.push(JobStatus::Queued);
            i = i + 1;
        }
        let executor = Executor {
            jobs,
            status,
            started: 0,
            in_flight: 0,
            results: Vec::new(),
            cuts: Vec::new(),
            batch_opened: now,
            written: 0,
        };
        proof {
            let view = ExecutorView::start(jobs_view(jobs@), now);
            assert(executor@.status =~= view.status);
            assert(executor@.results =~= view.results);
            assert(executor@.cuts =~= view.cuts);
            lemma_start_wf(jobs_view(jobs@), now);
        }
        executor
    }

    /// How many jobs the run has.
    pub fn len(&self) -> (n: usize)
        ensures
            n == self@.jobs.len(),
    {
        self.jobs.len()
    }

    /// The job at `index`.
    pub fn job(&self, index: usize) -> (job: &DownloadJob)
        requires
            index < self@.jobs.len(),
        ensures
            job@ == self@.jobs[index as int],
    {
        &self.jobs[index]
    }

    /// Where the job at `index` stands.
    pub fn status(&self, index: usize) -> (status: JobStatus)
        requires
            index < self@.status.len(),
        ensures
            status == self@.status[index as int],
    {
        self.status[index]
    }

    /// How many fetches are running.
    pub fn in_flight(&self) -> (n: usize)
        ensures
            n == self@.in_flight,
    {
        self.in_flight
    }

    /// Starts the next job of the list if fewer than [`MAX_IN_FLIGHT`] are
    /// running and one is left, and says which; otherwise changes nothing.
    pub fn start_next(&mut self) -> (next: Option<usize>)
        requires
            old(self).wf(),
        ensures
            final(self).wf(),
            next is Some ==> next->0 < final(self)@.jobs.len(),
            old(self)@.can_start() ==> next == Some(old(self)@.started as usize) && final(self)@
                == old(self)@.after_start(),
            !old(self)@.can_start() ==> next is None && final(self)@ == old(self)@,
    {
        if self.in_flight < MAX_IN_FLIGHT && self.started < self.jobs.len() {
            let index = self.started;
            self.status.set(index, JobStatus::InFlight);
            self.started = self.started + 1;
            self.in_flight = self.in_flight + 1;
            proof {
                assert(self@.status =~= old(self)@.after_start().status);
                lemma_after_start_wf(old(self)@);
            }
            Some(index)
        } else {
            None
        }
    }

    /// Whether the window of the open batch has passed at time `now`.
    pub fn window_passed(&self, now: u64) -> (passed: bool)
        ensures
            passed == self@.window_passed(now),
    {
        now >= self.batch_opened && now - self.batch_opened >= BATCH_WINDOW
    }

    /// The time at which the window of the open batch passes, or the last
    /// time there is if the window reaches beyond it.
    pub fn deadline(&self) -> (at: u64)
        ensures
            at == if self@.batch_opened + BATCH_WINDOW <= u64::MAX {
                self@.batch_opened + BATCH_WINDOW
            } else {
                u64::MAX as int
            },
    {
        if self.batch_opened <= u64::MAX - BATCH_WINDOW {
            self.batch_opened + BATCH_WINDOW
        } else {
            u64::MAX
        }
    }

    /// Closes the open batch, empty or not, and opens the next at `now`.
    fn close_batch(&mut self, now: u64)
        requires
            old(self)@.consistent(),
        ensures
            final(self).wf(),
            final(self)@ == old(self)@.close_batch(now),
    {
        self.cuts.push(self.results.len());
        self.batch_opened = now;
        proof {
            assert(self@.cuts =~= old(self)@.close_batch(now).cuts);
            lemma_close_batch_wf(old(self)@, now);
        }
    }

    /// Where in the results the open batch begins.
    fn open_from(&self) -> (from: usize)
        requires
            self@.consistent(),
        ensures
            from == self@.open_from(),
            from <= self@.results.len(),
    {
        if self.cuts.len() == 0 {
            0
        } else {
            self.cuts[self.cuts.len() - 1]
        }
    }

    /// Looks at the clock: closes the open batch, empty or not, if its window
    /// has passed at `now`, and opens the next.
    pub fn tick(&mut self, now: u64)
        requires
            old(self).wf(),
        ensures
            final(self).wf(),
            final(self)@ == old(self)@.after_tick(now),
    {
        if self.window_passed(now) {
            self.close_batch(now);
        }
    }

    /// Whether the fetch of the job at `index` is running.
    pub fn is_in_flight(&self, index: usize) -> (b: bool)
        requires
            self.wf(),
        ensures
            b == (index < self@.jobs.len() && self@.status[index as int] == JobStatus::InFlight),
    {
        index < self.status.len() && self.status[index] == JobStatus::InFlight
    }

    /// Enters the result of the fetch of `job`, which ended with `outcome` at
    /// `now`. A batch whose window has passed is closed first; the result
    /// joins the open batch; that batch is closed if it is full now. Says
    /// `false` and changes nothing if no fetch of `job` is running.
    pub fn complete(&mut self, job: usize, outcome: Outcome, now: u64) -> (accepted: bool)
        requires
            old(self).wf(),
        ensures
            final(self).wf(),
            accepted == (job < old(self)@.jobs.len() && old(self)@.status[job as int]
                == JobStatus::InFlight),
            accepted ==> final(self)@ == old(self)@.after_complete(job as int, outcome@, now),
            !accepted ==> final(self)@ == old(self)@,
    {
        if !self.is_in_flight(job) {
            return false;
        }
        self.tick(now);
        let ghost ticked = self@;
        let status = match &outcome {
            Outcome::Fetched(_) => JobStatus::Completed,
            Outcome::Failed(_) => JobStatus::Failed,
        };
        proof {
            lemma_record_wf(ticked, job as int, outcome@);
        }
        self.status.set(job, status);
        self.in_flight = self.in_flight - 1;
        self.results.push(Completion { job, outcome });
        proof {
            let recorded = ticked.record(job as int, outcome@);
            assert(self@.results =~= recorded.results);
            assert(self@ == recorded);
        }
        let from = self.open_from();
        if self.results.len() - from >= BATCH_SIZE {
            self.close_batch(now);
        }
        true
    }

    /// Whether every job has been started and every fetch is back.
    pub fn fetching_done(&self) -> (done: bool)
        ensures
            done == self@.fetching_done(),
    {
        self.started == self.jobs.len() && self.in_flight == 0
    }

    /// Closes the run of fetches: what is left in the open batch becomes the
    /// last batch. With an empty open batch nothing changes.
    pub fn finish(&mut self)
        requires
            old(self).wf(),
        ensures
            final(self).wf(),
            final(self)@ == old(self)@.after_finish(),
    {
        let from = self.open_from();
        if self.results.len() > from {
            let opened = self.batch_opened;
            self.close_batch(opened);
        }
    }

    /// The results so far, in the order in which they arrived.
    pub fn results(&self) -> (results: &Vec<Completion>)
        ensures
            results_view(results@) == self@.results,
    {
        &self.results
    }

    /// Where in the results each closed batch ends.
    pub fn cuts(&self) -> (cuts: &Vec<usize>)
        ensures
            cuts@.map_values(|c: usize| c as nat) == self@.cuts,
    {
        &self.cuts
    }

    /// Hands out the next result to write or report, in the order in which
    /// the results arrived. Hands out nothing while a job is still to start
    /// or a fetch is still running, and nothing once every result has been
    /// handed out.
    pub fn next_write(&mut self) -> (step: Option<WriteStep>)
        requires
            old(self).wf(),
        ensures
            final(self).wf(),
            match step {
                Some(s) => {
                    &&& old(self)@.fetching_done()
                    &&& old(self)@.written < old(self)@.results.len()
                    &&& s@ == write_step(
                        old(self)@.jobs,
                        old(self)@.results[old(self)@.written as int],
                    )
                    &&& final(self)@ == (ExecutorView {
                        written: old(self)@.written + 1,
                        ..old(self)@
                    })
                },
                None => {
                    &&& !(old(self)@.fetching_done() && old(self)@.written
                        < old(self)@.results.len())
                    &&& final(self)@ == old(self)@
                },
            },
    {
        if !self.fetching_done() || self.written >= self.results.len() {
            return None;
        }
        let index = self.written;
        let job = self.results[index].job;
        assert(self@.results[index as int].job == job);
        let step = match &self.results[index].outcome {
            Outcome::Fetched(payload) => WriteStep::Persist {
                job,
                destination_path: self.jobs[job].destination_path.clone(),
                payload: payload.clone(),
            },
            Outcome::Failed(message) => {
                let mut line = "Error in download job ".to_owned();
                line.append(self.jobs[job].source_url.as_str());
                line.append(": ");
                line.append(message.as_str());
                WriteStep::Report { job, line }
            },
        };
        self.written = self.written + 1;
        Some(step)
    }

    /// Records that the payload of `job` has been written to its destination.
    /// Says `false` and changes nothing unless the job's fetch brought a
    /// payload that has not been recorded as written yet.
    pub fn persisted(&mut self, job: usize) -> (accepted: bool)
        requires
            old(self).wf(),
        ensures
            final(self).wf(),
            accepted == (job < old(self)@.jobs.len() && old(self)@.status[job as int]
                == JobStatus::Completed),
            accepted ==> final(self)@ == (ExecutorView {
                status: old(self)@.status.update(job as int, JobStatus::Persisted),
                ..old(self)@
            }),
            !accepted ==> final(self)@ == old(self)@,
    {
        if job < self.status.len() && self.status[job] == JobStatus::Completed {
            self.status.set(job, JobStatus::Persisted);
            proof {
                lemma_persisted_wf(old(self)@, job as int);
            }
            true
        } else {
            false
        }
    }

    /// The line that reports that the payload of the job at `index` could not
    /// be written; `message` is the system's message. The run goes on.
    pub fn write_failed(&self, index: usize, message: &str) -> (line: String)
        requires
            index < self@.jobs.len(),
        ensures
            line@ == write_failure_line(self@.jobs[index as int], message@),
    {
        let mut line = "Error writing ".to_owned();
        line.append(self.jobs[index].destination_path.as_str());
        line.append(": ");
        line.append(message);
        line
    }
}

/// The books of a run that has just been opened are consistent.
pub proof fn lemma_start_wf(jobs: Seq<JobView>, now: u64)
    ensures
        ExecutorView::start(jobs, now).wf(),
{
    lemma_none_in_flight(ExecutorView::start(jobs, now).status);
}

/// Starting a job keeps the books consistent.
pub proof fn lemma_after_start_wf(v: ExecutorView)
    requires
        v.wf(),
        v.can_start(),
    ensures
        v.after_start().wf(),
{
    let after = v.after_start();
    lemma_count_update(v.status, v.started as int, JobStatus::InFlight);
    assert forall|j: int|
        0 <= j < after.status.len() && is_back(#[trigger] after.status[j]) implies exists|k: int|
        0 <= k < after.results.len() && (#[trigger] after.results[k]).job == j by {
        assert(is_back(v.status[j]));
        let k = choose|k: int| 0 <= k < v.results.len() && (#[trigger] v.results[k]).job == j;
        assert(after.results[k].job == j);
    }
    assert forall|k: int| 0 <= k < after.results.len() implies 0 <= (
    #[trigger] after.results[k]).job < after.jobs.len() && status_fits(
        after.status[after.results[k].job],
        after.results[k].outcome,
    ) by {
        assert(v.results[k].job != v.started);
    }
}

/// Closing the open batch keeps the books consistent.
pub proof fn lemma_close_batch_wf(v: ExecutorView, now: u64)
    requires
        v.consistent(),
    ensures
        v.close_batch(now).wf(),
{
    let after = v.close_batch(now);
    assert forall|k: int| 0 <= k < after.cuts.len() implies after.batch_from(k)
        <= #[trigger] after.cuts[k] <= after.batch_from(k) + BATCH_SIZE by {
        if k < v.cuts.len() {
            assert(after.cuts[k] == v.cuts[k]);
            assert(after.batch_from(k) == v.batch_from(k));
        } else {
            assert(after.batch_from(k) == v.open_from());
        }
    }
}

/// Entering the result of a running fetch keeps the books consistent; the
/// open batch may be full afterwards.
pub proof fn lemma_record_wf(v: ExecutorView, job: int, outcome: OutcomeView)
    requires
        v.wf(),
        0 <= job < v.jobs.len(),
        v.status[job] == JobStatus::InFlight,
    ensures
        v.in_flight > 0,
        v.record(job, outcome).consistent(),
{
    let after = v.record(job, outcome);
    lemma_count_update(v.status, job, status_after(outcome));
    assert forall|k: int| 0 <= k < after.results.len() implies 0 <= (
    #[trigger] after.results[k]).job < after.jobs.len() && status_fits(
        after.status[after.results[k].job],
        after.results[k].outcome,
    ) by {
        if k < v.results.len() {
            assert(after.results[k] == v.results[k]);
            assert(status_fits(v.status[v.results[k].job], v.results[k].outcome));
        }
    }
    assert forall|k: int, l: int| 0 <= k < l < after.results.len() implies (
    #[trigger] after.results[k]).job != (#[trigger] after.results[l]).job by {
        assert(after.results[k] == v.results[k]);
        assert(status_fits(v.status[v.results[k].job], v.results[k].outcome));
        if l < v.results.len() {
            assert(after.results[l] == v.results[l]);
        }
    }
    assert forall|j: int|
        0 <= j < after.status.len() && is_back(#[trigger] after.status[j]) implies exists|k: int|
        0 <= k < after.results.len() && (#[trigger] after.results[k]).job == j by {
        if j == job {
            assert(after.results[v.results.len() as int].job == j);
        } else {
            assert(is_back(v.status[j]));
            let k = choose|k: int| 0 <= k < v.results.len() && (#[trigger] v.results[k]).job == j;
            assert(after.results[k].job == j);
        }
    }
    assert forall|j: int| 0 <= j < after.status.len() implies (j < after.started
        <==> #[trigger] after.status[j] != JobStatus::Queued) by {
        assert(j < v.started <==> v.status[j] != JobStatus::Queued);
    }
}

/// Recording that a payload was written keeps the books consistent.
pub proof fn lemma_persisted_wf(v: ExecutorView, job: int)
    requires
        v.wf(),
        0 <= job < v.jobs.len(),
        v.status[job] == JobStatus::Completed,
    ensures
        (ExecutorView { status: v.status.update(job, JobStatus::Persisted), ..v }).wf(),
{
    let after = ExecutorView { status: v.status.update(job, JobStatus::Persisted), ..v };
    lemma_count_update(v.status, job, JobStatus::Persisted);
    assert forall|k: int| 0 <= k < after.results.len() implies 0 <= (
    #[trigger] after.results[k]).job < after.jobs.len() && status_fits(
        after.status[after.results[k].job],
        after.results[k].outcome,
    ) by {
        assert(status_fits(v.status[v.results[k].job], v.results[k].outcome));
    }
    assert forall|j: int|
        0 <= j < after.status.len() && is_back(#[trigger] after.status[j]) implies exists|k: int|
        0 <= k < after.results.len() && (#[trigger] after.results[k]).job == j by {
        assert(is_back(v.status[j]));
        let k = choose|k: int| 0 <= k < v.results.len() && (#[trigger] v.results[k]).job == j;
        assert(after.results[k].job == j);
    }
    assert forall|j: int| 0 <= j < after.status.len() implies (j < after.started
        <==> #[trigger] after.status[j] != JobStatus::Queued) by {
        assert(j < v.started <==> v.status[j] != JobStatus::Queued);
    }
}

/// How far along a job of this status is.
pub open spec fn progress(status: JobStatus) -> nat {
    match status {
        JobStatus::Queued => 0,
        JobStatus::InFlight => 1,
        JobStatus::Completed => 2,
        JobStatus::Failed => 2,
        JobStatus::Persisted => 3,
    }
}

/// Whether no job stands further back in `after` than in `before`, and every
/// job but `job` stands where it stood.
pub open spec fn only_moves_forward(
    before: Seq<JobStatus>,
    after: Seq<JobStatus>,
    job: int,
) -> bool {
    &&& after.len() == before.len()
    &&& forall|j: int|
        0 <= j < before.len() ==> progress(before[j]) <= progress(#[trigger] after[j]) && (j
            != job ==> after[j] == before[j])
}

/// No job ever goes back: starting a job, entering a result and recording a
/// write each move one job forward and leave all others where they are. In
/// particular, the failure of one job touches no other job.
pub proof fn lemma_jobs_only_move_forward(
    v: ExecutorView,
    job: int,
    outcome: OutcomeView,
    now: u64,
)
    requires
        v.wf(),
    ensures
        v.can_start() ==> only_moves_forward(v.status, v.after_start().status, v.started as int),
        only_moves_forward(v.status, v.after_tick(now).status, job),
        only_moves_forward(v.status, v.after_finish().status, job),
        0 <= job < v.jobs.len() && v.status[job] == JobStatus::InFlight ==> only_moves_forward(
            v.status,
            v.after_complete(job, outcome, now).status,
            job,
        ),
        0 <= job < v.jobs.len() && v.status[job] == JobStatus::Completed ==> only_moves_forward(
            v.status,
            v.status.update(job, JobStatus::Persisted),
            job,
        ),
{
}

/// Every transition keeps the books consistent: never more than
/// [`MAX_IN_FLIGHT`] fetches run, and no batch holds more than
/// [`BATCH_SIZE`] results.
pub proof fn lemma_transitions_keep_wf(v: ExecutorView, job: int, outcome: OutcomeView, now: u64)
    requires
        v.wf(),
    ensures
        v.can_start() ==> v.after_start().wf(),
        v.after_tick(now).wf(),
        v.after_finish().wf(),
        0 <= job < v.jobs.len() && v.status[job] == JobStatus::InFlight ==> v.after_complete(
            job,
            outcome,
            now,
        ).wf(),
{
    if v.can_start() {
        lemma_after_start_wf(v);
    }
    lemma_close_batch_wf(v, now);
    lemma_close_batch_wf(v, v.batch_opened);
    if 0 <= job < v.jobs.len() && v.status[job] == JobStatus::InFlight {
        let ticked = v.after_tick(now);
        lemma_record_wf(ticked, job, outcome);
        lemma_close_batch_wf(ticked.record(job, outcome), now);
    }
}

/// No closed batch ends behind the place where the open batch begins.
pub proof fn lemma_cuts_are_ordered(v: ExecutorView, k: int)
    requires
        v.wf(),
        0 <= k < v.cuts.len(),
    ensures
        v.batch_from(k) <= v.cuts[k] <= v.open_from() <= v.results.len(),
    decreases v.cuts.len() - k,
{
    if k + 1 < v.cuts.len() {
        lemma_cuts_are_ordered(v, k + 1);
        assert(v.batch_from(k + 1) == v.cuts[k]);
    }
}

/// The closed batches, one after the other, are the results in the order in
/// which they arrived, up to where the open batch begins: batching neither
/// loses a result nor doubles or reorders one.
pub proof fn lemma_batches_join_to_results(v: ExecutorView, n: nat)
    requires
        v.wf(),
        n <= v.cuts.len(),
    ensures
        v.batches_joined(n) == v.results.take(v.batch_from(n as int) as int),
    decreases n,
{
    if n == 0 {
        assert(v.results.take(0) =~= Seq::empty());
    } else {
        lemma_batches_join_to_results(v, (n - 1) as nat);
        lemma_cuts_are_ordered(v, n - 1);
        assert(v.results.take(v.batch_from(n - 1) as int) + v.batch(n - 1) =~= v.results.take(
            v.cuts[n - 1] as int,
        ));
    }
}

/// When the run of fetches is closed, the batches, one after the other, are
/// all the results in the order in which they arrived.
pub proof fn lemma_finished_batches_hold_every_result(v: ExecutorView)
    requires
        v.wf(),
    ensures
        v.after_finish().batches_joined(v.after_finish().cuts.len()) == v.results,
{
    let done = v.after_finish();
    lemma_close_batch_wf(v, v.batch_opened);
    lemma_batches_join_to_results(done, done.cuts.len());
    assert(done.results.take(done.results.len() as int) =~= done.results);
    if done.cuts.len() == 0 {
        assert(v.results =~= Seq::empty());
    }
}

/// In a job list in which no job counts as in flight, no job is in flight.
pub proof fn lemma_count_zero(status: Seq<JobStatus>, j: int)
    requires
        count_in_flight(status) == 0,
        0 <= j < status.len(),
    ensures
        status[j] != JobStatus::InFlight,
    decreases status.len(),
{
    if j < status.len() - 1 {
        lemma_count_zero(status.drop_last(), j);
    }
}

/// Once every job has been started and every fetch is back, each job has
/// exactly one result, whatever became of the other jobs. That result is
/// handed out as a write to the job's own destination if its fetch brought a
/// payload, and as a report if it failed.
pub proof fn lemma_every_job_is_written_or_reported_once(v: ExecutorView, job: int)
    requires
        v.wf(),
        v.fetching_done(),
        0 <= job < v.jobs.len(),
    ensures
        v.results.len() == v.jobs.len(),
        exists|k: int|
            {
                &&& 0 <= k < v.results.len()
                &&& (#[trigger] v.results[k]).job == job
                &&& forall|l: int|
                    0 <= l < v.results.len() && (#[trigger] v.results[l]).job == job ==> l == k
                &&& match v.results[k].outcome {
                    OutcomeView::Fetched(payload) => write_step(v.jobs, v.results[k])
                        == (WriteStepView::Persist {
                        job,
                        destination_path: v.jobs[job].destination_path,
                        payload,
                    }) && (v.status[job] == JobStatus::Completed || v.status[job]
                        == JobStatus::Persisted),
                    OutcomeView::Failed(message) => write_step(v.jobs, v.results[k])
                        == (WriteStepView::Report {
                        job,
                        line: fetch_failure_line(v.jobs[job], message),
                    }) && v.status[job] == JobStatus::Failed,
                }
            },
{
    lemma_count_zero(v.status, job);
    assert(v.status[job] != JobStatus::Queued);
    assert(is_back(v.status[job]));
    let k = choose|k: int| 0 <= k < v.results.len() && (#[trigger] v.results[k]).job == job;
    assert forall|l: int|
        0 <= l < v.results.len() && (#[trigger] v.results[l]).job == job implies l == k by {
        if l < k {
            assert(v.results[l].job != v.results[k].job);
        } else if k < l {
            assert(v.results[k].job != v.results[l].job);
        }
    }
    assert(status_fits(v.status[v.results[k].job], v.results[k].outcome));
}

/// No job of a list in which none is in flight counts as in flight.
pub proof fn lemma_none_in_flight(status: Seq<JobStatus>)
    requires
        forall|j: int| 0 <= j < status.len() ==> status[j] != JobStatus::InFlight,
    ensures
        count_in_flight(status) == 0,
    decreases status.len(),
{
    if status.len() > 0 {
        lemma_none_in_flight(status.drop_last());
    }
}

/// Changing the status of one job changes the count of those in flight by
/// what that job adds to it.
pub proof fn lemma_count_update(status: Seq<JobStatus>, j: int, to: JobStatus)
    requires
        0 <= j < status.len(),
    ensures
        count_in_flight(status.update(j, to)) + (if status[j] == JobStatus::InFlight {
            1nat
        } else {
            0nat
        }) == count_in_flight(status) + (if to == JobStatus::InFlight {
            1nat
        } else {
            0nat
        }),
    decreases status.len(),
{
    if j == status.len() - 1 {
        assert(status.update(j, to).drop_last() =~= status.drop_last());
    } else {
        lemma_count_update(status.drop_last(), j, to);
        assert(status.update(j, to).drop_last() =~= status.drop_last().update(j, to));
    }
}

} // verus!
