//! Bounded admission for one phase: every job of the phase waits in a queue,
//! at most `capacity` of them run at a time, and each leaves the queue once, in
//! the order of the job list.
//!
//! The scheduler only keeps the books. Its caller starts a job when
//! [`PhaseScheduler::admit_next`] names it and reports the end of that job with
//! [`PhaseScheduler::complete`], on success and on failure alike: that report is
//! what frees the place for the next job.
use crate::outcome::JobOutcome;
use vstd::prelude::*;

verus! {

/// Where one job of the phase stands.
#[derive(Clone, Copy, Debug, PartialEq, Eq, Structural)]
pub enum SlotState {
    Queued,
    Running,
    Done(JobOutcome),
}

/// The books of a phase: the limit on running jobs, how many jobs have left
/// the queue, and where each job stands.
pub struct SchedulerState {
    pub capacity: nat,
    pub admitted: nat,
    pub slots: Seq<SlotState>,
}

/// What a caller can ask of the scheduler.
pub enum Request {
    /// Start the next queued job, if a place is free.
    Admit,
    /// Record that a running job has ended.
    Complete { job: int, outcome: JobOutcome },
}

/// How many of `slots` are running.
pub open spec fn count_running(slots: Seq<SlotState>) -> nat
    decreases slots.len(),
{
    if slots.len() == 0 {
        0
    } else {
        count_running(slots.drop_last()) + if slots.last() is Running {
            1nat
        } else {
            0nat
        }
    }
}

/// How many of `slots` are done.
pub open spec fn count_done(slots: Seq<SlotState>) -> nat
    decreases slots.len(),
{
    if slots.len() == 0 {
        0
    } else {
        count_done(slots.drop_last()) + if slots.last() is Done {
            1nat
        } else {
            0nat
        }
    }
}

/// How far a job has come: queued, then running, then done.
pub open spec fn stage(slot: SlotState) -> nat {
    match slot {
        SlotState::Queued => 0,
        SlotState::Running => 1,
        SlotState::Done(_) => 2,
    }
}

impl SchedulerState {
    /// A phase of `jobs` jobs before any of them has started.
    pub open spec fn initial(jobs: nat, capacity: nat) -> Self {
        SchedulerState { capacity, admitted: 0, slots: Seq::new(jobs, |i: int| SlotState::Queued) }
    }

    pub open spec fn running(self) -> nat {
        count_running(self.slots)
    }

    pub open spec fn done(self) -> nat {
        count_done(self.slots)
    }

    /// The books are in order: the jobs that have left the queue are the first
    /// `admitted` of the list, each of them is running or done, and no more run
    /// than the limit allows.
    pub open spec fn wf(self) -> bool {
        &&& self.capacity >= 1
        &&& self.admitted <= self.slots.len()
        &&& forall|i: int|
            0 <= i < self.slots.len() ==> (#[trigger] self.slots[i] is Queued <==> i
                >= self.admitted)
        &&& self.running() + self.done() == self.admitted
        &&& self.running() <= self.capacity
    }

    /// A place is free and a job is waiting for it.
    pub open spec fn can_admit(self) -> bool {
        self.running() < self.capacity && self.admitted < self.slots.len()
    }

    /// `job` is running, so its end can be recorded.
    pub open spec fn can_complete(self, job: int) -> bool {
        0 <= job < self.slots.len() && self.slots[job] is Running
    }

    /// Every job has left the queue and none is running any more.
    pub open spec fn finished(self) -> bool {
        self.admitted == self.slots.len() && self.running() == 0
    }

    /// The books after one request. A request that cannot be granted changes
    /// nothing.
    pub open spec fn step(self, request: Request) -> Self {
        match request {
            Request::Admit => if self.can_admit() {
                SchedulerState {
                    capacity: self.capacity,
                    admitted: self.admitted + 1,
                    slots: self.slots.update(self.admitted as int, SlotState::Running),
                }
            } else {
                self
            },
            Request::Complete { job, outcome } => if self.can_complete(job) {
                SchedulerState {
                    capacity: self.capacity,
                    admitted: self.admitted,
                    slots: self.slots.update(job, SlotState::Done(outcome)),
                }
            } else {
                self
            },
        }
    }

    /// The books after a series of requests, taken in order.
    pub open spec fn after(self, requests: Seq<Request>) -> Self
        decreases requests.len(),
    {
        if requests.len() == 0 {
            self
        } else {
            self.after(requests.drop_last()).step(requests.last())
        }
    }
}

/// Changing one slot changes each count by what that slot gave and gives.
pub proof fn lemma_count_update(slots: Seq<SlotState>, i: int, slot: SlotState)
    requires
        0 <= i < slots.len(),
    ensures
        count_running(slots.update(i, slot)) + (if slots[i] is Running {
            1nat
        } else {
            0nat
        }) == count_running(slots) + (if slot is Running {
            1nat
        } else {
            0nat
        }),
        count_done(slots.update(i, slot)) + (if slots[i] is Done {
            1nat
        } else {
            0nat
        }) == count_done(slots) + (if slot is Done {
            1nat
        } else {
            0nat
        }),
    decreases slots.len(),
{
    let changed = slots.update(i, slot);
    if i == slots.len() - 1 {
        assert(changed.drop_last() == slots.drop_last());
    } else {
        lemma_count_update(slots.drop_last(), i, slot);
        assert(changed.drop_last() == slots.drop_last().update(i, slot));
    }
}

/// Neither count exceeds the number of slots; a count of zero means that no
/// slot is in that state, and a full count that every slot is.
pub proof fn lemma_count_bounds(slots: Seq<SlotState>)
    ensures
        count_running(slots) + count_done(slots) <= slots.len(),
        count_running(slots) == 0 <==> forall|i: int|
            0 <= i < slots.len() ==> !(#[trigger] slots[i] is Running),
        count_done(slots) == 0 <==> forall|i: int|
            0 <= i < slots.len() ==> !(#[trigger] slots[i] is Done),
        count_done(slots) == slots.len() <==> forall|i: int|
            0 <= i < slots.len() ==> #[trigger] slots[i] is Done,
    decreases slots.len(),
{
    if slots.len() > 0 {
        let front = slots.drop_last();
        lemma_count_bounds(front);
        assert forall|i: int| 0 <= i < front.len() implies front[i] == slots[i] by {}
        if count_running(slots) == 0 {
            assert forall|i: int| 0 <= i < slots.len() implies !(#[trigger] slots[i]
                is Running) by {
                if i < front.len() {
                    assert(!(front[i] is Running));
                }
            }
        }
        if count_done(slots) == 0 {
            assert forall|i: int| 0 <= i < slots.len() implies !(#[trigger] slots[i] is Done) by {
                if i < front.len() {
                    assert(!(front[i] is Done));
                }
            }
        }
        if count_done(slots) == slots.len() {
            assert forall|i: int| 0 <= i < slots.len() implies #[trigger] slots[i] is Done by {
                if i < front.len() {
                    assert(front[i] is Done);
                }
            }
        }
        if forall|i: int| 0 <= i < slots.len() ==> !(#[trigger] slots[i] is Running) {
            assert forall|i: int| 0 <= i < front.len() implies !(#[trigger] front[i]
                is Running) by {
                assert(!(slots[i] is Running));
            }
        }
        if forall|i: int| 0 <= i < slots.len() ==> !(#[trigger] slots[i] is Done) {
            assert forall|i: int| 0 <= i < front.len() implies !(#[trigger] front[i] is Done) by {
                assert(!(slots[i] is Done));
            }
        }
        if forall|i: int| 0 <= i < slots.len() ==> #[trigger] slots[i] is Done {
            assert forall|i: int| 0 <= i < front.len() implies #[trigger] front[i] is Done by {
                assert(slots[i] is Done);
            }
            assert(slots[slots.len() - 1] is Done);
        }
    }
}

/// A phase starts with its books in order, whatever the number of jobs.
pub proof fn lemma_initial_wf(jobs: nat, capacity: nat)
    requires
        capacity >= 1,
    ensures
        SchedulerState::initial(jobs, capacity).wf(),
        SchedulerState::initial(jobs, capacity).running() == 0,
        SchedulerState::initial(jobs, capacity).done() == 0,
{
    lemma_count_bounds(SchedulerState::initial(jobs, capacity).slots);
}

/// No request, granted or not, puts the books out of order.
pub proof fn lemma_step_keeps_wf(state: SchedulerState, request: Request)
    requires
        state.wf(),
    ensures
        state.step(request).wf(),
{
    match request {
        Request::Admit => {
            if state.can_admit() {
                lemma_count_update(state.slots, state.admitted as int, SlotState::Running);
                assert(state.slots[state.admitted as int] is Queued);
            }
        },
        Request::Complete { job, outcome } => {
            if state.can_complete(job) {
                lemma_count_update(state.slots, job, SlotState::Done(outcome));
            }
        },
    }
}

/// Whatever is asked of a scheduler and in whatever order, at no moment do
/// more jobs run than its capacity allows.
pub proof fn lemma_running_never_exceeds_capacity(
    jobs: nat,
    capacity: nat,
    requests: Seq<Request>,
)
    requires
        capacity >= 1,
    ensures
        SchedulerState::initial(jobs, capacity).after(requests).wf(),
        SchedulerState::initial(jobs, capacity).after(requests).running() <= capacity,
        SchedulerState::initial(jobs, capacity).after(requests).capacity == capacity,
    decreases requests.len(),
{
    let start = SchedulerState::initial(jobs, capacity);
    if requests.len() == 0 {
        lemma_initial_wf(jobs, capacity);
    } else {
        lemma_running_never_exceeds_capacity(jobs, capacity, requests.drop_last());
        lemma_step_keeps_wf(start.after(requests.drop_last()), requests.last());
    }
}

/// No job starts twice or goes back: a request leaves every job where it was
/// or moves one job one stage on, a job starts running only out of the queue,
/// and a recorded outcome is never changed.
pub proof fn lemma_jobs_only_advance(state: SchedulerState, request: Request, job: int)
    requires
        state.wf(),
        0 <= job < state.slots.len(),
    ensures
        state.step(request).slots.len() == state.slots.len(),
        stage(state.slots[job]) <= stage(state.step(request).slots[job]) <= stage(
            state.slots[job],
        ) + 1,
        state.slots[job] is Done ==> state.step(request).slots[job] == state.slots[job],
{
}

/// Along any series of requests a job only moves forward: once running it is
/// never queued again, and once done it keeps its outcome.
pub proof fn lemma_jobs_advance_along(
    state: SchedulerState,
    requests: Seq<Request>,
    job: int,
)
    requires
        state.wf(),
        0 <= job < state.slots.len(),
    ensures
        state.after(requests).wf(),
        state.after(requests).slots.len() == state.slots.len(),
        stage(state.slots[job]) <= stage(state.after(requests).slots[job]),
        state.slots[job] is Done ==> state.after(requests).slots[job] == state.slots[job],
    decreases requests.len(),
{
    if requests.len() > 0 {
        let before = state.after(requests.drop_last());
        lemma_jobs_advance_along(state, requests.drop_last(), job);
        lemma_step_keeps_wf(before, requests.last());
        lemma_jobs_only_advance(before, requests.last(), job);
    }
}

/// A phase that is not finished can always go on: either a job can be
/// admitted, or one is running and its end will free a place. When a place is
/// free, the job that takes it is the one that has waited longest.
pub proof fn lemma_never_stuck(state: SchedulerState)
    requires
        state.wf(),
        !state.finished(),
    ensures
        state.can_admit() || state.running() > 0,
        state.can_admit() ==> state.slots[state.admitted as int] is Queued && forall|i: int|
            0 <= i < state.admitted ==> !(#[trigger] state.slots[i] is Queued),
{
}

/// In a finished phase every job is done.
pub proof fn lemma_finished_all_done(state: SchedulerState)
    requires
        state.wf(),
    ensures
        state.finished() <==> forall|i: int|
            0 <= i < state.slots.len() ==> #[trigger] state.slots[i] is Done,
        state.finished() <==> state.done() == state.slots.len(),
{
    lemma_count_bounds(state.slots);
    if state.finished() {
        assert forall|i: int| 0 <= i < state.slots.len() implies #[trigger] state.slots[i]
            is Done by {
            assert(!(state.slots[i] is Queued));
            assert(!(state.slots[i] is Running));
        }
    }
    if forall|i: int| 0 <= i < state.slots.len() ==> #[trigger] state.slots[i] is Done {
        if state.admitted < state.slots.len() {
            assert(state.slots[state.admitted as int] is Queued);
        }
    }
}

/// The scheduler of one phase.
pub struct PhaseScheduler {
    capacity: usize,
    admitted: usize,
    running: usize,
    slots: Vec<SlotState>,
}

impl View for PhaseScheduler {
    type V = SchedulerState;

    closed spec fn view(&self) -> SchedulerState {
        SchedulerState {
            capacity: self.capacity as nat,
            admitted: self.admitted as nat,
            slots: self.slots@,
        }
    }
}

impl PhaseScheduler {
    /// The scheduler's own count of running jobs agrees with its books.
    pub closed spec fn counts_agree(&self) -> bool {
        self.running == self@.running()
    }

    pub open spec fn wf(&self) -> bool {
        self@.wf() && self.counts_agree()
    }

    /// A scheduler for `jobs` jobs, of which at most `capacity` run at once.
    pub fn new(jobs: usize, capacity: usize) -> (scheduler: Self)
        requires
            capacity >= 1,
        ensures
            scheduler.wf(),
            scheduler@ == SchedulerState::initial(jobs as nat, capacity as nat),
    {
        let mut slots: Vec<SlotState> = Vec::new();
        let mut i: usize = 0;
        while i < jobs
            invariant
                i <= jobs,
                slots@ == Seq::new(i as nat, |k: int| SlotState::Queued),
            decreases jobs - i,
        {
            slots.push(SlotState::Queued);
            i += 1;
            assert(slots@ == Seq::new(i as nat, |k: int| SlotState::Queued));
        }
        proof {
            lemma_initial_wf(jobs as nat, capacity as nat);
        }
        PhaseScheduler { capacity, admitted: 0, running: 0, slots }
    }

    /// The limit on running jobs.
    pub fn capacity(&self) -> (n: usize)
        ensures
            n == self@.capacity,
    {
        self.capacity
    }

    /// The number of jobs of the phase.
    pub fn job_count(&self) -> (n: usize)
        ensures
            n == self@.slots.len(),
    {
        self.slots.len()
    }

    /// The number of jobs that are running now.
    pub fn running(&self) -> (n: usize)
        requires
            self.wf(),
        ensures
            n == self@.running(),
            n <= self@.capacity,
    {
        self.running
    }

    /// Where `job` stands, if the phase has such a job.
    pub fn slot(&self, job: usize) -> (slot: Option<SlotState>)
        ensures
            slot == (if job < self@.slots.len() {
                Some(self@.slots[job as int])
            } else {
                None
            }),
    {
        if job < self.slots.len() {
            Some(self.slots[job])
        } else {
            None
        }
    }

    /// Starts the job that has waited longest, if a place is free, and names
    /// it; the caller then runs that job.
    pub fn admit_next(&mut self) -> (job: Option<usize>)
        requires
            old(self).wf(),
        ensures
            final(self).wf(),
            final(self)@ == old(self)@.step(Request::Admit),
            job == (if old(self)@.can_admit() {
                Some(old(self)@.admitted as usize)
            } else {
                None
            }),
    {
        if self.running < self.capacity && self.admitted < self.slots.len() {
            let job = self.admitted;
            proof {
                lemma_step_keeps_wf(self@, Request::Admit);
                lemma_count_update(self.slots@, job as int, SlotState::Running);
            }
            self.slots.set(job, SlotState::Running);
            self.admitted = job + 1;
            self.running = self.running + 1;
            Some(job)
        } else {
            None
        }
    }

    /// Records the end of `job` and frees its place. Says whether `job` was
    /// running; if it was not, nothing changes.
    pub fn complete(&mut self, job: usize, outcome: JobOutcome) -> (accepted: bool)
        requires
            old(self).wf(),
        ensures
            final(self).wf(),
            final(self)@ == old(self)@.step(Request::Complete { job: job as int, outcome }),
            accepted == old(self)@.can_complete(job as int),
    {
        if job < self.slots.len() {
            if let SlotState::Running = self.slots[job] {
                proof {
                    lemma_step_keeps_wf(self@, Request::Complete { job: job as int, outcome });
                    lemma_count_update(self.slots@, job as int, SlotState::Done(outcome));
                    lemma_count_bounds(self.slots@);
                }
                self.slots.set(job, SlotState::Done(outcome));
                self.running = self.running - 1;
                return true;
            }
        }
        false
    }

    /// Whether every job of the phase has ended.
    pub fn is_finished(&self) -> (finished: bool)
        requires
            self.wf(),
        ensures
            finished == self@.finished(),
    {
        self.admitted == self.slots.len() && self.running == 0
    }

    /// The outcome of every job in the order of the job list, once the phase is
    /// finished; nothing before that.
    pub fn outcomes(&self) -> (outcomes: Option<Vec<JobOutcome>>)
        requires
            self.wf(),
        ensures
            outcomes is Some <==> self@.finished(),
            outcomes matches Some(list) ==> list@.len() == self@.slots.len() && forall|i: int|
                0 <= i < list@.len() ==> self@.slots[i] == SlotState::Done(#[trigger] list@[i]),
    {
        if !self.is_finished() {
            return None;
        }
        proof {
            lemma_finished_all_done(self@);
        }
        let mut list: Vec<JobOutcome> = Vec::new();
        let mut i: usize = 0;
        while i < self.slots.len()
            invariant
                i <= self.slots.len(),
                list@.len() == i,
                forall|k: int| 0 <= k < self.slots.len() ==> #[trigger] self.slots@[k] is Done,
                forall|k: int|
                    0 <= k < i ==> self.slots@[k] == SlotState::Done(#[trigger] list@[k]),
            decreases self.slots.len() - i,
        {
            match self.slots[i] {
                SlotState::Done(outcome) => {
                    list.push(outcome);
                },
                _ => {
                    assert(self.slots@[i as int] is Done);
                },
            }
            i += 1;
        }
        Some(list)
    }
}

} // verus!
