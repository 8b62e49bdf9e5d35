//! One phase from its first job to its last: the scheduler of the phase and
//! the runs of its jobs, kept in step.
//!
//! A job is started only when the scheduler gives it a place, and the end of
//! a job is what gives its place to the next. The caller does what the phase
//! asks for, job by job, and reports each result under the number of the job.
//!
//! A failed job stops no other: every job of the phase is started and runs to
//! its end, and only then does the phase have its outcomes.
use crate::catalog::{views_of, ConversionJob, JobView};
use crate::conversion::{
    initial_run, lemma_run_step, model_wf, run_action, run_view_step, ActionView,
    ConversionAction, ConversionEvent, ConversionRun, RunState, RunView,
};
use crate::outcome::JobOutcome;
use crate::scheduler::{
    count_running, lemma_initial_wf, lemma_never_stuck, lemma_step_keeps_wf, PhaseScheduler,
    Request, SchedulerState, SlotState,
};
use crate::settings::ConversionSettings;
use vstd::prelude::*;

verus! {

/// What the caller is to do for one job of the phase.
#[derive(Clone, Debug, PartialEq, Eq)]
pub struct JobAction {
    pub job: usize,
    pub action: ConversionAction,
}

/// A [`JobAction`] as contracts speak of it.
pub struct JobActionView {
    pub job: int,
    pub action: ActionView,
}

impl View for JobAction {
    type V = JobActionView;

    open spec fn view(&self) -> JobActionView {
        JobActionView { job: self.job as int, action: self.action@ }
    }
}

/// The actions of a list as contracts speak of them.
pub open spec fn action_views(actions: Seq<JobAction>) -> Seq<JobActionView> {
    Seq::new(actions.len(), |i: int| actions[i]@)
}

/// A phase as contracts speak of it: the books of its scheduler and the runs
/// of its jobs.
pub struct PhaseView {
    pub scheduler: SchedulerState,
    pub runs: Seq<RunView>,
}

/// Where the scheduler has a job whose run is in this state.
pub open spec fn slot_of(state: RunState) -> SlotState {
    match state {
        RunState::Created => SlotState::Queued,
        RunState::AwaitingDirectory | RunState::AwaitingTool => SlotState::Running,
        RunState::Ended(outcome) => SlotState::Done(outcome),
    }
}

/// A run that has started and has not ended: its progress shows it as
/// running.
pub open spec fn is_active(state: RunState) -> bool {
    state is AwaitingDirectory || state is AwaitingTool
}

/// How many of `runs` are active.
pub open spec fn count_active(runs: Seq<RunView>) -> nat
    decreases runs.len(),
{
    if runs.len() == 0 {
        0
    } else {
        count_active(runs.drop_last()) + if is_active(runs.last().model.state) {
            1nat
        } else {
            0nat
        }
    }
}

/// The scheduler and the runs agree: there is one run for each job, the
/// books are in order, each run is, and each job stands in the books where its
/// run has come to.
pub open spec fn phase_wf(phase: PhaseView) -> bool {
    &&& phase.scheduler.wf()
    &&& phase.runs.len() == phase.scheduler.slots.len()
    &&& forall|i: int|
        0 <= i < phase.runs.len() ==> model_wf((#[trigger] phase.runs[i]).model) && slot_of(
            phase.runs[i].model.state,
        ) == phase.scheduler.slots[i]
}

/// A phase before any of its jobs has started.
pub open spec fn initial_phase(
    jobs: Seq<JobView>,
    video_crf: u8,
    webp_quality: u8,
    capacity: nat,
) -> PhaseView {
    PhaseView {
        scheduler: SchedulerState::initial(jobs.len(), capacity),
        runs: Seq::new(jobs.len(), |i: int| initial_run(jobs[i], video_crf, webp_quality)),
    }
}

/// The phase after the job that has waited longest was started, if a place
/// was free and a job was waiting.
pub open spec fn phase_admit(phase: PhaseView) -> PhaseView {
    if phase.scheduler.can_admit() {
        let job = phase.scheduler.admitted as int;
        PhaseView {
            scheduler: phase.scheduler.step(Request::Admit),
            runs: phase.runs.update(job, run_view_step(phase.runs[job], ConversionEvent::Started)),
        }
    } else {
        phase
    }
}

/// What is asked for the job that [`phase_admit`] starts.
pub open spec fn admit_actions(phase: PhaseView) -> Seq<JobActionView> {
    if phase.scheduler.can_admit() {
        let job = phase.scheduler.admitted as int;
        seq![
            JobActionView { job, action: run_action(phase.runs[job], ConversionEvent::Started) },
        ]
    } else {
        Seq::empty()
    }
}

/// The phase after as many jobs were started as there are places and jobs.
pub open spec fn phase_begin(phase: PhaseView) -> PhaseView
    decreases phase.scheduler.slots.len() - phase.scheduler.admitted,
{
    if phase.scheduler.can_admit() {
        phase_begin(phase_admit(phase))
    } else {
        phase
    }
}

/// What is asked for the jobs that [`phase_begin`] starts, in their order.
pub open spec fn begin_actions(phase: PhaseView) -> Seq<JobActionView>
    decreases phase.scheduler.slots.len() - phase.scheduler.admitted,
{
    if phase.scheduler.can_admit() {
        admit_actions(phase) + begin_actions(phase_admit(phase))
    } else {
        Seq::empty()
    }
}

/// Whether a report is taken: it is if it names a job of the phase that has
/// started and has not ended.
pub open spec fn accepts(phase: PhaseView, job: int) -> bool {
    0 <= job < phase.runs.len() && is_active(phase.runs[job].model.state)
}

/// The phase after a report on one job. The run of the job takes the
/// report; if the job ends with it, its place is freed and given to the job
/// that has waited longest. A report that is not taken changes nothing.
pub open spec fn phase_report(phase: PhaseView, job: int, event: ConversionEvent) -> PhaseView {
    if accepts(phase, job) {
        let runs = phase.runs.update(job, run_view_step(phase.runs[job], event));
        match run_action(phase.runs[job], event) {
            ActionView::Finish(outcome) => phase_admit(
                PhaseView {
                    scheduler: phase.scheduler.step(Request::Complete { job, outcome }),
                    runs,
                },
            ),
            _ => PhaseView { scheduler: phase.scheduler, runs },
        }
    } else {
        phase
    }
}

/// What a phase asks for in answer to a report: the next step for the job
/// of the report, or, if that job has ended, its outcome and the first step for
/// the job that takes its place.
pub open spec fn report_actions(
    phase: PhaseView,
    job: int,
    event: ConversionEvent,
) -> Seq<JobActionView> {
    if accepts(phase, job) {
        match run_action(phase.runs[job], event) {
            ActionView::Nothing => Seq::empty(),
            ActionView::Finish(outcome) => seq![
                JobActionView { job, action: ActionView::Finish(outcome) },
            ] + admit_actions(
                PhaseView {
                    scheduler: phase.scheduler.step(Request::Complete { job, outcome }),
                    runs: phase.runs.update(job, run_view_step(phase.runs[job], event)),
                },
            ),
            action => seq![JobActionView { job, action }],
        }
    } else {
        Seq::empty()
    }
}

/// In a phase as many runs are active as the books of its scheduler count
/// as running: never more than its capacity.
pub proof fn lemma_active_runs_bounded(phase: PhaseView)
    requires
        phase_wf(phase),
    ensures
        count_active(phase.runs) == phase.scheduler.running(),
        count_active(phase.runs) <= phase.scheduler.capacity,
{
    lemma_active_is_running(phase.runs, phase.scheduler.slots);
}

/// Runs and slots that agree one by one agree in number.
proof fn lemma_active_is_running(runs: Seq<RunView>, slots: Seq<SlotState>)
    requires
        runs.len() == slots.len(),
        forall|i: int|
            0 <= i < runs.len() ==> slot_of((#[trigger] runs[i]).model.state) == slots[i],
    ensures
        count_active(runs) == count_running(slots),
    decreases runs.len(),
{
    if runs.len() > 0 {
        assert forall|i: int| 0 <= i < runs.drop_last().len() implies slot_of(
            (#[trigger] runs.drop_last()[i]).model.state,
        ) == slots.drop_last()[i] by {
            assert(runs.drop_last()[i] == runs[i]);
        }
        lemma_active_is_running(runs.drop_last(), slots.drop_last());
        assert(slot_of(runs[runs.len() - 1].model.state) == slots[runs.len() - 1]);
    }
}

/// A new phase is in order.
pub proof fn lemma_initial_phase_wf(
    jobs: Seq<JobView>,
    video_crf: u8,
    webp_quality: u8,
    capacity: nat,
)
    requires
        capacity >= 1,
    ensures
        phase_wf(initial_phase(jobs, video_crf, webp_quality, capacity)),
{
    lemma_initial_wf(jobs.len(), capacity);
}

/// Starting a job leaves the phase in order.
pub proof fn lemma_phase_admit_keeps_wf(phase: PhaseView)
    requires
        phase_wf(phase),
    ensures
        phase_wf(phase_admit(phase)),
{
    if phase.scheduler.can_admit() {
        let job = phase.scheduler.admitted as int;
        lemma_step_keeps_wf(phase.scheduler, Request::Admit);
        lemma_run_step(phase.runs[job], ConversionEvent::Started);
        assert(phase.scheduler.slots[job] is Queued);
        let after = phase_admit(phase);
        assert forall|i: int| 0 <= i < after.runs.len() implies model_wf(
            (#[trigger] after.runs[i]).model,
        ) && slot_of(after.runs[i].model.state) == after.scheduler.slots[i] by {
            if i != job {
                assert(after.runs[i] == phase.runs[i]);
            }
        }
    }
}

/// Starting the jobs of a phase leaves it in order, and with no place free
/// while a job waits.
pub proof fn lemma_phase_begin_keeps_wf(phase: PhaseView)
    requires
        phase_wf(phase),
    ensures
        phase_wf(phase_begin(phase)),
        !phase_begin(phase).scheduler.can_admit(),
        phase_begin(phase).scheduler.capacity == phase.scheduler.capacity,
    decreases phase.scheduler.slots.len() - phase.scheduler.admitted,
{
    if phase.scheduler.can_admit() {
        lemma_phase_admit_keeps_wf(phase);
        lemma_phase_begin_keeps_wf(phase_admit(phase));
    }
}

/// A report leaves the phase in order. If no place was free for a waiting
/// job before the report, none is after it: the place of a job that ends is
/// taken at once.
pub proof fn lemma_phase_report_keeps_wf(phase: PhaseView, job: int, event: ConversionEvent)
    requires
        phase_wf(phase),
    ensures
        phase_wf(phase_report(phase, job, event)),
        !phase.scheduler.can_admit() ==> !phase_report(phase, job, event).scheduler.can_admit(),
        phase_report(phase, job, event).scheduler.capacity == phase.scheduler.capacity,
{
    if accepts(phase, job) {
        lemma_run_step(phase.runs[job], event);
        let runs = phase.runs.update(job, run_view_step(phase.runs[job], event));
        match run_action(phase.runs[job], event) {
            ActionView::Finish(outcome) => {
                let request = Request::Complete { job, outcome };
                lemma_step_keeps_wf(phase.scheduler, request);
                let completed = PhaseView { scheduler: phase.scheduler.step(request), runs };
                assert(phase.scheduler.slots[job] is Running);
                assert forall|i: int| 0 <= i < completed.runs.len() implies model_wf(
                    (#[trigger] completed.runs[i]).model,
                ) && slot_of(completed.runs[i].model.state) == completed.scheduler.slots[i] by {
                    if i != job {
                        assert(completed.runs[i] == phase.runs[i]);
                    }
                }
                lemma_phase_admit_keeps_wf(completed);
                crate::scheduler::lemma_count_update(
                    phase.scheduler.slots,
                    job,
                    SlotState::Done(outcome),
                );
                if completed.scheduler.can_admit() {
                    crate::scheduler::lemma_count_update(
                        completed.scheduler.slots,
                        completed.scheduler.admitted as int,
                        SlotState::Running,
                    );
                    assert(completed.scheduler.slots[completed.scheduler.admitted as int]
                        is Queued);
                }
            },
            _ => {
                let after = PhaseView { scheduler: phase.scheduler, runs };
                assert forall|i: int| 0 <= i < after.runs.len() implies model_wf(
                    (#[trigger] after.runs[i]).model,
                ) && slot_of(after.runs[i].model.state) == after.scheduler.slots[i] by {
                    if i != job {
                        assert(after.runs[i] == phase.runs[i]);
                    }
                }
            },
        }
    }
}

/// A phase that has begun and is not finished is never at rest: while no job
/// waits for a free place, at least one job is active, and the report on it is
/// what the phase goes on with. No job is left waiting for ever while others
/// end.
pub proof fn lemma_phase_never_stuck(phase: PhaseView)
    requires
        phase_wf(phase),
        !phase.scheduler.can_admit(),
        !phase.scheduler.finished(),
    ensures
        count_active(phase.runs) > 0,
        exists|job: int| accepts(phase, job),
{
    lemma_never_stuck(phase.scheduler);
    lemma_active_runs_bounded(phase);
    crate::scheduler::lemma_count_bounds(phase.scheduler.slots);
    let job = choose|i: int|
        0 <= i < phase.scheduler.slots.len() && #[trigger] phase.scheduler.slots[i] is Running;
    assert(slot_of(phase.runs[job].model.state) is Running);
    assert(accepts(phase, job));
}

/// A report on one job of a phase.
pub struct Report {
    pub job: int,
    pub event: ConversionEvent,
}

/// The phase after a series of reports, taken in order.
pub open spec fn phase_after(phase: PhaseView, reports: Seq<Report>) -> PhaseView
    decreases reports.len(),
{
    if reports.len() == 0 {
        phase
    } else {
        phase_report(
            phase_after(phase, reports.drop_last()),
            reports.last().job,
            reports.last().event,
        )
    }
}

/// Whatever is reported to a phase that has begun, on whatever jobs and in
/// whatever order, at no moment are more of its jobs active than its capacity
/// allows, and at no moment does a job wait while a place is free.
pub proof fn lemma_phase_never_exceeds_capacity(
    jobs: Seq<JobView>,
    video_crf: u8,
    webp_quality: u8,
    capacity: nat,
    reports: Seq<Report>,
)
    requires
        capacity >= 1,
    ensures
        ({
            let begun = phase_begin(initial_phase(jobs, video_crf, webp_quality, capacity));
            let phase = phase_after(begun, reports);
            &&& phase_wf(phase)
            &&& phase.scheduler.capacity == capacity
            &&& count_active(phase.runs) <= capacity
            &&& !phase.scheduler.can_admit()
        }),
    decreases reports.len(),
{
    let start = initial_phase(jobs, video_crf, webp_quality, capacity);
    let begun = phase_begin(start);
    if reports.len() == 0 {
        lemma_initial_phase_wf(jobs, video_crf, webp_quality, capacity);
        lemma_phase_begin_keeps_wf(start);
    } else {
        lemma_phase_never_exceeds_capacity(
            jobs,
            video_crf,
            webp_quality,
            capacity,
            reports.drop_last(),
        );
        lemma_phase_report_keeps_wf(
            phase_after(begun, reports.drop_last()),
            reports.last().job,
            reports.last().event,
        );
    }
    lemma_active_runs_bounded(phase_after(begun, reports));
}

/// The tool is run for a job only while the job holds a place: whatever a
/// phase asks to be created or run, it asks for a job that its books count as
/// running once the report is taken.
pub proof fn lemma_work_only_for_running_jobs(
    phase: PhaseView,
    job: int,
    event: ConversionEvent,
    k: int,
)
    requires
        phase_wf(phase),
        0 <= k < report_actions(phase, job, event).len(),
        !(report_actions(phase, job, event)[k].action is Finish),
    ensures
        0 <= report_actions(phase, job, event)[k].job < phase.runs.len(),
        phase_report(phase, job, event).scheduler.slots[report_actions(
            phase,
            job,
            event,
        )[k].job] is Running,
{
    lemma_phase_report_keeps_wf(phase, job, event);
    lemma_run_step(phase.runs[job], event);
    if let ActionView::Finish(outcome) = run_action(phase.runs[job], event) {
        let request = Request::Complete { job, outcome };
        lemma_step_keeps_wf(phase.scheduler, request);
    }
}

/// The scheduler and the runs of one phase.
pub struct Phase {
    scheduler: PhaseScheduler,
    runs: Vec<ConversionRun>,
}

impl View for Phase {
    type V = PhaseView;

    closed spec fn view(&self) -> PhaseView {
        PhaseView {
            scheduler: self.scheduler@,
            runs: Seq::new(self.runs@.len(), |i: int| self.runs@[i]@),
        }
    }
}

impl Phase {
    /// The scheduler and each run are in order by themselves.
    pub closed spec fn parts_wf(&self) -> bool {
        &&& self.scheduler.wf()
        &&& forall|i: int| 0 <= i < self.runs@.len() ==> (#[trigger] self.runs@[i]).wf()
    }

    pub open spec fn wf(&self) -> bool {
        self.parts_wf() && phase_wf(self@)
    }

    /// A phase for `jobs` under `settings`, none of them started yet.
    pub fn new(jobs: &Vec<ConversionJob>, settings: &ConversionSettings) -> (phase: Phase)
        requires
            settings.wf(),
        ensures
            phase.wf(),
            phase@ == initial_phase(
                views_of(jobs@),
                settings.video_crf,
                settings.webp_quality,
                settings.max_concurrent as nat,
            ),
    {
        let mut runs: Vec<ConversionRun> = Vec::new();
        let mut i: usize = 0;
        while i < jobs.len()
            invariant
                i <= jobs@.len(),
                runs@.len() == i,
                forall|k: int| 0 <= k < i ==> (#[trigger] runs@[k]).wf(),
                forall|k: int|
                    0 <= k < i ==> (#[trigger] runs@[k])@ == initial_run(
                        jobs@[k]@,
                        settings.video_crf,
                        settings.webp_quality,
                    ),
            decreases jobs.len() - i,
        {
            runs.push(ConversionRun::new(jobs[i].duplicate(), settings));
            i += 1;
        }
        let scheduler = PhaseScheduler::new(jobs.len(), settings.max_concurrent);
        let phase = Phase { scheduler, runs };
        proof {
            let start = initial_phase(
                views_of(jobs@),
                settings.video_crf,
                settings.webp_quality,
                settings.max_concurrent as nat,
            );
            assert(phase@.runs =~= start.runs);
            lemma_initial_phase_wf(
                views_of(jobs@),
                settings.video_crf,
                settings.webp_quality,
                settings.max_concurrent as nat,
            );
        }
        phase
    }

    /// The number of jobs of the phase.
    pub fn job_count(&self) -> (n: usize)
        ensures
            n == self@.runs.len(),
    {
        self.runs.len()
    }

    /// The number of jobs that are running now.
    pub fn running(&self) -> (n: usize)
        requires
            self.wf(),
        ensures
            n == count_active(self@.runs),
            n <= self@.scheduler.capacity,
    {
        proof {
            lemma_active_runs_bounded(self@);
        }
        self.scheduler.running()
    }

    /// The run of `job`, for its progress to be shown.
    pub fn run(&self, job: usize) -> (run: Option<&ConversionRun>)
        requires
            self.wf(),
        ensures
            run is Some <==> job < self@.runs.len(),
            run matches Some(r) ==> r.wf() && r@ == self@.runs[job as int],
    {
        if job < self.runs.len() {
            Some(&self.runs[job])
        } else {
            None
        }
    }

    /// Whether every job of the phase has ended.
    pub fn is_finished(&self) -> (finished: bool)
        requires
            self.wf(),
        ensures
            finished == self@.scheduler.finished(),
    {
        self.scheduler.is_finished()
    }

    /// The outcome of every job in the order of the job list, once the phase
    /// is finished; nothing before that.
    pub fn outcomes(&self) -> (outcomes: Option<Vec<JobOutcome>>)
        requires
            self.wf(),
        ensures
            outcomes is Some <==> self@.scheduler.finished(),
            outcomes matches Some(list) ==> list@.len() == self@.runs.len() && forall|i: int|
                0 <= i < list@.len() ==> self@.runs[i].model.state == RunState::Ended(
                    #[trigger] list@[i],
                ),
    {
        let outcomes = self.scheduler.outcomes();
        proof {
            if outcomes is Some {
                let list = outcomes->0;
                assert forall|i: int| 0 <= i < list@.len() implies self@.runs[i].model.state
                    == RunState::Ended(#[trigger] list@[i]) by {
                    assert(slot_of(self@.runs[i].model.state) == self@.scheduler.slots[i]);
                }
            }
        }
        outcomes
    }

    /// Starts the first jobs of the phase, as many as there are places, and
    /// says what is to be done first for each.
    pub fn begin(&mut self) -> (actions: Vec<JobAction>)
        requires
            old(self).wf(),
        ensures
            final(self).wf(),
            final(self)@ == phase_begin(old(self)@),
            action_views(actions@) == begin_actions(old(self)@),
    {
        let mut actions: Vec<JobAction> = Vec::new();
        assert(action_views(actions@) =~= Seq::<JobActionView>::empty());
        loop
            invariant
                self.wf(),
                phase_begin(self@) == phase_begin(old(self)@),
                action_views(actions@) + begin_actions(self@) == begin_actions(old(self)@),
            ensures
                !self@.scheduler.can_admit(),
            decreases self@.scheduler.slots.len() - self@.scheduler.admitted,
        {
            let ghost before = self@;
            let ghost listed = action_views(actions@);
            match self.start_next() {
                Some(action) => {
                    actions.push(action);
                    proof {
                        assert(action_views(actions@) =~= listed + admit_actions(before));
                        assert((listed + admit_actions(before)) + begin_actions(self@) =~= listed
                            + (admit_actions(before) + begin_actions(self@)));
                    }
                },
                None => {
                    break ;
                },
            }
        }
        proof {
            assert(action_views(actions@) + Seq::<JobActionView>::empty() =~= action_views(
                actions@,
            ));
        }
        actions
    }

    /// Takes a report on `job` and says what is to be done next: for that job,
    /// or, if it has ended, for the job that takes its place.
    pub fn report(&mut self, job: usize, event: ConversionEvent) -> (actions: Vec<JobAction>)
        requires
            old(self).wf(),
        ensures
            final(self).wf(),
            final(self)@ == phase_report(old(self)@, job as int, event),
            action_views(actions@) == report_actions(old(self)@, job as int, event),
    {
        let mut actions: Vec<JobAction> = Vec::new();
        assert(action_views(actions@) =~= Seq::<JobActionView>::empty());
        if job >= self.runs.len() {
            return actions;
        }
        match self.runs[job].state() {
            RunState::AwaitingDirectory | RunState::AwaitingTool => {},
            _ => {
                return actions;
            },
        }
        proof {
            lemma_phase_report_keeps_wf(self@, job as int, event);
            lemma_run_step(self@.runs[job as int], event);
        }
        let ghost before = self@;
        let action = self.runs[job].step(event);
        assert(self@.runs =~= before.runs.update(
            job as int,
            run_view_step(before.runs[job as int], event),
        ));
        match action {
            ConversionAction::Nothing => {},
            ConversionAction::Finish(outcome) => {
                let accepted = self.scheduler.complete(job, outcome);
                assert(accepted);
                actions.push(JobAction { job, action: ConversionAction::Finish(outcome) });
                let ghost completed = self@;
                let ghost listed = action_views(actions@);
                assert(listed =~= seq![
                    JobActionView { job: job as int, action: ActionView::Finish(outcome) },
                ]);
                proof {
                    lemma_step_keeps_wf(
                        before.scheduler,
                        Request::Complete { job: job as int, outcome },
                    );
                    assert forall|i: int| 0 <= i < completed.runs.len() implies model_wf(
                        (#[trigger] completed.runs[i]).model,
                    ) && slot_of(completed.runs[i].model.state)
                        == completed.scheduler.slots[i] by {
                        if i != job {
                            assert(completed.runs[i] == before.runs[i]);
                        }
                    }
                }
                match self.start_next() {
                    Some(next) => {
                        actions.push(next);
                        assert(action_views(actions@) =~= listed + admit_actions(completed));
                    },
                    None => {
                        assert(action_views(actions@) =~= listed + admit_actions(completed));
                    },
                }
            },
            action => {
                let ghost view = action@;
                actions.push(JobAction { job, action });
                assert(action_views(actions@) =~= seq![
                    JobActionView { job: job as int, action: view },
                ]);
            },
        }
        actions
    }

    /// Starts the job that has waited longest, if a place is free.
    fn start_next(&mut self) -> (action: Option<JobAction>)
        requires
            old(self).wf(),
        ensures
            final(self).wf(),
            final(self)@ == phase_admit(old(self)@),
            action is Some <==> old(self)@.scheduler.can_admit(),
            match action {
                Some(a) => seq![a@] == admit_actions(old(self)@),
                None => admit_actions(old(self)@) == Seq::<JobActionView>::empty(),
            },
    {
        proof {
            lemma_phase_admit_keeps_wf(self@);
        }
        let ghost before = self@;
        let jobs = self.runs.len();
        assert(before.runs.len() == jobs);
        match self.scheduler.admit_next() {
            Some(job) => {
                assert(job as int == before.scheduler.admitted);
                let action = self.runs[job].step(ConversionEvent::Started);
                proof {
                    assert(self@.runs =~= before.runs.update(
                        job as int,
                        run_view_step(before.runs[job as int], ConversionEvent::Started),
                    ));
                    let listed = JobAction { job, action };
                    assert(seq![listed@] =~= admit_actions(before));
                }
                Some(JobAction { job, action })
            },
            None => None,
        }
    }
}

} // verus!
