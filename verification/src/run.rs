//! The run of a single job: its steps, its artifacts and its reports to the server.
use crate::client::{
    ApiRequest, ArtifactWhen, Client, Error, JobArtifact, JobResponse, JobState, JobUpdate,
    JobUpdateReply, Phase, TraceReply,
};
use crate::job::JobLog;
use crate::paths;
use crate::text;
use crate::JobResult;
use vstd::prelude::*;

verus! {

// ---------------------------------------------------------------------------
// Running the steps
// ---------------------------------------------------------------------------

/// Where the run of a job stands: what it waits for.
#[derive(Debug, Clone, Copy, PartialEq, Eq, Structural)]
pub enum JobStage {
    /// The build directory is being created.
    BuildDir,
    /// The job handler is being created.
    Handler,
    /// The handler runs a step.
    Step(Phase),
    /// The artifact with this number is being processed.
    Artifact(usize),
    /// The handler cleans up.
    Cleanup,
    /// The build directory is being removed.
    Remove,
    /// Nothing is left to do.
    Finished,
}

/// What has happened.
#[derive(Debug, Clone, Copy, PartialEq, Eq, Structural)]
pub enum JobEvent {
    /// The build directory was created, or could not be.
    BuildDirCreated(bool),
    /// The handler was created, or could not be.
    HandlerCreated(bool),
    /// The handler finished a step, successfully or not.
    StepDone(bool),
    /// An artifact was processed, successfully or not.
    ArtifactDone(bool),
    /// The handler has cleaned up.
    CleanedUp,
    /// The build directory was removed, as far as that was possible.
    BuildDirRemoved,
}

/// What to do next.
#[derive(Debug, Clone, Copy, PartialEq, Eq, Structural)]
pub enum JobAction {
    /// Create the handler.
    CreateHandler,
    /// Let the handler run a step.
    RunStep(Phase),
    /// Process the artifact with this number.
    ProcessArtifact(usize),
    /// Let the handler clean up.
    Cleanup,
    /// Remove the build directory.
    RemoveBuildDir,
    /// The job is done: `true` for success.
    Finish(bool),
}

/// The run of the steps and artifacts of a job.
#[derive(Debug, Clone, Copy, PartialEq, Eq, Structural)]
pub struct JobSteps {
    /// What the run waits for.
    pub stage: JobStage,
    /// Whether the script succeeded, or was not run at all.
    pub script_ok: bool,
    /// Whether the job is a success so far.
    pub overall_ok: bool,
}

/// The run before anything happened: its build directory is being created.
pub open spec fn job_start() -> JobSteps {
    JobSteps { stage: JobStage::BuildDir, script_ok: true, overall_ok: true }
}

/// Whether `event` is what a run in this stage waits for.
pub open spec fn awaits(stage: JobStage, event: JobEvent) -> bool {
    match stage {
        JobStage::BuildDir => event is BuildDirCreated,
        JobStage::Handler => event is HandlerCreated,
        JobStage::Step(_) => event is StepDone,
        JobStage::Artifact(_) => event is ArtifactDone,
        JobStage::Cleanup => event is CleanedUp,
        JobStage::Remove => event is BuildDirRemoved,
        JobStage::Finished => false,
    }
}

/// Stops with the given outcome.
pub open spec fn job_finish(run: JobSteps, ok: bool) -> (JobSteps, JobAction) {
    (JobSteps { stage: JobStage::Finished, overall_ok: ok, ..run }, JobAction::Finish(ok))
}

/// Turns to cleaning up.
pub open spec fn job_cleanup(run: JobSteps) -> (JobSteps, JobAction) {
    (JobSteps { stage: JobStage::Cleanup, ..run }, JobAction::Cleanup)
}

/// Turns to the artifact with the given number, or to cleaning up after the last one.
pub open spec fn job_artifacts(run: JobSteps, count: nat, from: nat) -> (JobSteps, JobAction) {
    if from < count {
        (
            JobSteps { stage: JobStage::Artifact(from as usize), ..run },
            JobAction::ProcessArtifact(from as usize),
        )
    } else {
        job_cleanup(run)
    }
}

/// What follows when `event` happens; `cancelled` tells whether the job was cancelled by then.
///
/// A cancelled job runs no further step and uploads nothing, but it is cleaned up. The result of
/// `after_script` does not count. Once the handler exists, it always gets to clean up.
pub open spec fn job_next(
    run: JobSteps,
    response: JobResponse,
    event: JobEvent,
    cancelled: bool,
) -> (JobSteps, JobAction) {
    let count = response.artifacts@.len();
    let has_script = crate::client::find_step(response.steps@, Phase::Script) is Some;
    let has_after = crate::client::find_step(response.steps@, Phase::AfterScript) is Some;
    match event {
        JobEvent::BuildDirCreated(ok) => if ok {
            (JobSteps { stage: JobStage::Handler, ..run }, JobAction::CreateHandler)
        } else {
            job_finish(run, false)
        },
        JobEvent::HandlerCreated(ok) => if !ok {
            job_finish(run, false)
        } else if cancelled {
            job_cleanup(run)
        } else if has_script {
            (
                JobSteps { stage: JobStage::Step(Phase::Script), ..run },
                JobAction::RunStep(Phase::Script),
            )
        } else {
            job_cleanup(JobSteps { overall_ok: false, ..run })
        },
        JobEvent::StepDone(ok) => {
            let done = if run.stage == JobStage::Step(Phase::Script) {
                JobSteps { script_ok: ok, overall_ok: ok, ..run }
            } else {
                run
            };
            if cancelled {
                job_cleanup(done)
            } else if run.stage == JobStage::Step(Phase::Script) && has_after {
                (
                    JobSteps { stage: JobStage::Step(Phase::AfterScript), ..done },
                    JobAction::RunStep(Phase::AfterScript),
                )
            } else {
                job_artifacts(done, count, 0)
            }
        },
        JobEvent::ArtifactDone(ok) => match run.stage {
            JobStage::Artifact(i) => if ok {
                job_artifacts(run, count, (i + 1) as nat)
            } else {
                job_cleanup(JobSteps { overall_ok: false, ..run })
            },
            _ => job_cleanup(run),
        },
        JobEvent::CleanedUp => (
            JobSteps { stage: JobStage::Remove, ..run },
            JobAction::RemoveBuildDir,
        ),
        JobEvent::BuildDirRemoved => job_finish(run, run.overall_ok),
    }
}

impl JobSteps {
    /// A run whose build directory is being created.
    pub fn new() -> (r: Self)
        ensures
            r == job_start(),
    {
        JobSteps { stage: JobStage::BuildDir, script_ok: true, overall_ok: true }
    }

    fn cleanup(&mut self) -> (r: JobAction)
        ensures
            (*final(self), r) == job_cleanup(*old(self)),
    {
        self.stage = JobStage::Cleanup;
        JobAction::Cleanup
    }

    fn finish(&mut self, ok: bool) -> (r: JobAction)
        ensures
            (*final(self), r) == job_finish(*old(self), ok),
    {
        self.stage = JobStage::Finished;
        self.overall_ok = ok;
        JobAction::Finish(ok)
    }

    fn artifacts(&mut self, count: usize, from: usize) -> (r: JobAction)
        ensures
            (*final(self), r) == job_artifacts(*old(self), count as nat, from as nat),
    {
        if from < count {
            self.stage = JobStage::Artifact(from);
            JobAction::ProcessArtifact(from)
        } else {
            self.cleanup()
        }
    }

    /// Takes note of an event and tells what to do next.
    pub fn next(&mut self, response: &JobResponse, event: JobEvent, cancelled: bool) -> (r:
        JobAction)
        requires
            awaits(old(self).stage, event),
            old(self).stage matches JobStage::Artifact(i) ==> i < response.artifacts@.len(),
        ensures
            (*final(self), r) == job_next(*old(self), *response, event, cancelled),
            final(self).stage matches JobStage::Artifact(i) ==> i < response.artifacts@.len(),
    {
        let count = response.artifacts.len();
        match event {
            JobEvent::BuildDirCreated(ok) => {
                if ok {
                    self.stage = JobStage::Handler;
                    JobAction::CreateHandler
                } else {
                    self.finish(false)
                }
            },
            JobEvent::HandlerCreated(ok) => {
                if !ok {
                    self.finish(false)
                } else if cancelled {
                    self.cleanup()
                } else if response.step(Phase::Script).is_some() {
                    self.stage = JobStage::Step(Phase::Script);
                    JobAction::RunStep(Phase::Script)
                } else {
                    self.overall_ok = false;
                    self.cleanup()
                }
            },
            JobEvent::StepDone(ok) => {
                let script = self.stage == JobStage::Step(Phase::Script);
                if script {
                    self.script_ok = ok;
                    self.overall_ok = ok;
                }
                if cancelled {
                    self.cleanup()
                } else if script && response.step(Phase::AfterScript).is_some() {
                    self.stage = JobStage::Step(Phase::AfterScript);
                    JobAction::RunStep(Phase::AfterScript)
                } else {
                    self.artifacts(count, 0)
                }
            },
            JobEvent::ArtifactDone(ok) => match self.stage {
                JobStage::Artifact(i) => {
                    if ok {
                        self.artifacts(count, i + 1)
                    } else {
                        self.overall_ok = false;
                        self.cleanup()
                    }
                },
                _ => self.cleanup(),
            },
            JobEvent::CleanedUp => {
                self.stage = JobStage::Remove;
                JobAction::RemoveBuildDir
            },
            JobEvent::BuildDirRemoved => {
                let ok = self.overall_ok;
                self.finish(ok)
            },
        }
    }

    /// The result of the script, as the artifacts see it.
    pub fn script_result(&self) -> (r: JobResult)
        ensures
            r is Ok == self.script_ok,
    {
        if self.script_ok {
            Ok(())
        } else {
            Err(())
        }
    }
}

/// The line that the log gets where the build directory could not be created.
pub fn build_dir_failure(reason: &str) -> (r: String)
    ensures
        r@ == "Failed to remove build dir: "@ + reason@,
{
    "Failed to remove build dir: ".to_owned().concat(reason)
}

/// Something that happened during a run, and whether the job was cancelled by then.
pub struct Occurrence {
    pub event: JobEvent,
    pub cancelled: bool,
}

/// The run after a series of events.
pub open spec fn job_after(response: JobResponse, events: Seq<Occurrence>) -> JobSteps
    decreases events.len(),
{
    if events.len() == 0 {
        job_start()
    } else {
        job_next(
            job_after(response, events.drop_last()),
            response,
            events.last().event,
            events.last().cancelled,
        ).0
    }
}

/// What was done in a run after a series of events.
pub open spec fn job_actions(response: JobResponse, events: Seq<Occurrence>) -> Seq<JobAction>
    decreases events.len(),
{
    if events.len() == 0 {
        Seq::empty()
    } else {
        job_actions(response, events.drop_last()).push(
            job_next(
                job_after(response, events.drop_last()),
                response,
                events.last().event,
                events.last().cancelled,
            ).1,
        )
    }
}

/// Whether each event is one that the run waits for when it happens.
pub open spec fn job_history(response: JobResponse, events: Seq<Occurrence>) -> bool
    decreases events.len(),
{
    events.len() > 0 ==> {
        &&& job_history(response, events.drop_last())
        &&& awaits(job_after(response, events.drop_last()).stage, events.last().event)
    }
}

/// How often an action occurs.
pub open spec fn times(actions: Seq<JobAction>, action: JobAction) -> nat
    decreases actions.len(),
{
    if actions.len() == 0 {
        0
    } else if actions.last() == action {
        times(actions.drop_last(), action) + 1
    } else {
        times(actions.drop_last(), action)
    }
}

/// Whether the handler was created.
pub open spec fn handler_created(events: Seq<Occurrence>) -> bool {
    exists|i: int|
        0 <= i < events.len() && (#[trigger] events[i]).event == JobEvent::HandlerCreated(true)
}

/// Whether the handler exists in this stage and has not been asked to clean up.
pub open spec fn handler_at_work(stage: JobStage) -> bool {
    stage is Step || stage is Artifact
}

proof fn lemma_cleanups(response: JobResponse, events: Seq<Occurrence>)
    requires
        job_history(response, events),
    ensures
        ({
            let stage = job_after(response, events).stage;
            let n = times(job_actions(response, events), JobAction::Cleanup);
            &&& (stage is BuildDir || stage is Handler) ==> n == 0 && !handler_created(events)
            &&& handler_at_work(stage) ==> n == 0 && handler_created(events)
            &&& (stage is Cleanup || stage is Remove) ==> n == 1 && handler_created(events)
            &&& stage is Finished ==> n == (if handler_created(events) {
                1nat
            } else {
                0nat
            })
        }),
    decreases events.len(),
{
    if events.len() > 0 {
        let before = events.drop_last();
        lemma_cleanups(response, before);
        let last = events.last();
        assert(events[events.len() - 1] == last);
        assert(handler_created(events) <==> handler_created(before) || last.event
            == JobEvent::HandlerCreated(true)) by {
            if handler_created(before) {
                let i = choose|i: int|
                    0 <= i < before.len() && (#[trigger] before[i]).event
                        == JobEvent::HandlerCreated(true);
                assert(events[i].event == JobEvent::HandlerCreated(true));
            }
            if handler_created(events) && last.event != JobEvent::HandlerCreated(true) {
                let i = choose|i: int|
                    0 <= i < events.len() && (#[trigger] events[i]).event
                        == JobEvent::HandlerCreated(true);
                assert(before[i] == events[i]);
            }
        }
        let actions = job_actions(response, events);
        assert(actions.drop_last() =~= job_actions(response, before));
    }
}

/// A handler that was created gets to clean up, exactly once, whether the job succeeded, failed or
/// was cancelled; one that was not created is not asked to.
pub proof fn law_cleanup_always_runs(response: JobResponse, events: Seq<Occurrence>)
    requires
        job_history(response, events),
        job_after(response, events).stage is Finished,
    ensures
        times(job_actions(response, events), JobAction::Cleanup) == (if handler_created(events) {
            1nat
        } else {
            0nat
        }),
{
    lemma_cleanups(response, events);
}

/// Once a job was cancelled, no further step is run, and no upload is begun after the steps.
pub proof fn law_cancelled_job_stops(run: JobSteps, response: JobResponse, event: JobEvent)
    requires
        awaits(run.stage, event),
    ensures
        !(job_next(run, response, event, true).1 is RunStep),
        job_next(run, response, event, true).1 is ProcessArtifact ==> run.stage is Artifact,
{
}

/// The result of `after_script` makes no difference.
pub proof fn law_after_script_is_ignored(run: JobSteps, response: JobResponse, cancelled: bool)
    requires
        run.stage == JobStage::Step(Phase::AfterScript),
    ensures
        job_next(run, response, JobEvent::StepDone(true), cancelled) == job_next(
            run,
            response,
            JobEvent::StepDone(false),
            cancelled,
        ),
{
}

/// Whether everything that counts went well: directory, handler, script and artifacts.
pub open spec fn all_went_well(response: JobResponse, events: Seq<Occurrence>) -> bool
    decreases events.len(),
{
    events.len() > 0 ==> {
        let before = events.drop_last();
        let stage = job_after(response, before).stage;
        &&& all_went_well(response, before)
        &&& match events.last().event {
            JobEvent::BuildDirCreated(ok) => ok,
            JobEvent::HandlerCreated(ok) => ok && (events.last().cancelled
                || crate::client::find_step(response.steps@, Phase::Script) is Some),
            JobEvent::StepDone(ok) => ok || stage == JobStage::Step(Phase::AfterScript),
            JobEvent::ArtifactDone(ok) => ok,
            _ => true,
        }
    }
}

proof fn lemma_outcome(response: JobResponse, events: Seq<Occurrence>)
    requires
        job_history(response, events),
    ensures
        ({
            let run = job_after(response, events);
            &&& run.overall_ok == all_went_well(response, events)
            &&& run.stage matches JobStage::Step(Phase::Script) ==> run.overall_ok
            &&& (run.stage is BuildDir || run.stage is Handler) ==> run.overall_ok
        }),
    decreases events.len(),
{
    if events.len() > 0 {
        lemma_outcome(response, events.drop_last());
    }
}

/// A job is reported as a success exactly if its directory and handler could be created, its script
/// succeeded and every artifact was processed.
pub proof fn law_outcome(response: JobResponse, events: Seq<Occurrence>)
    requires
        job_history(response, events),
        job_after(response, events).stage is Finished,
    ensures
        job_actions(response, events).last() == JobAction::Finish(
            all_went_well(response, events),
        ),
{
    lemma_outcome(response, events);
    lemma_outcome(response, events.drop_last());
}

/// Whether a job has a step with the given name.
pub open spec fn has_step(response: JobResponse, name: Phase) -> bool {
    exists|i: int| 0 <= i < response.steps@.len() && (#[trigger] response.steps@[i]).name == name
}

/// Whether the job was not cancelled when any of these events happened.
pub open spec fn never_cancelled(events: Seq<Occurrence>) -> bool {
    forall|i: int| 0 <= i < events.len() ==> !(#[trigger] events[i]).cancelled
}

proof fn lemma_last_action(response: JobResponse, events: Seq<Occurrence>)
    requires
        job_history(response, events),
    ensures
        job_actions(response, events).len() == events.len(),
        events.len() == 0 ==> job_after(response, events).stage is BuildDir,
        events.len() > 0 ==> {
            let action = job_actions(response, events).last();
            match job_after(response, events).stage {
                JobStage::BuildDir => false,
                JobStage::Handler => action == JobAction::CreateHandler,
                JobStage::Step(name) => action == JobAction::RunStep(name),
                JobStage::Artifact(i) => action == JobAction::ProcessArtifact(i) && i
                    < response.artifacts@.len(),
                JobStage::Cleanup => action == JobAction::Cleanup,
                JobStage::Remove => action == JobAction::RemoveBuildDir,
                JobStage::Finished => action is Finish,
            }
        },
    decreases events.len(),
{
    if events.len() > 0 {
        lemma_last_action(response, events.drop_last());
    }
}

/// The build directory comes first and then the handler; without either the job has failed. In the end
/// the handler cleans up, the build directory is removed, and the job is done.
pub proof fn law_job_begins_and_ends(response: JobResponse, events: Seq<Occurrence>)
    requires
        job_history(response, events),
        events.len() > 0,
    ensures
        events[0].event is BuildDirCreated,
        ({
            let event = events.last().event;
            let action = job_actions(response, events).last();
            &&& event == JobEvent::BuildDirCreated(true) ==> action == JobAction::CreateHandler
            &&& event == JobEvent::BuildDirCreated(false) ==> action == JobAction::Finish(false)
            &&& event == JobEvent::HandlerCreated(false) ==> action == JobAction::Finish(false)
            &&& event == JobEvent::CleanedUp ==> action == JobAction::RemoveBuildDir
            &&& event == JobEvent::BuildDirRemoved ==> action is Finish
        }),
    decreases events.len(),
{
    let before = events.drop_last();
    if before.len() > 0 {
        law_job_begins_and_ends(response, before);
        assert(before[0] == events[0]);
    } else {
        assert(before =~= Seq::<Occurrence>::empty());
    }
}

/// Once the handler exists, the script is run, unless the job was cancelled or has no script.
pub proof fn law_script_follows_handler(response: JobResponse, events: Seq<Occurrence>)
    requires
        job_history(response, events),
        events.len() > 0,
        events.last().event == JobEvent::HandlerCreated(true),
    ensures
        job_actions(response, events).last() == (if !events.last().cancelled && has_step(
            response,
            Phase::Script,
        ) {
            JobAction::RunStep(Phase::Script)
        } else {
            JobAction::Cleanup
        }),
{
    crate::client::law_step_is_found(response.steps@, Phase::Script);
}

/// After the script, whether it succeeded or failed, `after_script` is run where the job has one, unless
/// the job was cancelled.
pub proof fn law_after_script_follows_script(
    response: JobResponse,
    events: Seq<Occurrence>,
    ok: bool,
)
    requires
        job_history(response, events),
        events.len() > 1,
        job_actions(response, events.drop_last()).last() == JobAction::RunStep(Phase::Script),
        events.last().event == JobEvent::StepDone(ok),
        !events.last().cancelled,
        has_step(response, Phase::AfterScript),
    ensures
        job_actions(response, events).last() == JobAction::RunStep(Phase::AfterScript),
{
    lemma_last_action(response, events.drop_last());
    crate::client::law_step_is_found(response.steps@, Phase::AfterScript);
}

/// After the last step, whether it succeeded or failed, the first artifact is processed where the job has
/// one, unless the job was cancelled.
pub proof fn law_artifacts_follow_steps(
    response: JobResponse,
    events: Seq<Occurrence>,
    name: Phase,
    ok: bool,
)
    requires
        job_history(response, events),
        events.len() > 1,
        job_actions(response, events.drop_last()).last() == JobAction::RunStep(name),
        events.last().event == JobEvent::StepDone(ok),
        !events.last().cancelled,
        name == Phase::AfterScript || !has_step(response, Phase::AfterScript),
    ensures
        job_actions(response, events).last() == (if response.artifacts@.len() > 0 {
            JobAction::ProcessArtifact(0)
        } else {
            JobAction::Cleanup
        }),
{
    lemma_last_action(response, events.drop_last());
    crate::client::law_step_is_found(response.steps@, Phase::AfterScript);
}

/// After an artifact comes the next one, and after the last one the handler cleans up; after one that
/// could not be processed none comes any more.
pub proof fn law_artifacts_follow_each_other(
    response: JobResponse,
    events: Seq<Occurrence>,
    i: usize,
    ok: bool,
)
    requires
        job_history(response, events),
        events.len() > 1,
        job_actions(response, events.drop_last()).last() == JobAction::ProcessArtifact(i),
        events.last().event == JobEvent::ArtifactDone(ok),
    ensures
        job_actions(response, events).last() == (if ok && i + 1 < response.artifacts@.len() {
            JobAction::ProcessArtifact((i + 1) as usize)
        } else {
            JobAction::Cleanup
        }),
{
    lemma_last_action(response, events.drop_last());
}

/// A job that was cancelled when its handler was created or a step was done goes on to clean up at once.
pub proof fn law_cancelled_job_cleans_up(response: JobResponse, events: Seq<Occurrence>)
    requires
        job_history(response, events),
        events.len() > 0,
        events.last().cancelled,
        events.last().event == JobEvent::HandlerCreated(true) || events.last().event is StepDone,
    ensures
        job_actions(response, events).last() == JobAction::Cleanup,
{
}

proof fn lemma_step_counts(response: JobResponse, events: Seq<Occurrence>)
    requires
        job_history(response, events),
        never_cancelled(events),
    ensures
        ({
            let stage = job_after(response, events).stage;
            let actions = job_actions(response, events);
            let script = times(actions, JobAction::RunStep(Phase::Script));
            let after = times(actions, JobAction::RunStep(Phase::AfterScript));
            let has_script = has_step(response, Phase::Script);
            let has_after = has_script && has_step(response, Phase::AfterScript);
            match stage {
                JobStage::BuildDir => script == 0 && after == 0,
                JobStage::Handler => script == 0 && after == 0,
                JobStage::Step(Phase::Script) => script == 1 && after == 0 && has_script,
                JobStage::Step(Phase::AfterScript) => script == 1 && after == 1 && has_after,
                _ => (handler_created(events) ==> script == (if has_script {
                    1nat
                } else {
                    0nat
                }) && after == (if has_after {
                    1nat
                } else {
                    0nat
                })) && (!handler_created(events) ==> script == 0 && after == 0),
            }
        }),
    decreases events.len(),
{
    if events.len() > 0 {
        let before = events.drop_last();
        assert forall|i: int| 0 <= i < before.len() implies !(#[trigger] before[i]).cancelled by {
            assert(before[i] == events[i]);
        }
        lemma_step_counts(response, before);
        lemma_cleanups(response, before);
        lemma_cleanups(response, events);
        crate::client::law_step_is_found(response.steps@, Phase::Script);
        crate::client::law_step_is_found(response.steps@, Phase::AfterScript);
        assert(!events[events.len() - 1].cancelled);
        let actions = job_actions(response, events);
        assert(actions.drop_last() =~= job_actions(response, before));
        assert(actions.last() == job_next(
            job_after(response, before),
            response,
            events.last().event,
            false,
        ).1);
    }
}

/// A job that was never cancelled, and whose handler was created, has run its script once and its
/// `after_script` once when it is done, however these ended.
pub proof fn law_each_step_runs_once(response: JobResponse, events: Seq<Occurrence>)
    requires
        job_history(response, events),
        events.len() > 0,
        job_actions(response, events).last() is Finish,
        never_cancelled(events),
        handler_created(events),
        has_step(response, Phase::Script),
    ensures
        times(job_actions(response, events), JobAction::RunStep(Phase::Script)) == 1,
        times(job_actions(response, events), JobAction::RunStep(Phase::AfterScript)) == (if has_step(
            response,
            Phase::AfterScript,
        ) {
            1nat
        } else {
            0nat
        }),
{
    lemma_last_action(response, events);
    lemma_step_counts(response, events);
}

/// The numbers of the artifacts that were processed, in order.
pub open spec fn processed(actions: Seq<JobAction>) -> Seq<usize>
    decreases actions.len(),
{
    if actions.len() == 0 {
        Seq::empty()
    } else {
        match actions.last() {
            JobAction::ProcessArtifact(i) => processed(actions.drop_last()).push(i),
            _ => processed(actions.drop_last()),
        }
    }
}

/// Whether an artifact could not be processed.
pub open spec fn artifact_failed(events: Seq<Occurrence>) -> bool {
    exists|i: int|
        0 <= i < events.len() && (#[trigger] events[i]).event == JobEvent::ArtifactDone(false)
}

proof fn lemma_processed(response: JobResponse, events: Seq<Occurrence>)
    requires
        job_history(response, events),
    ensures
        ({
            let stage = job_after(response, events).stage;
            let numbers = processed(job_actions(response, events));
            &&& numbers.len() <= response.artifacts@.len()
            &&& forall|i: int| 0 <= i < numbers.len() ==> #[trigger] numbers[i] == i
            &&& (stage is BuildDir || stage is Handler || stage is Step) ==> numbers.len() == 0
            &&& stage matches JobStage::Artifact(i) ==> numbers.len() == i + 1
            &&& (stage is BuildDir || stage is Handler || stage is Step || stage is Artifact)
                ==> !artifact_failed(events)
            &&& never_cancelled(events) && handler_created(events) && has_step(
                response,
                Phase::Script,
            ) && !artifact_failed(events) && (stage is Cleanup || stage is Remove || stage is Finished)
                ==> numbers.len() == response.artifacts@.len()
        }),
    decreases events.len(),
{
    if events.len() > 0 {
        let before = events.drop_last();
        assert(response.artifacts.len() == response.artifacts@.len());
        lemma_processed(response, before);
        lemma_last_action(response, before);
        lemma_cleanups(response, before);
        lemma_cleanups(response, events);
        crate::client::law_step_is_found(response.steps@, Phase::Script);
        assert(events[events.len() - 1] == events.last());
        if never_cancelled(events) {
            assert forall|i: int| 0 <= i < before.len() implies !(
            #[trigger] before[i]).cancelled by {
                assert(before[i] == events[i]);
            }
        }
        assert(artifact_failed(events) <==> artifact_failed(before) || events.last().event
            == JobEvent::ArtifactDone(false)) by {
            if artifact_failed(before) {
                let i = choose|i: int|
                    0 <= i < before.len() && (#[trigger] before[i]).event
                        == JobEvent::ArtifactDone(false);
                assert(events[i].event == JobEvent::ArtifactDone(false));
            }
            if artifact_failed(events) && events.last().event != JobEvent::ArtifactDone(false) {
                let i = choose|i: int|
                    0 <= i < events.len() && (#[trigger] events[i]).event
                        == JobEvent::ArtifactDone(false);
                assert(before[i] == events[i]);
            }
        }
        let actions = job_actions(response, events);
        assert(actions.drop_last() =~= job_actions(response, before));
        assert(actions.last() == job_next(
            job_after(response, before),
            response,
            events.last().event,
            events.last().cancelled,
        ).1);
    }
}

/// Artifacts are processed in order and once each; all of them, whether the script succeeded or not, where
/// the job was never cancelled and none fails.
pub proof fn law_all_artifacts_are_processed(response: JobResponse, events: Seq<Occurrence>)
    requires
        job_history(response, events),
    ensures
        forall|i: int|
            0 <= i < processed(job_actions(response, events)).len() ==> #[trigger] processed(
                job_actions(response, events),
            )[i] == i,
        events.len() > 0 && job_actions(response, events).last() is Finish && never_cancelled(events)
            && handler_created(events) && has_step(response, Phase::Script) && !artifact_failed(
            events,
        ) ==> processed(job_actions(response, events)).len() == response.artifacts@.len(),
{
    lemma_processed(response, events);
    lemma_last_action(response, events);
}

/// Whether the first step that was done failed.
pub open spec fn first_step_failed(events: Seq<Occurrence>) -> bool {
    exists|i: int|
        0 <= i < events.len() && (#[trigger] events[i]).event == JobEvent::StepDone(false)
            && no_step_done(events.take(i))
}

/// Whether no step was done.
pub open spec fn no_step_done(events: Seq<Occurrence>) -> bool {
    forall|i: int| 0 <= i < events.len() ==> !((#[trigger] events[i]).event is StepDone)
}

/// Whether something that a job cannot do without failed: its directory, its handler or an artifact; or
/// the job, though not cancelled, had no script to run.
pub open spec fn something_failed(response: JobResponse, events: Seq<Occurrence>) -> bool {
    exists|i: int|
        0 <= i < events.len() && ((#[trigger] events[i]).event == JobEvent::BuildDirCreated(false)
            || events[i].event == JobEvent::HandlerCreated(false) || events[i].event
            == JobEvent::ArtifactDone(false) || (events[i].event == JobEvent::HandlerCreated(true)
            && !events[i].cancelled && !has_step(response, Phase::Script)))
}

proof fn lemma_failures(response: JobResponse, events: Seq<Occurrence>)
    requires
        job_history(response, events),
    ensures
        ({
            let run = job_after(response, events);
            &&& all_went_well(response, events) == (!first_step_failed(events) && !something_failed(
                response,
                events,
            ))
            &&& run.script_ok == !first_step_failed(events)
            &&& (run.stage is BuildDir || run.stage is Handler || run.stage == JobStage::Step(
                Phase::Script,
            )) ==> no_step_done(events)
            &&& run.stage == JobStage::Step(Phase::AfterScript) ==> !no_step_done(events)
        }),
    decreases events.len(),
{
    if events.len() == 0 {
        assert(all_went_well(response, events));
        assert(no_step_done(events));
    } else {
        let before = events.drop_last();
        let n = events.len() - 1;
        let last = events.last();
        lemma_failures(response, before);
        lemma_last_action(response, before);
        crate::client::law_step_is_found(response.steps@, Phase::Script);
        assert(events[n] == last);
        assert(events.take(n) =~= before);
        assert forall|i: int| 0 <= i < n implies before[i] == events[i] && before.take(i)
            == events.take(i) by {
            assert(before.take(i) =~= events.take(i));
        }
        assert(no_step_done(events) == (no_step_done(before) && !(last.event is StepDone))) by {
            if no_step_done(events) {
                assert forall|i: int| 0 <= i < before.len() implies !((
                #[trigger] before[i]).event is StepDone) by {
                    assert(before[i] == events[i]);
                }
            }
            if no_step_done(before) && !(last.event is StepDone) {
                assert forall|i: int| 0 <= i < events.len() implies !((
                #[trigger] events[i]).event is StepDone) by {
                    if i < n {
                        assert(before[i] == events[i]);
                    }
                }
            }
        }
        assert(first_step_failed(events) == (first_step_failed(before) || (no_step_done(before)
            && last.event == JobEvent::StepDone(false)))) by {
            if first_step_failed(before) {
                let i = choose|i: int|
                    0 <= i < before.len() && (#[trigger] before[i]).event == JobEvent::StepDone(
                        false,
                    ) && no_step_done(before.take(i));
                assert(events[i].event == JobEvent::StepDone(false) && no_step_done(
                    events.take(i),
                ));
            }
            if first_step_failed(events) {
                let i = choose|i: int|
                    0 <= i < events.len() && (#[trigger] events[i]).event == JobEvent::StepDone(
                        false,
                    ) && no_step_done(events.take(i));
                if i < n {
                    assert(before[i].event == JobEvent::StepDone(false) && no_step_done(
                        before.take(i),
                    ));
                }
            }
        }
        let bad = last.event == JobEvent::BuildDirCreated(false) || last.event
            == JobEvent::HandlerCreated(false) || last.event == JobEvent::ArtifactDone(false) || (
        last.event == JobEvent::HandlerCreated(true) && !last.cancelled && !has_step(
            response,
            Phase::Script,
        ));
        assert(something_failed(response, events) == (something_failed(response, before) || bad)) by {
            if something_failed(response, before) {
                let i = choose|i: int|
                    0 <= i < before.len() && ((#[trigger] before[i]).event
                        == JobEvent::BuildDirCreated(false) || before[i].event
                        == JobEvent::HandlerCreated(false) || before[i].event
                        == JobEvent::ArtifactDone(false) || (before[i].event
                        == JobEvent::HandlerCreated(true) && !before[i].cancelled && !has_step(
                        response,
                        Phase::Script,
                    )));
                assert(events[i] == before[i]);
            }
            if something_failed(response, events) && !bad {
                let i = choose|i: int|
                    0 <= i < events.len() && ((#[trigger] events[i]).event
                        == JobEvent::BuildDirCreated(false) || events[i].event
                        == JobEvent::HandlerCreated(false) || events[i].event
                        == JobEvent::ArtifactDone(false) || (events[i].event
                        == JobEvent::HandlerCreated(true) && !events[i].cancelled && !has_step(
                        response,
                        Phase::Script,
                    )));
                assert(events[i] == before[i]);
            }
        }
    }
}

/// A job that is done is a success exactly if its script, the first step, did not fail, and neither did
/// its directory, its handler or an artifact. What became of a later step makes no difference.
pub proof fn law_job_succeeds_unless_something_failed(
    response: JobResponse,
    events: Seq<Occurrence>,
)
    requires
        job_history(response, events),
        events.len() > 0,
        job_actions(response, events).last() is Finish,
    ensures
        job_actions(response, events).last() == JobAction::Finish(
            !first_step_failed(events) && !something_failed(response, events),
        ),
{
    lemma_last_action(response, events);
    law_outcome(response, events);
    lemma_failures(response, events);
}

/// What the artifacts are told of the script is whether it, the first step, did not fail.
pub proof fn law_artifacts_see_script_result(response: JobResponse, events: Seq<Occurrence>)
    requires
        job_history(response, events),
    ensures
        job_after(response, events).script_ok == !first_step_failed(events),
{
    lemma_failures(response, events);
}

// ---------------------------------------------------------------------------
// Uploading an artifact
// ---------------------------------------------------------------------------

/// Where the processing of an artifact stands: what it waits for.
#[derive(Debug, Clone, Copy, PartialEq, Eq, Structural)]
pub enum ArtifactStage {
    /// The uploader is being created.
    Uploader,
    /// The files are being listed.
    List,
    /// The next file is being taken from the list.
    File,
    /// The file is being begun in the upload.
    Begin,
    /// The data of the file is being opened.
    Open,
    /// The data is being copied.
    Copy,
    /// The upload is on its way.
    Upload,
    /// Nothing is left to do.
    Finished,
}

/// What has happened. Where a flag is there, it tells success.
#[derive(Debug, Clone, Copy, PartialEq, Eq, Structural)]
pub enum ArtifactEvent {
    UploaderCreated(bool),
    FilesListed(bool),
    /// A file was taken, and whether the artifact selects it.
    FileTaken(bool),
    /// There is no further file.
    NoFileLeft,
    FileBegun(bool),
    DataOpened(bool),
    DataCopied(bool),
    Uploaded(bool),
}

/// What to do next.
#[derive(Debug, Clone, Copy, PartialEq, Eq, Structural)]
pub enum ArtifactAction {
    CreateUploader,
    ListFiles,
    TakeFile,
    BeginFile,
    OpenData,
    CopyData,
    Upload,
    /// The artifact is done: `true` for success.
    Finish(bool),
}

/// The processing of one artifact.
#[derive(Debug, Clone, Copy, PartialEq, Eq, Structural)]
pub struct ArtifactSteps {
    /// What the processing waits for.
    pub stage: ArtifactStage,
    /// Whether a file was copied.
    pub copied: bool,
}

/// Whether an artifact is uploaded after a script with the given result.
pub open spec fn upload_wanted(when: ArtifactWhen, script_ok: bool) -> bool {
    match when {
        ArtifactWhen::Always => true,
        ArtifactWhen::OnSuccess => script_ok,
        ArtifactWhen::OnFailure => !script_ok,
    }
}

/// Whether `event` is what the processing waits for in this stage.
pub open spec fn artifact_awaits(stage: ArtifactStage, event: ArtifactEvent) -> bool {
    match stage {
        ArtifactStage::Uploader => event is UploaderCreated,
        ArtifactStage::List => event is FilesListed,
        ArtifactStage::File => event is FileTaken || event is NoFileLeft,
        ArtifactStage::Begin => event is FileBegun,
        ArtifactStage::Open => event is DataOpened,
        ArtifactStage::Copy => event is DataCopied,
        ArtifactStage::Upload => event is Uploaded,
        ArtifactStage::Finished => false,
    }
}

/// The first thing to do for an artifact: nothing, where it is not wanted.
pub open spec fn artifact_start(when: ArtifactWhen, script_ok: bool) -> (
    ArtifactSteps,
    ArtifactAction,
) {
    if upload_wanted(when, script_ok) {
        (
            ArtifactSteps { stage: ArtifactStage::Uploader, copied: false },
            ArtifactAction::CreateUploader,
        )
    } else {
        (
            ArtifactSteps { stage: ArtifactStage::Finished, copied: false },
            ArtifactAction::Finish(true),
        )
    }
}

/// Whether an event tells of a failure.
pub open spec fn is_failure(event: ArtifactEvent) -> bool {
    match event {
        ArtifactEvent::UploaderCreated(ok) => !ok,
        ArtifactEvent::FilesListed(ok) => !ok,
        ArtifactEvent::FileTaken(_) => false,
        ArtifactEvent::NoFileLeft => false,
        ArtifactEvent::FileBegun(ok) => !ok,
        ArtifactEvent::DataOpened(ok) => !ok,
        ArtifactEvent::DataCopied(ok) => !ok,
        ArtifactEvent::Uploaded(ok) => !ok,
    }
}

/// What follows when `event` happens. The first failure ends the processing; what was copied is
/// uploaded once no file is left, and nothing is uploaded where no file was selected.
pub open spec fn artifact_next(steps: ArtifactSteps, event: ArtifactEvent) -> (
    ArtifactSteps,
    ArtifactAction,
) {
    let done = ArtifactSteps { stage: ArtifactStage::Finished, ..steps };
    if is_failure(event) {
        (done, ArtifactAction::Finish(false))
    } else {
        match event {
            ArtifactEvent::UploaderCreated(_) => (
                ArtifactSteps { stage: ArtifactStage::List, ..steps },
                ArtifactAction::ListFiles,
            ),
            ArtifactEvent::FilesListed(_) => (
                ArtifactSteps { stage: ArtifactStage::File, ..steps },
                ArtifactAction::TakeFile,
            ),
            ArtifactEvent::FileTaken(selected) => if selected {
                (
                    ArtifactSteps { stage: ArtifactStage::Begin, ..steps },
                    ArtifactAction::BeginFile,
                )
            } else {
                (
                    ArtifactSteps { stage: ArtifactStage::File, ..steps },
                    ArtifactAction::TakeFile,
                )
            },
            ArtifactEvent::NoFileLeft => if steps.copied {
                (
                    ArtifactSteps { stage: ArtifactStage::Upload, ..steps },
                    ArtifactAction::Upload,
                )
            } else {
                (done, ArtifactAction::Finish(true))
            },
            ArtifactEvent::FileBegun(_) => (
                ArtifactSteps { stage: ArtifactStage::Open, ..steps },
                ArtifactAction::OpenData,
            ),
            ArtifactEvent::DataOpened(_) => (
                ArtifactSteps { stage: ArtifactStage::Copy, ..steps },
                ArtifactAction::CopyData,
            ),
            ArtifactEvent::DataCopied(_) => (
                ArtifactSteps { stage: ArtifactStage::File, copied: true },
                ArtifactAction::TakeFile,
            ),
            ArtifactEvent::Uploaded(_) => (done, ArtifactAction::Finish(true)),
        }
    }
}

impl ArtifactSteps {
    /// Begins with an artifact, after a script with the given result.
    pub fn start(artifact: &JobArtifact, script: JobResult) -> (r: (Self, ArtifactAction))
        ensures
            r == artifact_start(artifact.when, script is Ok),
    {
        let upload = match artifact.when {
            ArtifactWhen::Always => true,
            ArtifactWhen::OnSuccess => script.is_ok(),
            ArtifactWhen::OnFailure => script.is_err(),
        };
        if upload {
            (
                ArtifactSteps { stage: ArtifactStage::Uploader, copied: false },
                ArtifactAction::CreateUploader,
            )
        } else {
            (
                ArtifactSteps { stage: ArtifactStage::Finished, copied: false },
                ArtifactAction::Finish(true),
            )
        }
    }

    fn go(&mut self, ok: bool, stage: ArtifactStage, action: ArtifactAction) -> (r: ArtifactAction)
        ensures
            final(self).copied == old(self).copied,
            ok ==> final(self).stage == stage && r == action,
            !ok ==> final(self).stage == ArtifactStage::Finished && r == ArtifactAction::Finish(
                false,
            ),
    {
        if ok {
            self.stage = stage;
            action
        } else {
            self.stage = ArtifactStage::Finished;
            ArtifactAction::Finish(false)
        }
    }

    /// Takes note of an event and tells what to do next.
    pub fn next(&mut self, event: ArtifactEvent) -> (r: ArtifactAction)
        requires
            artifact_awaits(old(self).stage, event),
        ensures
            (*final(self), r) == artifact_next(*old(self), event),
    {
        match event {
            ArtifactEvent::UploaderCreated(ok) => self.go(
                ok,
                ArtifactStage::List,
                ArtifactAction::ListFiles,
            ),
            ArtifactEvent::FilesListed(ok) => self.go(
                ok,
                ArtifactStage::File,
                ArtifactAction::TakeFile,
            ),
            ArtifactEvent::FileTaken(selected) => {
                if selected {
                    self.go(true, ArtifactStage::Begin, ArtifactAction::BeginFile)
                } else {
                    self.go(true, ArtifactStage::File, ArtifactAction::TakeFile)
                }
            },
            ArtifactEvent::NoFileLeft => {
                if self.copied {
                    self.go(true, ArtifactStage::Upload, ArtifactAction::Upload)
                } else {
                    self.go(true, ArtifactStage::Finished, ArtifactAction::Finish(true))
                }
            },
            ArtifactEvent::FileBegun(ok) => self.go(
                ok,
                ArtifactStage::Open,
                ArtifactAction::OpenData,
            ),
            ArtifactEvent::DataOpened(ok) => self.go(
                ok,
                ArtifactStage::Copy,
                ArtifactAction::CopyData,
            ),
            ArtifactEvent::DataCopied(ok) => {
                if ok {
                    self.copied = true;
                }
                self.go(ok, ArtifactStage::File, ArtifactAction::TakeFile)
            },
            ArtifactEvent::Uploaded(ok) => self.go(
                ok,
                ArtifactStage::Finished,
                ArtifactAction::Finish(true),
            ),
        }
    }
}

/// The name under which a file is uploaded with an artifact: its normalized path, where the artifact
/// selects that path.
pub open spec fn upload_name_of(paths: Seq<Seq<char>>, path: Seq<char>) -> Option<Seq<char>> {
    let name = crate::paths::normal_path(path);
    if crate::paths::path_matches(name, paths) {
        Some(name)
    } else {
        None
    }
}

/// The name under which a file is uploaded with an artifact; `None` where the artifact does not select
/// it.
pub fn upload_name(artifact: &JobArtifact, path: &str) -> (r: Option<String>)
    ensures
        ({
            let name = upload_name_of(text::views(artifact.paths@), path@);
            &&& r is Some == name is Some
            &&& r matches Some(s) ==> Some(s@) == name
        }),
{
    let name = paths::normalize_path(path);
    if paths::artifact_path_matches(name.as_str(), &artifact.paths) {
        Some(name)
    } else {
        None
    }
}

/// Whether a file is uploaded, and under which name, does not depend on how its path is spelt; the name is
/// the normalized path, and the file is uploaded exactly if the artifact selects that.
pub proof fn law_spelling_of_a_path_makes_no_difference(
    paths: Seq<Seq<char>>,
    path: Seq<char>,
    other: Seq<char>,
)
    requires
        crate::paths::normal_path(path) == crate::paths::normal_path(other),
    ensures
        upload_name_of(paths, path) == upload_name_of(paths, other),
        upload_name_of(paths, path) is Some ==> upload_name_of(paths, path)
            == Some(crate::paths::normal_path(other)),
        upload_name_of(paths, path) is Some <==> crate::paths::path_matches(
            crate::paths::normal_path(other),
            paths,
        ),
{
}

/// The processing of an artifact after a series of events.
pub open spec fn artifact_after(
    when: ArtifactWhen,
    script_ok: bool,
    events: Seq<ArtifactEvent>,
) -> (ArtifactSteps, ArtifactAction)
    decreases events.len(),
{
    if events.len() == 0 {
        artifact_start(when, script_ok)
    } else {
        artifact_next(artifact_after(when, script_ok, events.drop_last()).0, events.last())
    }
}

/// Whether each event is one that the processing waits for when it happens.
pub open spec fn artifact_history(
    when: ArtifactWhen,
    script_ok: bool,
    events: Seq<ArtifactEvent>,
) -> bool
    decreases events.len(),
{
    events.len() > 0 ==> {
        &&& artifact_history(when, script_ok, events.drop_last())
        &&& artifact_awaits(
            artifact_after(when, script_ok, events.drop_last()).0.stage,
            events.last(),
        )
    }
}

/// Whether something is in a list of events.
pub open spec fn happened(events: Seq<ArtifactEvent>, event: ArtifactEvent) -> bool {
    exists|i: int| 0 <= i < events.len() && events[i] == event
}

/// Whether nothing failed.
pub open spec fn nothing_failed(events: Seq<ArtifactEvent>) -> bool {
    forall|i: int| 0 <= i < events.len() ==> !is_failure(#[trigger] events[i])
}

proof fn lemma_happened_push(events: Seq<ArtifactEvent>, event: ArtifactEvent)
    requires
        events.len() > 0,
    ensures
        happened(events, event) <==> happened(events.drop_last(), event) || events.last() == event,
        nothing_failed(events) <==> nothing_failed(events.drop_last()) && !is_failure(
            events.last(),
        ),
{
    let before = events.drop_last();
    assert(events[events.len() - 1] == events.last());
    assert forall|i: int| 0 <= i < before.len() implies before[i] == events[i] by {}
    if happened(before, event) {
        let i = choose|i: int| 0 <= i < before.len() && before[i] == event;
        assert(events[i] == event);
    }
    if happened(events, event) && events.last() != event {
        let i = choose|i: int| 0 <= i < events.len() && events[i] == event;
        assert(before[i] == event);
    }
    if nothing_failed(events) {
        assert forall|i: int| 0 <= i < before.len() implies !is_failure(#[trigger] before[i]) by {
            assert(before[i] == events[i]);
        }
    }
    if nothing_failed(before) && !is_failure(events.last()) {
        assert forall|i: int| 0 <= i < events.len() implies !is_failure(#[trigger] events[i]) by {
            if i < before.len() {
                assert(before[i] == events[i]);
            }
        }
    }
}

proof fn lemma_artifact_run(when: ArtifactWhen, script_ok: bool, events: Seq<ArtifactEvent>)
    requires
        artifact_history(when, script_ok, events),
    ensures
        ({
            let (steps, action) = artifact_after(when, script_ok, events);
            let copied = happened(events, ArtifactEvent::DataCopied(true));
            let sent = happened(events, ArtifactEvent::Uploaded(true));
            &&& steps.copied == copied
            &&& !upload_wanted(when, script_ok) ==> events.len() == 0
            &&& steps.stage is Finished ==> action == ArtifactAction::Finish(
                nothing_failed(events),
            )
            &&& !(steps.stage is Finished) ==> nothing_failed(events) && !sent
            &&& steps.stage is Upload ==> copied
            &&& steps.stage is Finished && nothing_failed(events) ==> copied == sent
        }),
    decreases events.len(),
{
    if events.len() > 0 {
        lemma_artifact_run(when, script_ok, events.drop_last());
        lemma_happened_push(events, ArtifactEvent::DataCopied(true));
        lemma_happened_push(events, ArtifactEvent::Uploaded(true));
    } else {
        assert(nothing_failed(events));
    }
}

/// An artifact that is done is a success exactly if nothing failed, and a successful one was uploaded
/// exactly if a file was copied into it.
pub proof fn law_artifact_outcome(
    when: ArtifactWhen,
    script_ok: bool,
    events: Seq<ArtifactEvent>,
)
    requires
        artifact_history(when, script_ok, events),
        artifact_after(when, script_ok, events).0.stage is Finished,
    ensures
        artifact_after(when, script_ok, events).1 == ArtifactAction::Finish(
            nothing_failed(events),
        ),
        nothing_failed(events) ==> (happened(events, ArtifactEvent::Uploaded(true)) == happened(
            events,
            ArtifactEvent::DataCopied(true),
        )),
{
    lemma_artifact_run(when, script_ok, events);
}

/// An artifact that is not wanted is never touched.
pub proof fn law_unwanted_artifact(when: ArtifactWhen, script_ok: bool, events: Seq<ArtifactEvent>)
    requires
        !upload_wanted(when, script_ok),
        artifact_history(when, script_ok, events),
    ensures
        events.len() == 0,
        artifact_start(when, script_ok).1 == ArtifactAction::Finish(true),
{
    lemma_artifact_run(when, script_ok, events);
}

/// An artifact is begun after a script that succeeded where it is wanted always or on success, and after
/// one that failed where it is wanted always or on failure; else it is done at once.
pub proof fn law_when_an_artifact_is_wanted(when: ArtifactWhen, script_ok: bool)
    ensures
        artifact_after(when, script_ok, Seq::empty()).1 == (if when == ArtifactWhen::Always || (
        script_ok && when == ArtifactWhen::OnSuccess) || (!script_ok && when
            == ArtifactWhen::OnFailure) {
            ArtifactAction::CreateUploader
        } else {
            ArtifactAction::Finish(true)
        }),
{
}

/// The upload begins only when no file is left, and only where a file was copied.
pub proof fn law_upload_begins_after_the_last_file(
    when: ArtifactWhen,
    script_ok: bool,
    events: Seq<ArtifactEvent>,
)
    requires
        artifact_history(when, script_ok, events),
    ensures
        artifact_after(when, script_ok, events).1 == ArtifactAction::Upload <==> (events.len() > 0
            && events.last() == ArtifactEvent::NoFileLeft && happened(
            events,
            ArtifactEvent::DataCopied(true),
        )),
{
    lemma_artifact_run(when, script_ok, events);
    if events.len() > 0 {
        lemma_artifact_run(when, script_ok, events.drop_last());
        lemma_happened_push(events, ArtifactEvent::DataCopied(true));
    }
}

/// The next file is taken when the list is there, when a file is passed over and when one was copied.
pub proof fn law_every_file_is_taken(
    when: ArtifactWhen,
    script_ok: bool,
    events: Seq<ArtifactEvent>,
)
    requires
        artifact_history(when, script_ok, events),
    ensures
        artifact_after(when, script_ok, events).1 == ArtifactAction::TakeFile <==> (events.len() > 0
            && (events.last() == ArtifactEvent::FilesListed(true) || events.last()
            == ArtifactEvent::FileTaken(false) || events.last() == ArtifactEvent::DataCopied(true))),
{
}

/// A file that is selected, and only such a file, is begun in the upload; then its data is opened and
/// copied.
pub proof fn law_selected_file_is_copied(
    when: ArtifactWhen,
    script_ok: bool,
    events: Seq<ArtifactEvent>,
)
    requires
        artifact_history(when, script_ok, events),
        events.len() > 0,
    ensures
        ({
            let event = events.last();
            let action = artifact_after(when, script_ok, events).1;
            &&& action == ArtifactAction::ListFiles <==> event == ArtifactEvent::UploaderCreated(true)
            &&& action == ArtifactAction::BeginFile <==> event == ArtifactEvent::FileTaken(true)
            &&& action == ArtifactAction::OpenData <==> event == ArtifactEvent::FileBegun(true)
            &&& action == ArtifactAction::CopyData <==> event == ArtifactEvent::DataOpened(true)
        }),
{
}

/// An artifact has failed exactly when one of these could not be done: to create the uploader, to list the
/// files, to begin, open or copy a file, or to upload.
pub proof fn law_artifact_fails_with_any_failure(
    when: ArtifactWhen,
    script_ok: bool,
    events: Seq<ArtifactEvent>,
)
    requires
        artifact_history(when, script_ok, events),
    ensures
        artifact_after(when, script_ok, events).1 == ArtifactAction::Finish(false) <==> (events.len()
            > 0 && (events.last() == ArtifactEvent::UploaderCreated(false) || events.last()
            == ArtifactEvent::FilesListed(false) || events.last() == ArtifactEvent::FileBegun(false)
            || events.last() == ArtifactEvent::DataOpened(false) || events.last()
            == ArtifactEvent::DataCopied(false) || events.last() == ArtifactEvent::Uploaded(false))),
{
}

/// How often something is in a list of events.
pub open spec fn event_count(events: Seq<ArtifactEvent>, event: ArtifactEvent) -> nat
    decreases events.len(),
{
    if events.len() == 0 {
        0
    } else if events.last() == event {
        event_count(events.drop_last(), event) + 1
    } else {
        event_count(events.drop_last(), event)
    }
}

proof fn lemma_artifact_counts(when: ArtifactWhen, script_ok: bool, events: Seq<ArtifactEvent>)
    requires
        artifact_history(when, script_ok, events),
    ensures
        ({
            let (steps, action) = artifact_after(when, script_ok, events);
            let taken = event_count(events, ArtifactEvent::FileTaken(true));
            let copied = event_count(events, ArtifactEvent::DataCopied(true));
            let ends = event_count(events, ArtifactEvent::NoFileLeft);
            let sent = event_count(events, ArtifactEvent::Uploaded(true));
            let busy = steps.stage is Begin || steps.stage is Open || steps.stage is Copy;
            &&& busy ==> taken == copied + 1
            &&& !busy && !(steps.stage is Finished) ==> taken == copied
            &&& (steps.stage is Uploader || steps.stage is List || steps.stage is File || busy)
                ==> ends == 0 && sent == 0
            &&& steps.stage is Upload ==> ends == 1 && sent == 0 && copied > 0
            &&& steps.stage is Finished && action == ArtifactAction::Finish(true) && events.len() > 0
                ==> taken == copied && ends == 1 && sent == (if copied > 0 {
                1nat
            } else {
                0nat
            })
            &&& steps.copied == (copied > 0)
            &&& action is Finish == steps.stage is Finished
        }),
    decreases events.len(),
{
    if events.len() > 0 {
        lemma_artifact_counts(when, script_ok, events.drop_last());
    }
}

/// An artifact that was begun and is done successfully has seen all the files: the end of the list came,
/// and every selected file was copied. It was uploaded once where a file was copied, and not at all where
/// none was.
pub proof fn law_successful_artifact_holds_every_selected_file(
    when: ArtifactWhen,
    script_ok: bool,
    events: Seq<ArtifactEvent>,
)
    requires
        artifact_history(when, script_ok, events),
        events.len() > 0,
        artifact_after(when, script_ok, events).1 == ArtifactAction::Finish(true),
    ensures
        event_count(events, ArtifactEvent::NoFileLeft) == 1,
        event_count(events, ArtifactEvent::DataCopied(true)) == event_count(
            events,
            ArtifactEvent::FileTaken(true),
        ),
        event_count(events, ArtifactEvent::Uploaded(true)) == (if event_count(
            events,
            ArtifactEvent::FileTaken(true),
        ) > 0 {
            1nat
        } else {
            0nat
        }),
{
    lemma_artifact_counts(when, script_ok, events);
}

// ---------------------------------------------------------------------------
// Reporting to the server
// ---------------------------------------------------------------------------

/// How long, in nanoseconds, the server may hear nothing of a job.
pub const KEEPALIVE_INTERVAL: u64 = 30_000_000_000;

/// The interval, in seconds, between log updates until the server asks for another one.
pub const TRACE_INTERVAL: u64 = 3;

/// What the reports of a job depend on. Points in time are nanoseconds of one clock.
#[derive(Debug, Clone, Copy, PartialEq, Eq, Structural)]
pub struct Report {
    /// How many bytes of the log the server has.
    pub log_offset: u64,
    /// The seconds between two ticks.
    pub interval: u64,
    /// Last time a communication to gitlab was done so it knows the job is alive
    pub last_alive: u64,
    /// Whether the server said that the job was cancelled.
    pub cancelled: bool,
}

/// What to send at a tick.
#[derive(Debug, Clone)]
pub enum TickAction {
    /// This piece of the log.
    SendTrace(Vec<u8>),
    /// That the job is still running.
    KeepAlive,
    /// Nothing.
    Nothing,
}

/// Whether the server has heard nothing for too long.
pub open spec fn keepalive_due(last_alive: u64, now: u64) -> bool {
    now - last_alive > KEEPALIVE_INTERVAL
}

/// The reports after a piece of log was sent, by what came of that.
pub open spec fn after_trace(
    report: Report,
    length: u64,
    outcome: Result<TraceReply, Error>,
) -> Report {
    match outcome {
        Ok(_) => Report { log_offset: (report.log_offset + length) as u64, ..report },
        Err(Error::JobCancelled) => Report { cancelled: true, ..report },
        Err(_) => report,
    }
}

/// The reports after the state was sent, by what came of that.
pub open spec fn after_update(report: Report, outcome: Result<JobUpdateReply, Error>) -> Report {
    match outcome {
        Err(Error::JobCancelled) => Report { cancelled: true, ..report },
        _ => report,
    }
}

/// Where the reports of a job stand: what they wait for.
#[derive(Debug, Clone, Copy, PartialEq, Eq, Structural)]
pub enum ReportStage {
    /// The next tick, or the end of the job.
    Ticking,
    /// The reply to a piece of log of this length.
    TickTrace(u64),
    /// The reply to a sign of life.
    TickUpdate,
    /// The reply to the rest of the log, of this length, of a job that has ended, successfully or not.
    RestTrace(u64, bool),
    /// The reply to the final state.
    FinalUpdate,
    /// Nothing.
    Done,
}

/// What has happened.
#[derive(Debug)]
pub enum ReportEvent {
    /// A tick, at this point in time.
    Tick(u64),
    /// The job has ended, successfully or not.
    Ended(bool),
    /// What came of sending a piece of log.
    TraceSent(Result<TraceReply, Error>),
    /// What came of sending a state.
    Updated(Result<JobUpdateReply, Error>),
}

/// What to do next.
#[derive(Debug)]
pub enum ReportAction {
    /// Send this piece of the log.
    SendTrace(Vec<u8>),
    /// Send this state.
    SendState(JobState),
    /// Wait for a tick or for the end of the job; ticks come at this interval from now on, where one is
    /// given.
    Wait(Option<u64>),
    /// All reports were made.
    Finish,
}

/// A job that is running, as its reports to the server see it.
#[derive(Debug)]
pub struct Run {
    pub client: Client,
    pub response: JobResponse,
    pub report: Report,
    pub stage: ReportStage,
}

impl Run {
    /// A job that starts now.
    pub fn new(client: Client, response: JobResponse, now: u64) -> (r: Self)
        ensures
            r.client == client,
            r.response == response,
            r.report == (Report {
                log_offset: 0,
                interval: TRACE_INTERVAL,
                last_alive: now,
                cancelled: false,
            }),
            r.stage == ReportStage::Ticking,
    {
        Run {
            client,
            response,
            stage: ReportStage::Ticking,
            report: Report {
                log_offset: 0,
                interval: TRACE_INTERVAL,
                last_alive: now,
                cancelled: false,
            },
        }
    }

    /// The log of this job: what it shows of tokens is masked as the server wants it.
    pub fn new_log(&self) -> (r: JobLog)
        ensures
            r.wf(),
            r.pending() == Seq::<u8>::empty(),
            r.prefixes() == crate::masking::token_prefixes(
                text::views(self.response.token_mask_prefixes@),
            ),
            r.mask_state() == crate::masking::mask_start(),
    {
        JobLog::with_token_prefixes(&self.response.token_mask_prefixes)
    }

    /// Decides what to send at a tick: what waits in the log, else a sign of life where one is due.
    ///
    /// What is taken from the log is not put back, whatever comes of sending it.
    pub fn tick(&mut self, log: &mut JobLog, now: u64) -> (r: TickAction)
        requires
            old(log).wf(),
        ensures
            final(log).wf(),
            final(log).prefixes() == old(log).prefixes(),
            final(log).mask_state() == old(log).mask_state(),
            final(log).pending() == Seq::<u8>::empty(),
            final(self).client == old(self).client,
            final(self).response == old(self).response,
            final(self).stage == old(self).stage,
            match r {
                TickAction::SendTrace(buf) => {
                    &&& buf@ == old(log).pending()
                    &&& buf@.len() > 0
                    &&& final(self).report == (Report { last_alive: now, ..old(self).report })
                },
                TickAction::KeepAlive => {
                    &&& old(log).pending().len() == 0
                    &&& keepalive_due(old(self).report.last_alive, now)
                    &&& final(self).report == (Report { last_alive: now, ..old(self).report })
                },
                TickAction::Nothing => {
                    &&& old(log).pending().len() == 0
                    &&& !keepalive_due(old(self).report.last_alive, now)
                    &&& final(self).report == old(self).report
                },
            },
            !keepalive_due(final(self).report.last_alive, now),
    {
        match log.split_trace() {
            Some(buf) => {
                self.report.last_alive = now;
                TickAction::SendTrace(buf)
            },
            None => {
                let last = self.report.last_alive;
                if now > last && now - last > KEEPALIVE_INTERVAL {
                    self.report.last_alive = now;
                    TickAction::KeepAlive
                } else {
                    TickAction::Nothing
                }
            },
        }
    }

    /// The request that sends a piece of the log of the given length.
    pub fn trace_request(&self, length: u64) -> (r: Result<Option<ApiRequest>, Error>)
        requires
            self.report.log_offset + length <= u64::MAX,
        ensures
            crate::client::is_trace_request(
                r,
                self.client.url@,
                self.response.id,
                self.response.token@,
                self.report.log_offset,
                length,
            ),
    {
        self.client.trace(
            self.response.id,
            self.response.token.as_str(),
            self.report.log_offset,
            length,
        )
    }

    /// The request that reports a state of the job.
    pub fn update_request(&self, state: JobState) -> (r: Option<(ApiRequest, JobUpdate)>)
        ensures
            crate::client::is_update_request(
                r,
                self.client.url@,
                self.response.id,
                self.response.token@,
                state,
            ),
    {
        self.client.update_job(self.response.id, self.response.token.as_str(), state)
    }

    /// Takes note of what came of sending a piece of the log; the interval that the server asks for.
    pub fn trace_sent(&mut self, length: u64, outcome: Result<TraceReply, Error>) -> (r: Option<
        u64,
    >)
        requires
            old(self).report.log_offset + length <= u64::MAX,
        ensures
            final(self).client == old(self).client,
            final(self).response == old(self).response,
            final(self).stage == old(self).stage,
            final(self).report == after_trace(old(self).report, length, outcome),
            match outcome {
                Ok(reply) => r == reply.trace_update_interval,
                Err(_) => r is None,
            },
    {
        match outcome {
            Ok(reply) => {
                self.report.log_offset = self.report.log_offset + length;
                reply.trace_update_interval
            },
            Err(Error::JobCancelled) => {
                self.report.cancelled = true;
                None
            },
            Err(_) => None,
        }
    }

    /// Adopts the interval that the server asks for; `Some` where ticks must come differently now.
    pub fn adopt_interval(&mut self, wanted: Option<u64>) -> (r: Option<u64>)
        ensures
            final(self).client == old(self).client,
            final(self).response == old(self).response,
            final(self).stage == old(self).stage,
            match wanted {
                Some(seconds) => {
                    &&& final(self).report == (Report { interval: seconds, ..old(self).report })
                    &&& r == (if seconds == old(self).report.interval {
                        None::<u64>
                    } else {
                        Some(seconds)
                    })
                },
                None => final(self).report == old(self).report && r is None,
            },
    {
        match wanted {
            Some(seconds) => {
                if seconds == self.report.interval {
                    None
                } else {
                    self.report.interval = seconds;
                    Some(seconds)
                }
            },
            None => None,
        }
    }

    /// Takes note of what came of reporting the state.
    pub fn updated(&mut self, outcome: Result<JobUpdateReply, Error>)
        ensures
            final(self).client == old(self).client,
            final(self).response == old(self).response,
            final(self).stage == old(self).stage,
            final(self).report == after_update(old(self).report, outcome),
    {
        match outcome {
            Err(Error::JobCancelled) => {
                self.report.cancelled = true;
            },
            _ => {},
        }
    }

    /// The state to report when the job has ended: none where it was cancelled, since that would just
    /// fail.
    pub fn final_state(&self, success: bool) -> (r: Option<JobState>)
        ensures
            r == (if self.report.cancelled {
                None::<JobState>
            } else if success {
                Some(JobState::Success)
            } else {
                Some(JobState::Failed)
            }),
    {
        if self.report.cancelled {
            None
        } else if success {
            Some(JobState::Success)
        } else {
            Some(JobState::Failed)
        }
    }
}

// ---------------------------------------------------------------------------
// The reports of a whole run
// ---------------------------------------------------------------------------

/// The reports of a job: how they stand, and what waits in the log.
pub struct Reports {
    pub report: Report,
    pub stage: ReportStage,
    pub pending: Seq<u8>,
}

/// What the reports do next.
pub enum ReportAct {
    Trace(Seq<u8>),
    State(JobState),
    Wait(Option<u64>),
    Finish,
}

/// Whether `action` does `act`.
pub open spec fn does(action: ReportAction, act: ReportAct) -> bool {
    match action {
        ReportAction::SendTrace(buf) => act == ReportAct::Trace(buf@),
        ReportAction::SendState(state) => act == ReportAct::State(state),
        ReportAction::Wait(interval) => act == ReportAct::Wait(interval),
        ReportAction::Finish => act is Finish,
    }
}

/// Whether `event` is what the reports wait for in this stage.
pub open spec fn report_awaits(stage: ReportStage, event: ReportEvent) -> bool {
    match stage {
        ReportStage::Ticking => event is Tick || event is Ended,
        ReportStage::TickTrace(_) => event is TraceSent,
        ReportStage::TickUpdate => event is Updated,
        ReportStage::RestTrace(_, _) => event is TraceSent,
        ReportStage::FinalUpdate => event is Updated,
        ReportStage::Done => false,
    }
}

/// The length of the piece of log that is being sent.
pub open spec fn piece_len(stage: ReportStage) -> nat {
    match stage {
        ReportStage::TickTrace(length) => length as nat,
        ReportStage::RestTrace(length, _) => length as nat,
        _ => 0,
    }
}

/// The interval that the server asks for.
pub open spec fn wanted_interval(outcome: Result<TraceReply, Error>) -> Option<u64> {
    match outcome {
        Ok(reply) => reply.trace_update_interval,
        Err(_) => None,
    }
}

/// The reports with the interval that the server asks for, and that interval where it is another one.
pub open spec fn with_interval(report: Report, wanted: Option<u64>) -> (Report, Option<u64>) {
    match wanted {
        Some(seconds) => (
            Report { interval: seconds, ..report },
            if seconds == report.interval {
                None
            } else {
                Some(seconds)
            },
        ),
        None => (report, None),
    }
}

/// Turns to the final state, which is sent unless the job was cancelled.
pub open spec fn report_final(run: Reports, success: bool) -> (Reports, ReportAct) {
    if run.report.cancelled {
        (Reports { stage: ReportStage::Done, ..run }, ReportAct::Finish)
    } else {
        (
            Reports { stage: ReportStage::FinalUpdate, ..run },
            ReportAct::State(
                if success {
                    JobState::Success
                } else {
                    JobState::Failed
                },
            ),
        )
    }
}

/// What follows when `event` happens.
///
/// At a tick, what waits in the log is sent, else a sign of life where one is due. When the job has ended,
/// the rest of the log is sent first, and then the final state.
pub open spec fn report_next(run: Reports, event: ReportEvent) -> (Reports, ReportAct) {
    let length = run.pending.len() as u64;
    match event {
        ReportEvent::Tick(now) => {
            let alive = Report { last_alive: now, ..run.report };
            if run.pending.len() > 0 {
                (
                    Reports {
                        report: alive,
                        stage: ReportStage::TickTrace(length),
                        pending: Seq::empty(),
                    },
                    ReportAct::Trace(run.pending),
                )
            } else if keepalive_due(run.report.last_alive, now) {
                (
                    Reports { report: alive, stage: ReportStage::TickUpdate, ..run },
                    ReportAct::State(JobState::Running),
                )
            } else {
                (run, ReportAct::Wait(None))
            }
        },
        ReportEvent::Ended(success) => if run.pending.len() > 0 {
            (
                Reports {
                    stage: ReportStage::RestTrace(length, success),
                    pending: Seq::empty(),
                    ..run
                },
                ReportAct::Trace(run.pending),
            )
        } else {
            report_final(run, success)
        },
        ReportEvent::TraceSent(outcome) => match run.stage {
            ReportStage::TickTrace(sent) => {
                let (report, interval) = with_interval(
                    after_trace(run.report, sent, outcome),
                    wanted_interval(outcome),
                );
                (Reports { report, stage: ReportStage::Ticking, ..run }, ReportAct::Wait(interval))
            },
            ReportStage::RestTrace(sent, success) => report_final(
                Reports { report: after_trace(run.report, sent, outcome), ..run },
                success,
            ),
            _ => (run, ReportAct::Wait(None)),
        },
        ReportEvent::Updated(outcome) => {
            let report = after_update(run.report, outcome);
            if run.stage == ReportStage::TickUpdate {
                (Reports { report, stage: ReportStage::Ticking, ..run }, ReportAct::Wait(None))
            } else {
                (Reports { report, stage: ReportStage::Done, ..run }, ReportAct::Finish)
            }
        },
    }
}

impl Run {
    /// The reports, with what waits in the log.
    pub open spec fn reports(&self, pending: Seq<u8>) -> Reports {
        Reports { report: self.report, stage: self.stage, pending }
    }

    fn report_final(&mut self, success: bool) -> (r: ReportAction)
        ensures
            final(self).client == old(self).client,
            final(self).response == old(self).response,
            forall|pending: Seq<u8>|
                {
                    let (run, act) = report_final(#[trigger] old(self).reports(pending), success);
                    final(self).reports(pending) == run && does(r, act)
                },
    {
        match self.final_state(success) {
            Some(state) => {
                self.stage = ReportStage::FinalUpdate;
                ReportAction::SendState(state)
            },
            None => {
                self.stage = ReportStage::Done;
                ReportAction::Finish
            },
        }
    }

    /// Takes note of an event and tells what to do next.
    pub fn next(&mut self, log: &mut JobLog, event: ReportEvent) -> (r: ReportAction)
        requires
            old(log).wf(),
            report_awaits(old(self).stage, event),
            event is TraceSent ==> old(self).report.log_offset + piece_len(old(self).stage) <= u64::MAX,
        ensures
            final(self).client == old(self).client,
            final(self).response == old(self).response,
            final(log).wf(),
            final(log).prefixes() == old(log).prefixes(),
            final(log).mask_state() == old(log).mask_state(),
            ({
                let (run, act) = report_next(old(self).reports(old(log).pending()), event);
                final(self).reports(final(log).pending()) == run && does(r, act)
            }),
    {
        let ghost pending = log.pending();
        match event {
            ReportEvent::Tick(now) => match self.tick(log, now) {
                TickAction::SendTrace(buf) => {
                    self.stage = ReportStage::TickTrace(buf.len() as u64);
                    ReportAction::SendTrace(buf)
                },
                TickAction::KeepAlive => {
                    self.stage = ReportStage::TickUpdate;
                    assert(log.pending() =~= pending);
                    ReportAction::SendState(JobState::Running)
                },
                TickAction::Nothing => {
                    assert(log.pending() =~= pending);
                    ReportAction::Wait(None)
                },
            },
            ReportEvent::Ended(success) => match log.split_trace() {
                Some(buf) => {
                    self.stage = ReportStage::RestTrace(buf.len() as u64, success);
                    ReportAction::SendTrace(buf)
                },
                None => {
                    assert(log.pending() =~= pending);
                    assert(self.reports(pending) == old(self).reports(pending));
                    self.report_final(success)
                },
            },
            ReportEvent::TraceSent(outcome) => match self.stage {
                ReportStage::TickTrace(length) => {
                    let wanted = self.trace_sent(length, outcome);
                    let interval = self.adopt_interval(wanted);
                    self.stage = ReportStage::Ticking;
                    ReportAction::Wait(interval)
                },
                ReportStage::RestTrace(length, success) => {
                    self.trace_sent(length, outcome);
                    let ghost sent = self.reports(pending);
                    assert(sent.pending == pending);
                    self.report_final(success)
                },
                _ => ReportAction::Wait(None),
            },
            ReportEvent::Updated(outcome) => {
                let alive = self.stage == ReportStage::TickUpdate;
                self.updated(outcome);
                if alive {
                    self.stage = ReportStage::Ticking;
                    ReportAction::Wait(None)
                } else {
                    self.stage = ReportStage::Done;
                    ReportAction::Finish
                }
            },
        }
    }
}

/// Something that happens during a run: the job writes to its log, or the reports go on.
pub enum RunStep {
    Logged(Seq<u8>),
    Happened(ReportEvent),
}

/// The reports of a job that starts at the given time.
pub open spec fn reports_start(now: u64) -> Reports {
    Reports {
        report: Report {
            log_offset: 0,
            interval: TRACE_INTERVAL,
            last_alive: now,
            cancelled: false,
        },
        stage: ReportStage::Ticking,
        pending: Seq::empty(),
    }
}

/// The reports after a series of steps.
pub open spec fn reports_after(now: u64, steps: Seq<RunStep>) -> Reports
    decreases steps.len(),
{
    if steps.len() == 0 {
        reports_start(now)
    } else {
        let before = reports_after(now, steps.drop_last());
        match steps.last() {
            RunStep::Logged(data) => Reports { pending: before.pending + data, ..before },
            RunStep::Happened(event) => report_next(before, event).0,
        }
    }
}

/// What the reports did in a series of steps.
pub open spec fn report_acts(now: u64, steps: Seq<RunStep>) -> Seq<ReportAct>
    decreases steps.len(),
{
    if steps.len() == 0 {
        Seq::empty()
    } else {
        let acts = report_acts(now, steps.drop_last());
        match steps.last() {
            RunStep::Logged(_) => acts,
            RunStep::Happened(event) => acts.push(
                report_next(reports_after(now, steps.drop_last()), event).1,
            ),
        }
    }
}

/// Whether each event is one that the reports wait for when it happens.
pub open spec fn report_history(now: u64, steps: Seq<RunStep>) -> bool
    decreases steps.len(),
{
    steps.len() > 0 ==> {
        &&& report_history(now, steps.drop_last())
        &&& steps.last() matches RunStep::Happened(event) ==> report_awaits(
            reports_after(now, steps.drop_last()).stage,
            event,
        )
    }
}

/// All that the job wrote to its log.
pub open spec fn logged(steps: Seq<RunStep>) -> Seq<u8>
    decreases steps.len(),
{
    if steps.len() == 0 {
        Seq::empty()
    } else {
        match steps.last() {
            RunStep::Logged(data) => logged(steps.drop_last()) + data,
            RunStep::Happened(_) => logged(steps.drop_last()),
        }
    }
}

/// Whether the job has ended.
pub open spec fn has_ended(steps: Seq<RunStep>) -> bool
    decreases steps.len(),
{
    steps.len() > 0 && (has_ended(steps.drop_last()) || (steps.last() matches RunStep::Happened(
        event,
    ) && event is Ended))
}

/// What was written to the log after the job had ended.
pub open spec fn logged_late(steps: Seq<RunStep>) -> Seq<u8>
    decreases steps.len(),
{
    if steps.len() == 0 {
        Seq::empty()
    } else {
        match steps.last() {
            RunStep::Logged(data) => if has_ended(steps.drop_last()) {
                logged_late(steps.drop_last()) + data
            } else {
                Seq::empty()
            },
            RunStep::Happened(_) => logged_late(steps.drop_last()),
        }
    }
}

/// The pieces of log that were sent, one after the other.
pub open spec fn sent_log(acts: Seq<ReportAct>) -> Seq<u8>
    decreases acts.len(),
{
    if acts.len() == 0 {
        Seq::empty()
    } else {
        match acts.last() {
            ReportAct::Trace(data) => sent_log(acts.drop_last()) + data,
            _ => sent_log(acts.drop_last()),
        }
    }
}

/// Whether this reports how the job ended.
pub open spec fn is_final(act: ReportAct) -> bool {
    act == ReportAct::State(JobState::Success) || act == ReportAct::State(JobState::Failed)
}

/// How often it was reported how the job ended.
pub open spec fn final_reports(acts: Seq<ReportAct>) -> nat
    decreases acts.len(),
{
    if acts.len() == 0 {
        0
    } else if is_final(acts.last()) {
        final_reports(acts.drop_last()) + 1
    } else {
        final_reports(acts.drop_last())
    }
}

proof fn lemma_reports(now: u64, steps: Seq<RunStep>)
    requires
        report_history(now, steps),
    ensures
        ({
            let run = reports_after(now, steps);
            let acts = report_acts(now, steps);
            let ended = run.stage is RestTrace || run.stage is FinalUpdate || run.stage is Done;
            &&& sent_log(acts) + run.pending == logged(steps)
            &&& ended == has_ended(steps)
            &&& !ended ==> logged_late(steps).len() == 0
            &&& ended ==> run.pending == logged_late(steps)
            &&& final_reports(acts) == (if run.stage is FinalUpdate {
                1nat
            } else if run.stage is Done {
                final_reports(acts)
            } else {
                0nat
            })
            &&& final_reports(acts) <= 1
            &&& run.stage is Done ==> final_reports(acts) == 1 || run.report.cancelled
            &&& run.stage is FinalUpdate ==> !run.report.cancelled
        }),
    decreases steps.len(),
{
    if steps.len() == 0 {
        assert(Seq::<u8>::empty() + Seq::<u8>::empty() =~= Seq::<u8>::empty());
    } else {
        let before = steps.drop_last();
        lemma_reports(now, before);
        let run = reports_after(now, before);
        let acts = report_acts(now, before);
        match steps.last() {
            RunStep::Logged(data) => {
                assert(sent_log(acts) + (run.pending + data) =~= (sent_log(acts) + run.pending)
                    + data);
                assert(!has_ended(before) ==> logged_late(steps).len() == 0);
            },
            RunStep::Happened(event) => {
                let (after, act) = report_next(run, event);
                assert(acts.push(act).drop_last() =~= acts);
                if act is Trace {
                    assert(after.pending.len() == 0);
                    assert(sent_log(acts) + run.pending + after.pending =~= sent_log(acts)
                        + run.pending);
                }
                if event is Ended {
                    assert(after.pending =~= Seq::<u8>::empty());
                    assert(logged_late(before) =~= Seq::<u8>::empty());
                }
            },
        }
    }
}

/// Every byte that the job writes to its log is sent once and in order, or still waits.
pub proof fn law_log_is_sent_once(now: u64, steps: Seq<RunStep>)
    requires
        report_history(now, steps),
    ensures
        sent_log(report_acts(now, steps)) + reports_after(now, steps).pending == logged(steps),
{
    lemma_reports(now, steps);
}

/// How the job ended is reported once at most, and only after it has ended. Then every byte that it wrote
/// to its log before has been sent.
pub proof fn law_rest_comes_before_final_report(now: u64, steps: Seq<RunStep>)
    requires
        report_history(now, steps),
    ensures
        final_reports(report_acts(now, steps)) <= 1,
        final_reports(report_acts(now, steps)) > 0 ==> has_ended(steps),
        has_ended(steps) ==> sent_log(report_acts(now, steps)) + logged_late(steps) == logged(steps),
{
    lemma_reports(now, steps);
}

/// When all reports were made, it was reported once how the job ended, unless the job was cancelled.
pub proof fn law_end_is_reported(now: u64, steps: Seq<RunStep>)
    requires
        report_history(now, steps),
        reports_after(now, steps).stage is Done,
    ensures
        final_reports(report_acts(now, steps)) == 1 || reports_after(now, steps).report.cancelled,
{
    lemma_reports(now, steps);
}

/// How the job ended, once it has.
pub open spec fn end_of(steps: Seq<RunStep>) -> Option<bool>
    decreases steps.len(),
{
    if steps.len() == 0 {
        None
    } else {
        match steps.last() {
            RunStep::Happened(ReportEvent::Ended(success)) => Some(success),
            _ => end_of(steps.drop_last()),
        }
    }
}

proof fn lemma_end(now: u64, steps: Seq<RunStep>)
    requires
        report_history(now, steps),
    ensures
        reports_after(now, steps).stage matches ReportStage::RestTrace(_, success) ==> end_of(steps)
            == Some(success),
        forall|i: int|
            0 <= i < report_acts(now, steps).len() && is_final(#[trigger] report_acts(now, steps)[i])
                ==> (end_of(steps) matches Some(success) && report_acts(now, steps)[i]
                == ReportAct::State(
                if success {
                    JobState::Success
                } else {
                    JobState::Failed
                },
            )),
    decreases steps.len(),
{
    if steps.len() > 0 {
        let before = steps.drop_last();
        lemma_reports(now, before);
        lemma_end(now, before);
        let acts = report_acts(now, before);
        if let RunStep::Happened(event) = steps.last() {
            assert(report_acts(now, steps) == acts.push(
                report_next(reports_after(now, before), event).1,
            ));
            if event is Ended {
                assert(forall|i: int| 0 <= i < acts.len() ==> !is_final(#[trigger] acts[i])) by {
                    lemma_no_final(acts);
                }
            }
        }
    }
}

proof fn lemma_no_final(acts: Seq<ReportAct>)
    requires
        final_reports(acts) == 0,
    ensures
        forall|i: int| 0 <= i < acts.len() ==> !is_final(#[trigger] acts[i]),
    decreases acts.len(),
{
    if acts.len() > 0 {
        lemma_no_final(acts.drop_last());
        assert(forall|i: int| 0 <= i < acts.len() - 1 ==> acts[i] == acts.drop_last()[i]);
    }
}

/// What is reported in the end is how the job ended.
pub proof fn law_end_is_reported_truly(now: u64, steps: Seq<RunStep>, i: int)
    requires
        report_history(now, steps),
        0 <= i < report_acts(now, steps).len(),
        is_final(report_acts(now, steps)[i]),
    ensures
        report_acts(now, steps)[i] == ReportAct::State(JobState::Success) ==> end_of(steps) == Some(true),
        report_acts(now, steps)[i] == ReportAct::State(JobState::Failed) ==> end_of(steps) == Some(false),
{
    lemma_end(now, steps);
}

/// Once the server said that the job was cancelled, it is not reported how the job ended, whatever happens;
/// and that it was cancelled stays.
pub proof fn law_cancelled_job_reports_no_end(run: Reports, event: ReportEvent)
    requires
        run.report.cancelled,
    ensures
        !is_final(report_next(run, event).1),
        report_next(run, event).0.report.cancelled,
{
}

/// Once the server said that the job was cancelled, no later reply takes that back.
pub proof fn law_cancellation_stays(
    report: Report,
    length: u64,
    trace: Result<TraceReply, Error>,
    update: Result<JobUpdateReply, Error>,
)
    requires
        report.cancelled,
    ensures
        after_trace(report, length, trace).cancelled,
        after_update(report, update).cancelled,
{
}

/// The reports after pieces of log of these lengths were sent, by what came of each.
pub open spec fn after_traces(report: Report, sent: Seq<(u64, Result<TraceReply, Error>)>) -> Report
    decreases sent.len(),
{
    if sent.len() == 0 {
        report
    } else {
        after_trace(after_traces(report, sent.drop_last()), sent.last().0, sent.last().1)
    }
}

/// How many bytes the server accepted.
pub open spec fn accepted_len(sent: Seq<(u64, Result<TraceReply, Error>)>) -> nat
    decreases sent.len(),
{
    if sent.len() == 0 {
        0
    } else if sent.last().1 is Ok {
        accepted_len(sent.drop_last()) + sent.last().0 as nat
    } else {
        accepted_len(sent.drop_last())
    }
}

/// The next piece of log starts where the accepted pieces end: the offset is the sum of their lengths. So
/// after a failure the next piece starts where the failed one did.
pub proof fn law_offset_counts_accepted_pieces(
    report: Report,
    sent: Seq<(u64, Result<TraceReply, Error>)>,
)
    requires
        report.log_offset + accepted_len(sent) <= u64::MAX,
    ensures
        after_traces(report, sent).log_offset == report.log_offset + accepted_len(sent),
        sent.len() > 0 && sent.last().1 is Err ==> after_traces(report, sent).log_offset
            == after_traces(report, sent.drop_last()).log_offset,
    decreases sent.len(),
{
    if sent.len() > 0 {
        law_offset_counts_accepted_pieces(report, sent.drop_last());
    }
}

/// How many bytes of the log the server accepted during a run.
pub open spec fn accepted_in(now: u64, steps: Seq<RunStep>) -> nat
    decreases steps.len(),
{
    if steps.len() == 0 {
        0
    } else {
        let before = accepted_in(now, steps.drop_last());
        match steps.last() {
            RunStep::Happened(ReportEvent::TraceSent(Ok(_))) => before + piece_len(
                reports_after(now, steps.drop_last()).stage,
            ),
            _ => before,
        }
    }
}

/// During a run, the offset is what the server accepted so far. Together with the piece that is being sent
/// it is no more than what was sent, so counting that piece does not overflow.
pub proof fn law_offset_during_a_run(now: u64, steps: Seq<RunStep>)
    requires
        report_history(now, steps),
        logged(steps).len() <= u64::MAX,
    ensures
        reports_after(now, steps).report.log_offset == accepted_in(now, steps),
        accepted_in(now, steps) + piece_len(reports_after(now, steps).stage) <= sent_log(
            report_acts(now, steps),
        ).len() <= u64::MAX,
    decreases steps.len(),
{
    lemma_reports(now, steps);
    if steps.len() > 0 {
        let before = steps.drop_last();
        lemma_reports(now, before);
        law_offset_during_a_run(now, before);
        if let RunStep::Happened(event) = steps.last() {
            let acts = report_acts(now, before);
            assert(report_acts(now, steps).drop_last() =~= acts);
        }
    }
}

/// Whether the server said, in reply to anything, that the job was cancelled.
pub open spec fn told_cancelled(steps: Seq<RunStep>) -> bool {
    exists|i: int|
        0 <= i < steps.len() && (#[trigger] steps[i] == RunStep::Happened(
            ReportEvent::TraceSent(Err(Error::JobCancelled)),
        ) || steps[i] == RunStep::Happened(ReportEvent::Updated(Err(Error::JobCancelled))))
}

proof fn lemma_told_cancelled(steps: Seq<RunStep>)
    requires
        steps.len() > 0,
    ensures
        told_cancelled(steps) <==> told_cancelled(steps.drop_last()) || steps.last()
            == RunStep::Happened(ReportEvent::TraceSent(Err(Error::JobCancelled))) || steps.last()
            == RunStep::Happened(ReportEvent::Updated(Err(Error::JobCancelled))),
{
    let before = steps.drop_last();
    assert(steps[steps.len() - 1] == steps.last());
    if told_cancelled(before) {
        let i = choose|i: int|
            0 <= i < before.len() && (#[trigger] before[i] == RunStep::Happened(
                ReportEvent::TraceSent(Err(Error::JobCancelled)),
            ) || before[i] == RunStep::Happened(ReportEvent::Updated(Err(Error::JobCancelled))));
        assert(steps[i] == before[i]);
    }
    if told_cancelled(steps) {
        let i = choose|i: int|
            0 <= i < steps.len() && (#[trigger] steps[i] == RunStep::Happened(
                ReportEvent::TraceSent(Err(Error::JobCancelled)),
            ) || steps[i] == RunStep::Happened(ReportEvent::Updated(Err(Error::JobCancelled))));
        if i < before.len() {
            assert(before[i] == steps[i]);
        }
    }
}

/// A job counts as cancelled exactly if the server said so, in reply to a piece of log or to a state. No
/// other failure makes a job count as cancelled.
pub proof fn law_only_the_server_cancels(now: u64, steps: Seq<RunStep>)
    requires
        report_history(now, steps),
    ensures
        reports_after(now, steps).report.cancelled <==> told_cancelled(steps),
    decreases steps.len(),
{
    if steps.len() > 0 {
        law_only_the_server_cancels(now, steps.drop_last());
        lemma_told_cancelled(steps);
    }
}

/// The last time at which the server was sent something at a tick, or else the start.
pub open spec fn last_contact(now: u64, steps: Seq<RunStep>) -> u64
    decreases steps.len(),
{
    if steps.len() == 0 {
        now
    } else {
        let act = report_acts(now, steps).last();
        match steps.last() {
            RunStep::Happened(ReportEvent::Tick(time)) => if act is Trace || act is State {
                time
            } else {
                last_contact(now, steps.drop_last())
            },
            _ => last_contact(now, steps.drop_last()),
        }
    }
}

/// The interval that the server asked for last while the job ran; three seconds until it asks for one.
pub open spec fn asked_interval(steps: Seq<RunStep>) -> u64
    decreases steps.len(),
{
    if steps.len() == 0 {
        3
    } else {
        match steps.last() {
            RunStep::Happened(ReportEvent::TraceSent(Ok(reply))) => if !has_ended(steps.drop_last())
                && reply.trace_update_interval is Some {
                reply.trace_update_interval->0
            } else {
                asked_interval(steps.drop_last())
            },
            _ => asked_interval(steps.drop_last()),
        }
    }
}

/// Whether something that the job wrote to its log was not sent yet.
pub open spec fn log_waits(now: u64, steps: Seq<RunStep>) -> bool {
    sent_log(report_acts(now, steps)).len() < logged(steps).len()
}

/// How the end of a job is reported: not at all where the server said that it was cancelled.
pub open spec fn end_report(cancelled: bool, success: bool) -> ReportAct {
    if cancelled {
        ReportAct::Finish
    } else if success {
        ReportAct::State(JobState::Success)
    } else {
        ReportAct::State(JobState::Failed)
    }
}

proof fn lemma_contact(now: u64, steps: Seq<RunStep>)
    requires
        report_history(now, steps),
    ensures
        reports_after(now, steps).report.last_alive == last_contact(now, steps),
        reports_after(now, steps).report.interval == asked_interval(steps),
        reports_after(now, steps).pending.len() > 0 <==> log_waits(now, steps),
    decreases steps.len(),
{
    lemma_reports(now, steps);
    if steps.len() > 0 {
        lemma_reports(now, steps.drop_last());
        lemma_contact(now, steps.drop_last());
    }
}

/// At a tick, what waits in the log is sent. Where nothing waits, the server hears that the job is running
/// exactly if it has heard nothing for more than thirty seconds.
pub proof fn law_ticks(now: u64, steps: Seq<RunStep>, time: u64)
    requires
        report_history(now, steps),
        steps.len() > 0,
        steps.last() == RunStep::Happened(ReportEvent::Tick(time)),
    ensures
        ({
            let before = steps.drop_last();
            let act = report_acts(now, steps).last();
            if log_waits(now, before) {
                act matches ReportAct::Trace(data) && sent_log(report_acts(now, before)) + data
                    == logged(before)
            } else if time - last_contact(now, before) > 30_000_000_000 {
                act == ReportAct::State(JobState::Running)
            } else {
                act == ReportAct::Wait(None)
            }
        }),
{
    lemma_reports(now, steps.drop_last());
    lemma_contact(now, steps.drop_last());
}

/// When the job ends, what waits in the log is sent, and then how the job ended; where nothing waits, the
/// latter at once.
pub proof fn law_end_of_job(now: u64, steps: Seq<RunStep>, success: bool)
    requires
        report_history(now, steps),
        steps.len() > 0,
        steps.last() == RunStep::Happened(ReportEvent::Ended(success)),
    ensures
        ({
            let before = steps.drop_last();
            let act = report_acts(now, steps).last();
            if log_waits(now, before) {
                act matches ReportAct::Trace(data) && sent_log(report_acts(now, before)) + data
                    == logged(before)
            } else {
                act == end_report(told_cancelled(before), success)
            }
        }),
{
    lemma_reports(now, steps.drop_last());
    lemma_contact(now, steps.drop_last());
    law_only_the_server_cancels(now, steps.drop_last());
}

/// After a reply to a piece of log, the reports go on waiting while the job runs, at another interval where
/// the server asks for one; once the job has ended, how it ended is reported, whatever the reply was.
pub proof fn law_reply_to_log(now: u64, steps: Seq<RunStep>, outcome: Result<TraceReply, Error>)
    requires
        report_history(now, steps),
        steps.len() > 0,
        steps.last() == RunStep::Happened(ReportEvent::TraceSent(outcome)),
    ensures
        ({
            let before = steps.drop_last();
            let act = report_acts(now, steps).last();
            if has_ended(before) {
                end_of(before) matches Some(success) && act == end_report(
                    told_cancelled(steps),
                    success,
                )
            } else {
                act == ReportAct::Wait(
                    match outcome {
                        Ok(reply) => if reply.trace_update_interval is Some
                            && reply.trace_update_interval->0 != asked_interval(before) {
                            reply.trace_update_interval
                        } else {
                            None
                        },
                        Err(_) => None,
                    },
                )
            }
        }),
{
    let before = steps.drop_last();
    lemma_reports(now, before);
    lemma_end(now, before);
    lemma_contact(now, before);
    law_only_the_server_cancels(now, steps);
}

/// After a reply to a state, the reports go on waiting while the job runs, and are done once it has ended.
pub proof fn law_reply_to_state(
    now: u64,
    steps: Seq<RunStep>,
    outcome: Result<JobUpdateReply, Error>,
)
    requires
        report_history(now, steps),
        steps.len() > 0,
        steps.last() == RunStep::Happened(ReportEvent::Updated(outcome)),
    ensures
        report_acts(now, steps).last() == (if has_ended(steps.drop_last()) {
            ReportAct::Finish
        } else {
            ReportAct::Wait(None)
        }),
{
    lemma_reports(now, steps.drop_last());
}

/// The pieces of log that the server accepted, one after the other.
pub open spec fn accepted_log(now: u64, steps: Seq<RunStep>) -> Seq<u8>
    decreases steps.len(),
{
    if steps.len() == 0 {
        Seq::empty()
    } else {
        let before = steps.drop_last();
        match (steps.last(), report_acts(now, before).last()) {
            (
                RunStep::Happened(ReportEvent::TraceSent(Ok(_))),
                ReportAct::Trace(data),
            ) => accepted_log(now, before) + data,
            _ => accepted_log(now, before),
        }
    }
}

proof fn lemma_last_trace(now: u64, steps: Seq<RunStep>)
    requires
        report_history(now, steps),
    ensures
        ({
            let stage = reports_after(now, steps).stage;
            stage is TickTrace || stage is RestTrace ==> report_acts(now, steps).len() > 0 && (
            report_acts(now, steps).last() matches ReportAct::Trace(data) && piece_len(stage)
                == data.len() as u64)
        }),
    decreases steps.len(),
{
    if steps.len() > 0 {
        lemma_last_trace(now, steps.drop_last());
    }
}

/// The next piece of log starts where the accepted ones end, as long as the log is not too long to count.
pub proof fn law_offset_is_where_the_accepted_log_ends(now: u64, steps: Seq<RunStep>)
    requires
        report_history(now, steps),
        logged(steps).len() <= u64::MAX,
    ensures
        reports_after(now, steps).report.log_offset == accepted_log(now, steps).len(),
    decreases steps.len(),
{
    if steps.len() > 0 {
        let before = steps.drop_last();
        law_offset_is_where_the_accepted_log_ends(now, before);
        lemma_last_trace(now, before);
        law_offset_during_a_run(now, before);
        law_offset_during_a_run(now, steps);
        lemma_trace_is_sent(report_acts(now, before));
    }
}

proof fn lemma_trace_is_sent(acts: Seq<ReportAct>)
    ensures
        acts.len() > 0 ==> (acts.last() matches ReportAct::Trace(data) ==> data.len() <= sent_log(
            acts,
        ).len()),
{
}

/// What is done is what the reports decide: the very piece of log or state is sent, and the very interval is
/// waited for.
pub proof fn law_acts_are_done(action: ReportAction, act: ReportAct)
    requires
        does(action, act),
    ensures
        match act {
            ReportAct::Trace(data) => action matches ReportAction::SendTrace(buf) && buf@ == data,
            ReportAct::State(state) => action == ReportAction::SendState(state),
            ReportAct::Wait(interval) => action == ReportAction::Wait(interval),
            ReportAct::Finish => action is Finish,
        },
{
}

} // verus!
