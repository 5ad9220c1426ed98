//! Doing the work of a job.

use crate::error::{
    caused_human, caused_human_view, caused_internal, CargoError, ErrorView, ProcessError,
    ProcessErrorView,
};
use crate::ops::cargo_rustc::work::{Prepare, ToolView, Work, WorkView};
use crate::path::Path;
use crate::process_builder::{Command, ProcessBuilder};
use crate::text::{enclose, views};
use vstd::prelude::*;
use vstd::string::StringExecFns;

verus! {

/// What a job is waiting for.
#[derive(Debug, Clone, Copy, PartialEq, Eq, Structural)]
pub enum Phase {
    /// To be begun.
    Start,
    /// To be told whether there are earlier results.
    Looking,
    /// To be told that a directory for results is there.
    Making,
    /// To be told that a process has ended.
    Running,
    /// To be told that a fingerprint was recorded.
    Recording,
    /// Nothing: the job has ended.
    Done,
}

/// How far a job has come.
#[derive(Debug, Clone, Copy, PartialEq, Eq, Structural)]
pub struct JobState {
    /// How much of its work is done.
    pub at: usize,
    pub phase: Phase,
}

/// What has happened to a job.
pub enum JobEvent {
    /// It was begun.
    Begin,
    /// It was found whether there are earlier results.
    Looked(bool),
    /// The directory for the results was made.
    Made(Result<(), CargoError>),
    /// A process has ended.
    Ran(Result<(), ProcessError>),
    /// A fingerprint was recorded.
    Recorded(Result<(), CargoError>),
}

/// What is to be done for a job.
pub enum JobAction<'a> {
    /// Find whether something is there.
    LookFor(&'a Path),
    /// Rename a directory.
    Rename { from: &'a Path, to: &'a Path },
    /// Make a directory.
    MakeDir(&'a Path),
    /// Run a process; what it writes goes to the user.
    Exec(&'a ProcessBuilder),
    /// Run a process and collect what it writes.
    ExecWithOutput(&'a ProcessBuilder),
    /// Record a fingerprint.
    Record(Prepare),
    /// Nothing more: this is how it ended.
    Finish(Result<(), CargoError>),
}

/// What a `JobAction` is.
pub enum JobActionView {
    LookFor(Seq<u8>),
    Rename { from: Seq<u8>, to: Seq<u8> },
    MakeDir(Seq<u8>),
    Exec(Command),
    ExecWithOutput(Command),
    Record(Prepare),
    Finish(Result<(), ErrorView>),
}

impl<'a> View for JobAction<'a> {
    type V = JobActionView;

    open spec fn view(&self) -> JobActionView {
        match self {
            JobAction::LookFor(path) => JobActionView::LookFor(path@),
            JobAction::Rename { from, to } => JobActionView::Rename { from: from@, to: to@ },
            JobAction::MakeDir(path) => JobActionView::MakeDir(path@),
            JobAction::Exec(command) => JobActionView::Exec(command@),
            JobAction::ExecWithOutput(command) => JobActionView::ExecWithOutput(command@),
            JobAction::Record(prepare) => JobActionView::Record(*prepare),
            JobAction::Finish(Ok(_)) => JobActionView::Finish(Ok(())),
            JobAction::Finish(Err(error)) => JobActionView::Finish(Err(error@)),
        }
    }
}

/// How a tool is run: what it writes about the package that was asked for goes to the user, what it
/// writes about dependencies is collected.
pub open spec fn run_tool(run: ToolView) -> JobActionView {
    if run.primary {
        JobActionView::Exec(run.command)
    } else {
        JobActionView::ExecWithOutput(run.command)
    }
}

/// The beginning of the work at `at`.
pub open spec fn begin_work(works: Seq<WorkView>, at: int) -> (Phase, JobActionView) {
    if at >= works.len() {
        (Phase::Done, JobActionView::Finish(Ok(())))
    } else {
        match works[at] {
            WorkView::Custom(custom) => if custom.first {
                (Phase::Looking, JobActionView::LookFor(custom.old_output))
            } else {
                (Phase::Running, JobActionView::ExecWithOutput(custom.command))
            },
            WorkView::Rustc(run) => (Phase::Running, run_tool(run)),
            WorkView::Rustdoc(run) => (Phase::Running, run_tool(run)),
            WorkView::Fingerprint(prepare) => (Phase::Recording, JobActionView::Record(prepare)),
        }
    }
}

/// The error of a job whose process failed.
pub open spec fn work_error(work: WorkView, error: ProcessErrorView) -> ErrorView {
    match work {
        WorkView::Custom(custom) => ErrorView::Process {
            error: ProcessErrorView {
                msg: "Failed to run custom build command for `"@ + custom.package + "`\n"@ + error.msg,
                ..error
            },
            is_human: true,
        },
        WorkView::Rustc(run) => {
            let message = "Could not compile `"@ + run.name + "`."@;
            if run.primary {
                caused_human_view(message, error)
            } else {
                caused_human_view(message + "\n"@ + error.output->0, error)
            }
        },
        WorkView::Rustdoc(run) => {
            let message = "Could not document `"@ + run.name + "`."@;
            if run.primary {
                caused_human_view(message, error)
            } else {
                match error.output {
                    Some(output) => caused_human_view(message + "\n"@ + output, error),
                    None => caused_human_view("Failed to run rustdoc"@, error),
                }
            }
        },
        WorkView::Fingerprint(_) => ErrorView::Process { error, is_human: false },
    }
}

/// The error of a job that could not make the directory for the results of its build command.
pub open spec fn dir_error(error: ErrorView) -> ErrorView {
    ErrorView::Message {
        description: "failed to create output directory for build command"@,
        is_human: false,
        cause: Some(Box::new(error)),
    }
}

/// A job that goes on with the work at `at`.
pub open spec fn go_to(works: Seq<WorkView>, at: int) -> (JobState, JobActionView) {
    let (phase, action) = begin_work(works, at);
    (JobState { at: at as usize, phase }, action)
}

/// A job that ends with an error.
pub open spec fn give_up(state: JobState, error: ErrorView) -> (JobState, JobActionView) {
    (JobState { at: state.at, phase: Phase::Done }, JobActionView::Finish(Err(error)))
}

/// What comes of an event: how far the job has come then, and what is to be done next.
pub open spec fn job_step(works: Seq<WorkView>, state: JobState, event: JobEvent) -> (
    JobState,
    JobActionView,
) {
    let work = works[state.at as int];
    match event {
        JobEvent::Begin => go_to(works, 0),
        JobEvent::Looked(there) => (
            JobState { at: state.at, phase: Phase::Making },
            if there {
                JobActionView::Rename { from: work->Custom_0.old_output, to: work->Custom_0.output }
            } else {
                JobActionView::MakeDir(work->Custom_0.output)
            },
        ),
        JobEvent::Made(Ok(_)) => (
            JobState { at: state.at, phase: Phase::Running },
            JobActionView::ExecWithOutput(work->Custom_0.command),
        ),
        JobEvent::Made(Err(error)) => give_up(state, dir_error(error@)),
        JobEvent::Ran(Ok(_)) => go_to(works, state.at + 1),
        JobEvent::Ran(Err(error)) => give_up(state, work_error(work, error@)),
        JobEvent::Recorded(Ok(_)) => go_to(works, state.at + 1),
        JobEvent::Recorded(Err(error)) => give_up(state, error@),
    }
}

/// Whether a job waits for something that belongs to its work.
pub open spec fn job_wf(works: Seq<WorkView>, state: JobState) -> bool {
    match state.phase {
        Phase::Start => true,
        Phase::Looking => state.at < works.len() && works[state.at as int] is Custom,
        Phase::Making => state.at < works.len() && works[state.at as int] is Custom,
        Phase::Running => state.at < works.len() && !(works[state.at as int] is Fingerprint),
        Phase::Recording => state.at < works.len() && works[state.at as int] is Fingerprint,
        Phase::Done => true,
    }
}

/// Whether an event can happen to a job that has come so far. What the compiler writes about a
/// dependency is known when it fails.
pub open spec fn job_can_happen(works: Seq<WorkView>, state: JobState, event: JobEvent) -> bool {
    match (state.phase, event) {
        (Phase::Start, JobEvent::Begin) => true,
        (Phase::Looking, JobEvent::Looked(_)) => true,
        (Phase::Making, JobEvent::Made(_)) => true,
        (Phase::Running, JobEvent::Ran(Ok(_))) => true,
        (Phase::Running, JobEvent::Ran(Err(error))) => match works[state.at as int] {
            WorkView::Rustc(run) => run.primary || error.output is Some,
            _ => true,
        },
        (Phase::Recording, JobEvent::Recorded(_)) => true,
        _ => false,
    }
}

/// Begins the work at `at`.
fn start_work<'a>(works: &'a Vec<Work>, at: usize) -> (next: (JobState, JobAction<'a>))
    requires
        at <= works@.len(),
    ensures
        (next.0, next.1@) == go_to(views(works@), at as int),
        job_wf(views(works@), next.0),
{
    if at >= works.len() {
        return (JobState { at, phase: Phase::Done }, JobAction::Finish(Ok(())));
    }
    assert(views(works@)[at as int] == works@[at as int]@);
    match &works[at] {
        Work::Custom(custom) => if custom.first {
            (JobState { at, phase: Phase::Looking }, JobAction::LookFor(&custom.old_output))
        } else {
            (JobState { at, phase: Phase::Running }, JobAction::ExecWithOutput(&custom.command))
        },
        Work::Rustc(run) | Work::Rustdoc(run) => {
            let action = if run.primary {
                JobAction::Exec(&run.command)
            } else {
                JobAction::ExecWithOutput(&run.command)
            };
            (JobState { at, phase: Phase::Running }, action)
        },
        Work::Fingerprint(prepare) => (
            JobState { at, phase: Phase::Recording },
            JobAction::Record(*prepare),
        ),
    }
}

/// Reports a process that failed.
fn report(work: &Work, error: ProcessError) -> (reported: CargoError)
    requires
        work@ matches WorkView::Rustc(run) ==> run.primary || error.output is Some,
    ensures
        reported@ == work_error(work@, error@),
{
    match work {
        Work::Custom(custom) => {
            let mut error = error;
            let mut msg = enclose(
                "Failed to run custom build command for `",
                custom.package.as_str(),
                "`\n",
            );
            msg.append(error.msg.as_str());
            error.msg = msg;
            error.mark_human()
        },
        Work::Rustc(run) => {
            let mut message = enclose("Could not compile `", run.name.as_str(), "`.");
            if !run.primary {
                if let Some(output) = &error.output {
                    message.append("\n");
                    message.append(output.as_str());
                }
            }
            caused_human(message, error)
        },
        Work::Rustdoc(run) => {
            let mut message = enclose("Could not document `", run.name.as_str(), "`.");
            if !run.primary {
                match &error.output {
                    Some(output) => {
                        message.append("\n");
                        message.append(output.as_str());
                    },
                    None => {
                        message = "Failed to run rustdoc".to_owned();
                    },
                }
            }
            caused_human(message, error)
        },
        Work::Fingerprint(_) => error.boxed(),
    }
}

/// Takes a job one step further: from how far it has come and what has happened to how far it has
/// come then and what is to be done next.
pub fn step_job<'a>(works: &'a Vec<Work>, state: JobState, event: JobEvent) -> (next: (
    JobState,
    JobAction<'a>,
))
    requires
        job_wf(views(works@), state),
        job_can_happen(views(works@), state, event),
    ensures
        (next.0, next.1@) == job_step(views(works@), state, event),
        job_wf(views(works@), next.0),
{
    let at = state.at;
    let ended = JobState { at, phase: Phase::Done };
    assert(at < works@.len() ==> views(works@)[at as int] == works@[at as int]@);
    assert(works@.len() == works.len());
    match event {
        JobEvent::Begin => start_work(works, 0),
        JobEvent::Looked(there) => match &works[at] {
            Work::Custom(custom) => {
                let action = if there {
                    JobAction::Rename { from: &custom.old_output, to: &custom.output }
                } else {
                    JobAction::MakeDir(&custom.output)
                };
                (JobState { at, phase: Phase::Making }, action)
            },
            _ => vstd::pervasive::unreached(),
        },
        JobEvent::Made(Ok(_)) => match &works[at] {
            Work::Custom(custom) => (
                JobState { at, phase: Phase::Running },
                JobAction::ExecWithOutput(&custom.command),
            ),
            _ => vstd::pervasive::unreached(),
        },
        JobEvent::Made(Err(error)) => {
            let message = "failed to create output directory for build command".to_owned();
            (ended, JobAction::Finish(Err(caused_internal(message, error))))
        },
        JobEvent::Ran(Ok(_)) => start_work(works, at + 1),
        JobEvent::Ran(Err(error)) => (ended, JobAction::Finish(Err(report(&works[at], error)))),
        JobEvent::Recorded(Ok(_)) => start_work(works, at + 1),
        JobEvent::Recorded(Err(error)) => (ended, JobAction::Finish(Err(error))),
    }
}

/// How far a job has come after `events`, and what is to be done then.
pub open spec fn job_run(works: Seq<WorkView>, events: Seq<JobEvent>) -> (
    JobState,
    Option<JobActionView>,
)
    decreases events.len(),
{
    if events.len() == 0 {
        (JobState { at: 0, phase: Phase::Start }, None)
    } else {
        let before = job_run(works, events.drop_last()).0;
        let (state, action) = job_step(works, before, events.last());
        (state, Some(action))
    }
}

/// Whether `events` can happen one after the other.
pub open spec fn job_possible(works: Seq<WorkView>, events: Seq<JobEvent>) -> bool
    decreases events.len(),
{
    events.len() == 0 || {
        &&& job_possible(works, events.drop_last())
        &&& job_can_happen(works, job_run(works, events.drop_last()).0, events.last())
    }
}

/// Whether an event completes a piece of work.
pub open spec fn completes(event: JobEvent) -> bool {
    event matches JobEvent::Ran(Ok(_)) || event matches JobEvent::Recorded(Ok(_))
}

/// How many pieces of work `events` complete.
pub open spec fn completed(events: Seq<JobEvent>) -> nat
    decreases events.len(),
{
    if events.len() == 0 {
        0
    } else if completes(events.last()) {
        completed(events.drop_last()) + 1
    } else {
        completed(events.drop_last())
    }
}

/// Whether an event is a failure.
pub open spec fn job_failure(event: JobEvent) -> bool {
    ||| event matches JobEvent::Made(Err(_))
    ||| event matches JobEvent::Ran(Err(_))
    ||| event matches JobEvent::Recorded(Err(_))
}

/// No event is a failure.
pub open spec fn all_well(events: Seq<JobEvent>) -> bool {
    forall|i: int| 0 <= i < events.len() ==> !job_failure(#[trigger] events[i])
}

proof fn lemma_job_history(works: Seq<WorkView>, events: Seq<JobEvent>)
    requires
        works.len() <= usize::MAX,
        job_possible(works, events),
    ensures
        ({
            let (state, action) = job_run(works, events);
            &&& job_wf(works, state)
            &&& state.at == completed(events)
            &&& state.at <= works.len()
            &&& state.phase != Phase::Done ==> all_well(events)
            &&& state.phase == Phase::Done ==> action is Some && action->0 is Finish
            &&& action is Some && action->0 is Record ==> state.at < works.len()
                && works[state.at as int] == WorkView::Fingerprint(action->0->Record_0)
            &&& action == Some(JobActionView::Finish(Ok(()))) ==> all_well(events) && state.at
                == works.len() && state.phase == Phase::Done
        }),
    decreases events.len(),
{
    if events.len() > 0 {
        let front = events.drop_last();
        lemma_job_history(works, front);
        let before = job_run(works, front).0;
        assert(before.phase != Phase::Done);
        assert forall|i: int| 0 <= i < events.len() && i < front.len() implies !job_failure(
            #[trigger] events[i],
        ) by {
            assert(events[i] == front[i]);
        }
    }
}

/// The pieces of work of a job are done one after the other: as long as the job goes on nothing has
/// failed, and the work at hand is the first that is not completed. In particular a fingerprint is
/// recorded only after all that comes before it was done.
pub proof fn law_work_in_order(works: Seq<WorkView>, events: Seq<JobEvent>)
    requires
        works.len() <= usize::MAX,
        job_possible(works, events),
        job_run(works, events).0.phase != Phase::Done,
    ensures
        all_well(events),
        job_run(works, events).0.at == completed(events),
        job_run(works, events).1 matches Some(JobActionView::Record(prepare)) ==> completed(events)
            < works.len() && works[completed(events) as int] == WorkView::Fingerprint(prepare),
{
    lemma_job_history(works, events);
}

/// A job ends well only after all its work was done and nothing has failed.
pub proof fn law_job_ends_well(works: Seq<WorkView>, events: Seq<JobEvent>)
    requires
        works.len() <= usize::MAX,
        job_possible(works, events),
        job_run(works, events).1 == Some(JobActionView::Finish(Ok(()))),
    ensures
        all_well(events),
        completed(events) == works.len(),
{
    lemma_job_history(works, events);
}

/// The first failure ends a job, and nothing can happen to the job after that.
pub proof fn law_failure_ends_job(
    works: Seq<WorkView>,
    state: JobState,
    event: JobEvent,
    later: JobEvent,
)
    requires
        job_can_happen(works, state, event),
        job_failure(event),
    ensures
        job_step(works, state, event).1 matches JobActionView::Finish(Err(_)),
        !job_can_happen(works, job_step(works, state, event).0, later),
{
}

/// A job begins with its first piece of work and goes on with the next one whenever one is done; it
/// ends well when there is none left.
pub proof fn law_next_work(works: Seq<WorkView>, state: JobState, event: JobEvent, next: int)
    requires
        state.at < usize::MAX,
        event is Begin && next == 0 || (completes(event) && next == state.at + 1),
    ensures
        job_step(works, state, event).0.at == next,
        next >= works.len() ==> job_step(works, state, event).1 == JobActionView::Finish(Ok(()))
            && job_step(works, state, event).0.phase == Phase::Done,
        next < works.len() ==> {
            let (after, action) = job_step(works, state, event);
            match works[next] {
                WorkView::Custom(custom) => {
                    &&& custom.first ==> action == JobActionView::LookFor(custom.old_output)
                        && after.phase == Phase::Looking
                    &&& !custom.first ==> action == JobActionView::ExecWithOutput(custom.command)
                        && after.phase == Phase::Running
                },
                WorkView::Rustc(run) => {
                    &&& run.primary ==> action == JobActionView::Exec(run.command)
                    &&& !run.primary ==> action == JobActionView::ExecWithOutput(run.command)
                    &&& after.phase == Phase::Running
                },
                WorkView::Rustdoc(run) => {
                    &&& run.primary ==> action == JobActionView::Exec(run.command)
                    &&& !run.primary ==> action == JobActionView::ExecWithOutput(run.command)
                    &&& after.phase == Phase::Running
                },
                WorkView::Fingerprint(prepare) => action == JobActionView::Record(prepare)
                    && after.phase == Phase::Recording,
            }
        },
{
}

/// Before the first build command of a package is run, earlier results are brought back if there are
/// any, and otherwise a directory is made for the results; then the command is run.
pub proof fn law_directory_before_build_command(works: Seq<WorkView>, state: JobState)
    requires
        state.at < works.len(),
        works[state.at as int] is Custom,
    ensures
        ({
            let custom = works[state.at as int]->Custom_0;
            let making = JobState { at: state.at, phase: Phase::Making };
            let running = JobState { at: state.at, phase: Phase::Running };
            &&& job_step(works, state, JobEvent::Looked(true)) == (
                making,
                JobActionView::Rename { from: custom.old_output, to: custom.output },
            )
            &&& job_step(works, state, JobEvent::Looked(false)) == (
                making,
                JobActionView::MakeDir(custom.output),
            )
            &&& job_step(works, state, JobEvent::Made(Ok(()))) == (
                running,
                JobActionView::ExecWithOutput(custom.command),
            )
        }),
{
}

/// How a job fails whose directory cannot be made, or whose fingerprint cannot be recorded.
pub proof fn law_failed_preparations(works: Seq<WorkView>, state: JobState, error: CargoError)
    ensures
        job_step(works, state, JobEvent::Made(Err(error))).1 == JobActionView::Finish(
            Err(
                ErrorView::Message {
                    description: "failed to create output directory for build command"@,
                    is_human: false,
                    cause: Some(Box::new(error@)),
                },
            ),
        ),
        job_step(works, state, JobEvent::Recorded(Err(error))).1 == JobActionView::Finish(
            Err(error@),
        ),
{
}

/// The error of a job whose process failed, `message` being for the user and the failure its cause.
pub open spec fn told_failure(message: Seq<char>, error: ProcessErrorView) -> JobActionView {
    JobActionView::Finish(
        Err(
            ErrorView::Message {
                description: message,
                is_human: true,
                cause: Some(Box::new(ErrorView::Process { error, is_human: false })),
            },
        ),
    )
}

/// A build command that failed is reported under its package, with all that is known of the failure.
pub proof fn law_failed_build_command(works: Seq<WorkView>, state: JobState, error: ProcessError)
    requires
        state.at < works.len(),
        works[state.at as int] is Custom,
    ensures
        ({
            let package = works[state.at as int]->Custom_0.package;
            let action = job_step(works, state, JobEvent::Ran(Err(error))).1;
            &&& action is Finish
            &&& action->Finish_0 is Err
            &&& action->Finish_0->Err_0 is Process
            &&& action->Finish_0->Err_0->Process_is_human
            &&& action->Finish_0->Err_0->error.msg
                == "Failed to run custom build command for `"@ + package + "`\n"@ + error.msg@
            &&& action->Finish_0->Err_0->error.exit == error.exit
            &&& action->Finish_0->Err_0->error.output == error@.output
        }),
{
}

/// A compilation that failed is reported under the name of the package; what the compiler wrote is
/// added if the user has not seen it.
pub proof fn law_failed_compilation(works: Seq<WorkView>, state: JobState, error: ProcessError)
    requires
        state.at < works.len(),
        works[state.at as int] is Rustc,
    ensures
        ({
            let run = works[state.at as int]->Rustc_0;
            let action = job_step(works, state, JobEvent::Ran(Err(error))).1;
            let message = "Could not compile `"@ + run.name + "`."@;
            &&& run.primary ==> action == told_failure(message, error@)
            &&& !run.primary && error.output is Some ==> action == told_failure(
                message + "\n"@ + error.output->0@,
                error@,
            )
        }),
{
}

/// Documentation that failed is reported under the name of the package; what the tool wrote is added
/// if the user has not seen it and it is known.
pub proof fn law_failed_documentation(works: Seq<WorkView>, state: JobState, error: ProcessError)
    requires
        state.at < works.len(),
        works[state.at as int] is Rustdoc,
    ensures
        ({
            let run = works[state.at as int]->Rustdoc_0;
            let action = job_step(works, state, JobEvent::Ran(Err(error))).1;
            let message = "Could not document `"@ + run.name + "`."@;
            &&& run.primary ==> action == told_failure(message, error@)
            &&& !run.primary && error.output is Some ==> action == told_failure(
                message + "\n"@ + error.output->0@,
                error@,
            )
            &&& !run.primary && error.output is None ==> action == told_failure(
                "Failed to run rustdoc"@,
                error@,
            )
        }),
{
}

/// What is told of an action is what it holds.
pub proof fn law_job_action_tells_what_it_holds(action: JobAction)
    ensures
        action matches JobAction::LookFor(path) ==> action@ == JobActionView::LookFor(path.repr@),
        action matches JobAction::Rename { from, to } ==> action@ == (JobActionView::Rename {
            from: from.repr@,
            to: to.repr@,
        }),
        action matches JobAction::MakeDir(path) ==> action@ == JobActionView::MakeDir(path.repr@),
        action matches JobAction::Exec(command) ==> action@ == JobActionView::Exec(command@),
        action matches JobAction::ExecWithOutput(command) ==> action@
            == JobActionView::ExecWithOutput(command@),
        action matches JobAction::Record(prepare) ==> action@ == JobActionView::Record(prepare),
        action matches JobAction::Finish(Ok(_)) ==> action@ == JobActionView::Finish(Ok(())),
        action matches JobAction::Finish(Err(error)) ==> action@ == JobActionView::Finish(
            Err(error@),
        ),
{
}

/// What can happen to a job: each thing that it waits for, and nothing else; but when the compiler
/// fails on a dependency it is known what it wrote.
pub proof fn law_what_can_happen_to_a_job(works: Seq<WorkView>, state: JobState, event: JobEvent)
    ensures
        job_can_happen(works, state, event) <==> {
            ||| state.phase == Phase::Start && event is Begin
            ||| state.phase == Phase::Looking && event is Looked
            ||| state.phase == Phase::Making && event is Made
            ||| state.phase == Phase::Recording && event is Recorded
            ||| state.phase == Phase::Running && event is Ran && (event->Ran_0 is Err
                && works[state.at as int] is Rustc && !works[state.at as int]->Rustc_0.primary
                ==> event->Ran_0->Err_0.output is Some)
        },
{
}

} // verus!
