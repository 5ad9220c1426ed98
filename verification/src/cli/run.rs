//! Running the main program of a package.

use crate::cli::exit::{
    exit_code_of, law_exit_codes_differ, to_exit_code, CliError, CliErrorView, FAILURE,
};
use crate::error::{CargoError, ErrorView, ProcessError, ProcessErrorView, ProcessExit};
use crate::ops::options::{CompileOptions, OptionsView};
use crate::path::Path;
use crate::text::opt_view;
use vstd::prelude::*;

verus! {

/// What the user asks for.
#[derive(Debug, PartialEq, Eq)]
pub struct Options {
    /// How many jobs run at the same time.
    pub flag_jobs: Option<usize>,
    /// Whether to build with optimisations.
    pub flag_release: bool,
    /// The platform to build for.
    pub flag_target: Option<String>,
    /// Whether what is known of remote packages is brought up to date first.
    pub flag_update_remotes: bool,
    /// The manifest of the package.
    pub flag_manifest_path: Option<String>,
    /// Whether to tell everything that is done.
    pub flag_verbose: bool,
    /// What the program gets as its arguments.
    pub arg_args: Vec<String>,
}

/// How far the command has come.
#[derive(Debug, Clone, Copy, PartialEq, Eq, Structural)]
pub enum RunState {
    Start,
    /// It is being set how much is told.
    Setting,
    /// The manifest is being looked for.
    Finding,
    /// The program is being built and run.
    Running,
    Done,
}

/// What has happened to the command.
pub enum RunEvent {
    Begin,
    /// It was set how much is told.
    VerboseSet,
    /// The manifest was looked for.
    Found(Result<Path, CliError>),
    /// The program was built and run; it may have failed.
    Ran(Result<Option<ProcessError>, CargoError>),
}

/// What is to be done for the command.
#[derive(Debug, PartialEq, Eq)]
pub enum RunAction<'a> {
    /// Set whether everything is told that is done.
    SetVerbose(bool),
    /// Look for the manifest, at the given place if there is one.
    FindManifest(&'a Option<String>),
    /// Build and run the program.
    Run { root: Path, options: CompileOptions, args: &'a Vec<String> },
    /// Nothing more: this is how it ended.
    Finish(Result<Option<()>, CliError>),
}

/// What a `RunAction` is.
pub enum RunActionView {
    SetVerbose(bool),
    FindManifest(Option<Seq<char>>),
    Run { root: Seq<u8>, options: OptionsView, args: Seq<String> },
    Finish(Result<Option<()>, CliErrorView>),
}

impl<'a> View for RunAction<'a> {
    type V = RunActionView;

    open spec fn view(&self) -> RunActionView {
        match self {
            RunAction::SetVerbose(verbose) => RunActionView::SetVerbose(*verbose),
            RunAction::FindManifest(path) => RunActionView::FindManifest(opt_view(**path)),
            RunAction::Run { root, options, args } => RunActionView::Run {
                root: root@,
                options: options@,
                args: args@,
            },
            RunAction::Finish(Ok(value)) => RunActionView::Finish(Ok(*value)),
            RunAction::Finish(Err(failed)) => RunActionView::Finish(Err(failed@)),
        }
    }
}

/// What the build is asked to do.
pub open spec fn run_options(options: Options) -> OptionsView {
    OptionsView {
        update: options.flag_update_remotes,
        env: if options.flag_release {
            "release"@
        } else {
            "compile"@
        },
        jobs: options.flag_jobs,
        target: opt_view(options.flag_target),
        dev_deps: true,
    }
}

/// How the command ends when its program failed: with the status of the program, if it has one.
pub open spec fn run_failure(error: ProcessErrorView) -> CliErrorView {
    CliErrorView::Error {
        error: ErrorView::Process { error, is_human: false },
        exit_code: match error.exit {
            Some(ProcessExit::ExitStatus(status)) => exit_code_of(status) as usize,
            _ => FAILURE,
        },
    }
}

/// What comes of an event: how far the command has come then, and what is to be done next.
pub open spec fn run_step(options: Options, event: RunEvent) -> (RunState, RunActionView) {
    match event {
        RunEvent::Begin => (RunState::Setting, RunActionView::SetVerbose(options.flag_verbose)),
        RunEvent::VerboseSet => (
            RunState::Finding,
            RunActionView::FindManifest(opt_view(options.flag_manifest_path)),
        ),
        RunEvent::Found(Ok(root)) => (
            RunState::Running,
            RunActionView::Run {
                root: root@,
                options: run_options(options),
                args: options.arg_args@,
            },
        ),
        RunEvent::Found(Err(failed)) => (RunState::Done, RunActionView::Finish(Err(failed@))),
        RunEvent::Ran(Ok(None)) => (RunState::Done, RunActionView::Finish(Ok(None))),
        RunEvent::Ran(Ok(Some(error))) => (
            RunState::Done,
            RunActionView::Finish(Err(run_failure(error@))),
        ),
        RunEvent::Ran(Err(error)) => (
            RunState::Done,
            RunActionView::Finish(
                Err(CliErrorView::Error { error: error@, exit_code: FAILURE }),
            ),
        ),
    }
}

/// Whether an event can happen to the command when it has come so far.
pub open spec fn run_can_happen(state: RunState, event: RunEvent) -> bool {
    match (state, event) {
        (RunState::Start, RunEvent::Begin) => true,
        (RunState::Setting, RunEvent::VerboseSet) => true,
        (RunState::Finding, RunEvent::Found(_)) => true,
        (RunState::Running, RunEvent::Ran(_)) => true,
        _ => false,
    }
}

/// Copies an optional text.
pub(crate) fn copy_text(text: &Option<String>) -> (copy: Option<String>)
    ensures
        opt_view(copy) == opt_view(*text),
{
    match text {
        Some(text) => Some(text.clone()),
        None => None,
    }
}

/// Takes the command one step further: from how far it has come and what has happened to how far it
/// has come then and what is to be done next.
pub fn execute<'a>(options: &'a Options, state: RunState, event: RunEvent) -> (next: (
    RunState,
    RunAction<'a>,
))
    requires
        run_can_happen(state, event),
    ensures
        (next.0, next.1@) == run_step(*options, event),
{
    match event {
        RunEvent::Begin => (RunState::Setting, RunAction::SetVerbose(options.flag_verbose)),
        RunEvent::VerboseSet => (
            RunState::Finding,
            RunAction::FindManifest(&options.flag_manifest_path),
        ),
        RunEvent::Found(Ok(root)) => {
            let env = if options.flag_release {
                "release".to_owned()
            } else {
                "compile".to_owned()
            };
            let compile_opts = CompileOptions {
                update: options.flag_update_remotes,
                env,
                jobs: options.flag_jobs,
                target: copy_text(&options.flag_target),
                dev_deps: true,
            };
            (
                RunState::Running,
                RunAction::Run { root, options: compile_opts, args: &options.arg_args },
            )
        },
        RunEvent::Found(Err(failed)) => (RunState::Done, RunAction::Finish(Err(failed))),
        RunEvent::Ran(Ok(None)) => (RunState::Done, RunAction::Finish(Ok(None))),
        RunEvent::Ran(Ok(Some(error))) => {
            let exit_code = match error.exit {
                Some(ProcessExit::ExitStatus(status)) => to_exit_code(status),
                _ => FAILURE,
            };
            let failed = CliError::from_boxed(error.boxed(), exit_code);
            (RunState::Done, RunAction::Finish(Err(failed)))
        },
        RunEvent::Ran(Err(error)) => (
            RunState::Done,
            RunAction::Finish(Err(CliError::from_boxed(error, FAILURE))),
        ),
    }
}

/// The program is run only once the manifest was found, and with the arguments that the user gave;
/// the command ends well only if the program did.
pub proof fn law_run_follows_the_program(options: Options, event: RunEvent)
    ensures
        run_step(options, event).1 matches RunActionView::Run { root, options: _, args } ==> (event
            matches RunEvent::Found(Ok(found)) && found@ == root) && args == options.arg_args@,
        run_step(options, event).1 matches RunActionView::Finish(Ok(_)) <==> event
            matches RunEvent::Ran(Ok(None)),
{
}

/// The command first sets how much is told, as the user says, then looks for the manifest where the
/// user says, and then builds and runs the program that belongs to it.
pub proof fn law_run_in_order(options: Options, root: Path)
    ensures
        run_step(options, RunEvent::Begin) == (
            RunState::Setting,
            RunActionView::SetVerbose(options.flag_verbose),
        ),
        run_step(options, RunEvent::VerboseSet).0 == RunState::Finding,
        run_step(options, RunEvent::VerboseSet).1 == RunActionView::FindManifest(
            opt_view(options.flag_manifest_path),
        ),
        ({
            let (next, action) = run_step(options, RunEvent::Found(Ok(root)));
            &&& next == RunState::Running
            &&& action is Run
            &&& action->root == root@
            &&& action->args == options.arg_args@
            &&& options.flag_release ==> action->options.env == "release"@
            &&& !options.flag_release ==> action->options.env == "compile"@
            &&& action->options.update == options.flag_update_remotes
            &&& action->options.jobs == options.flag_jobs
            &&& action->options.target == opt_view(options.flag_target)
            &&& action->options.dev_deps
        }),
{
}

/// The command ends as the program did: well if it did; with the status of the program if it has one
/// that it ended with by itself, and otherwise with the code of a command that failed by itself; and
/// with the error that it is told of. An error before the program ends it with that error.
pub proof fn law_run_ends_as_the_program(
    options: Options,
    error: ProcessError,
    failed: CargoError,
    missing: CliError,
)
    ensures
        run_step(options, RunEvent::Ran(Ok(None))) == (
            RunState::Done,
            RunActionView::Finish(Ok(None)),
        ),
        run_step(options, RunEvent::Found(Err(missing))) == (
            RunState::Done,
            RunActionView::Finish(Err(missing@)),
        ),
        run_step(options, RunEvent::Ran(Err(failed))) == (
            RunState::Done,
            RunActionView::Finish(Err(CliErrorView::Error { error: failed@, exit_code: 101 })),
        ),
        ({
            let (next, action) = run_step(options, RunEvent::Ran(Ok(Some(error))));
            &&& next == RunState::Done
            &&& action is Finish
            &&& action->Finish_0 is Err
            &&& action->Finish_0->Err_0 is Error
            &&& action->Finish_0->Err_0->error == (ErrorView::Process {
                error: error@,
                is_human: false,
            })
            &&& error.exit matches Some(ProcessExit::ExitStatus(status))
                ==> action->Finish_0->Err_0->Error_exit_code == exit_code_of(status)
            &&& !(error.exit matches Some(ProcessExit::ExitStatus(_)))
                ==> action->Finish_0->Err_0->Error_exit_code == 101
        }),
{
    if let Some(ProcessExit::ExitStatus(status)) = error.exit {
        law_exit_codes_differ(status, status);
    }
}

/// What is told of an action is what it holds.
pub proof fn law_run_action_tells_what_it_holds(action: RunAction)
    ensures
        action matches RunAction::SetVerbose(verbose) ==> action@ == RunActionView::SetVerbose(
            verbose,
        ),
        action matches RunAction::FindManifest(path) ==> action@ is FindManifest && (*path is Some
            ==> action@->FindManifest_0 == Some(path->0@)) && (*path is None
            ==> action@->FindManifest_0 is None),
        action matches RunAction::Run { root, options, args } ==> action@ == (RunActionView::Run {
            root: root.repr@,
            options: options@,
            args: args@,
        }),
        action matches RunAction::Finish(Ok(value)) ==> action@ == RunActionView::Finish(Ok(value)),
        action matches RunAction::Finish(Err(failed)) ==> action@ == RunActionView::Finish(
            Err(failed@),
        ),
{
}

/// What can happen to the command: it begins, then it is told that it was set how much is told, then
/// whether the manifest was found, and then how the program ended.
pub proof fn law_what_can_happen_to_a_run(state: RunState, event: RunEvent)
    ensures
        run_can_happen(state, event) <==> {
            ||| state == RunState::Start && event is Begin
            ||| state == RunState::Setting && event is VerboseSet
            ||| state == RunState::Finding && event is Found
            ||| state == RunState::Running && event is Ran
        },
{
}

} // verus!
