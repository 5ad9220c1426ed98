//! Running the tests of a package.

use crate::cli::exit::{
    exit_code_of, law_exit_codes_differ, to_exit_code, CliError, CliErrorView, FAILURE,
};
use crate::cli::run::copy_text;
use crate::error::{CargoError, ErrorView, ProcessError, ProcessErrorView, ProcessExit};
use crate::ops::options::{CompileOptions, OptionsView};
use crate::path::Path;
use crate::text::opt_view;
use vstd::prelude::*;

verus! {

/// What the user asks for.
#[derive(Debug, PartialEq, Eq)]
pub struct Options {
    /// Whether the tests are built but not run.
    pub flag_no_run: bool,
    /// How many jobs run at the same time.
    pub flag_jobs: Option<usize>,
    /// The platform to build for.
    pub flag_target: Option<String>,
    /// Whether what is known of remote packages is brought up to date first.
    pub flag_update_remotes: bool,
    /// The manifest of the package.
    pub flag_manifest_path: Option<String>,
    /// Whether to tell everything that is done.
    pub flag_verbose: bool,
    /// What the tests get as their arguments.
    pub arg_args: Vec<String>,
}

/// What a run of tests is asked to do.
#[derive(Debug, PartialEq, Eq)]
pub struct TestOptions {
    /// Whether the tests are built but not run.
    pub no_run: bool,
    pub compile_opts: CompileOptions,
}

/// How far the command has come.
#[derive(Debug, PartialEq, Eq)]
pub enum TestState {
    Start,
    /// The manifest is being looked for.
    Finding,
    /// It is being set how much is told; the manifest was found.
    Setting { root: Path },
    /// The tests are being built and run.
    Running,
    Done,
}

/// What a `TestState` is.
pub enum TestStateView {
    Start,
    Finding,
    Setting { root: Seq<u8> },
    Running,
    Done,
}

impl View for TestState {
    type V = TestStateView;

    open spec fn view(&self) -> TestStateView {
        match self {
            TestState::Start => TestStateView::Start,
            TestState::Finding => TestStateView::Finding,
            TestState::Setting { root } => TestStateView::Setting { root: root@ },
            TestState::Running => TestStateView::Running,
            TestState::Done => TestStateView::Done,
        }
    }
}

/// What has happened to the command.
pub enum TestEvent {
    Begin,
    /// The manifest was looked for.
    Found(Result<Path, CliError>),
    /// It was set how much is told.
    VerboseSet,
    /// The tests were built and run; one may have failed.
    Ran(Result<Option<ProcessError>, CargoError>),
}

/// What is to be done for the command.
#[derive(Debug, PartialEq, Eq)]
pub enum TestAction<'a> {
    /// Look for the manifest, at the given place if there is one.
    FindManifest(&'a Option<String>),
    /// Set whether everything is told that is done.
    SetVerbose(bool),
    /// Build and run the tests.
    RunTests { root: Path, options: TestOptions, args: &'a Vec<String> },
    /// Nothing more: this is how it ended.
    Finish(Result<Option<()>, CliError>),
}

/// What a `TestAction` is.
pub enum TestActionView {
    FindManifest(Option<Seq<char>>),
    SetVerbose(bool),
    RunTests { root: Seq<u8>, no_run: bool, options: OptionsView, args: Seq<String> },
    Finish(Result<Option<()>, CliErrorView>),
}

impl<'a> View for TestAction<'a> {
    type V = TestActionView;

    open spec fn view(&self) -> TestActionView {
        match self {
            TestAction::FindManifest(path) => TestActionView::FindManifest(opt_view(**path)),
            TestAction::SetVerbose(verbose) => TestActionView::SetVerbose(*verbose),
            TestAction::RunTests { root, options, args } => TestActionView::RunTests {
                root: root@,
                no_run: options.no_run,
                options: options.compile_opts@,
                args: args@,
            },
            TestAction::Finish(Ok(value)) => TestActionView::Finish(Ok(*value)),
            TestAction::Finish(Err(failed)) => TestActionView::Finish(Err(failed@)),
        }
    }
}

/// What the build is asked to do.
pub open spec fn test_options(options: Options) -> OptionsView {
    OptionsView {
        update: options.flag_update_remotes,
        env: "test"@,
        jobs: options.flag_jobs,
        target: opt_view(options.flag_target),
        dev_deps: true,
    }
}

/// How the command ends when a test failed: with the status of the test and without a message, since
/// the test has told the user, or else with an error for the user.
pub open spec fn test_failure(error: ProcessErrorView) -> CliErrorView {
    match error.exit {
        Some(ProcessExit::ExitStatus(status)) => CliErrorView::Message {
            message: Seq::empty(),
            exit_code: exit_code_of(status) as usize,
        },
        _ => CliErrorView::Error {
            error: ErrorView::Process { error, is_human: true },
            exit_code: FAILURE,
        },
    }
}

/// What comes of an event: how far the command has come then, and what is to be done next.
pub open spec fn test_step(options: Options, state: TestStateView, event: TestEvent) -> (
    TestStateView,
    TestActionView,
) {
    match event {
        TestEvent::Begin => (
            TestStateView::Finding,
            TestActionView::FindManifest(opt_view(options.flag_manifest_path)),
        ),
        TestEvent::Found(Ok(root)) => (
            TestStateView::Setting { root: root@ },
            TestActionView::SetVerbose(options.flag_verbose),
        ),
        TestEvent::Found(Err(failed)) => (TestStateView::Done, TestActionView::Finish(Err(failed@))),
        TestEvent::VerboseSet => (
            TestStateView::Running,
            TestActionView::RunTests {
                root: state->root,
                no_run: options.flag_no_run,
                options: test_options(options),
                args: options.arg_args@,
            },
        ),
        TestEvent::Ran(Ok(None)) => (TestStateView::Done, TestActionView::Finish(Ok(None))),
        TestEvent::Ran(Ok(Some(error))) => (
            TestStateView::Done,
            TestActionView::Finish(Err(test_failure(error@))),
        ),
        TestEvent::Ran(Err(error)) => (
            TestStateView::Done,
            TestActionView::Finish(
                Err(CliErrorView::Error { error: error@, exit_code: FAILURE }),
            ),
        ),
    }
}

/// Whether an event can happen to the command when it has come so far.
pub open spec fn test_can_happen(state: TestStateView, event: TestEvent) -> bool {
    match (state, event) {
        (TestStateView::Start, TestEvent::Begin) => true,
        (TestStateView::Finding, TestEvent::Found(_)) => true,
        (TestStateView::Setting { root }, TestEvent::VerboseSet) => true,
        (TestStateView::Running, TestEvent::Ran(_)) => true,
        _ => false,
    }
}

/// Takes the command one step further: from how far it has come and what has happened to how far it
/// has come then and what is to be done next.
pub fn execute<'a>(options: &'a Options, state: TestState, event: TestEvent) -> (next: (
    TestState,
    TestAction<'a>,
))
    requires
        test_can_happen(state@, event),
    ensures
        (next.0@, next.1@) == test_step(*options, state@, event),
{
    match event {
        TestEvent::Begin => (
            TestState::Finding,
            TestAction::FindManifest(&options.flag_manifest_path),
        ),
        TestEvent::Found(Ok(root)) => (
            TestState::Setting { root },
            TestAction::SetVerbose(options.flag_verbose),
        ),
        TestEvent::Found(Err(failed)) => (TestState::Done, TestAction::Finish(Err(failed))),
        TestEvent::VerboseSet => match state {
            TestState::Setting { root } => {
                let compile_opts = CompileOptions {
                    update: options.flag_update_remotes,
                    env: "test".to_owned(),
                    jobs: options.flag_jobs,
                    target: copy_text(&options.flag_target),
                    dev_deps: true,
                };
                let ops = TestOptions { no_run: options.flag_no_run, compile_opts };
                (
                    TestState::Running,
                    TestAction::RunTests { root, options: ops, args: &options.arg_args },
                )
            },
            _ => vstd::pervasive::unreached(),
        },
        TestEvent::Ran(Ok(None)) => (TestState::Done, TestAction::Finish(Ok(None))),
        TestEvent::Ran(Ok(Some(error))) => {
            let failed = match error.exit {
                Some(ProcessExit::ExitStatus(status)) => CliError::new("", to_exit_code(status)),
                _ => CliError::from_boxed(error.mark_human(), FAILURE),
            };
            proof {
                reveal_strlit("");
                assert(""@ =~= Seq::empty());
            }
            (TestState::Done, TestAction::Finish(Err(failed)))
        },
        TestEvent::Ran(Err(error)) => (
            TestState::Done,
            TestAction::Finish(Err(CliError::from_boxed(error, FAILURE))),
        ),
    }
}

/// The tests are run only once the manifest was found, and with the arguments that the user gave; the
/// command ends well only if no test failed.
pub proof fn law_test_follows_the_tests(options: Options, state: TestStateView, event: TestEvent)
    requires
        test_can_happen(state, event),
    ensures
        test_step(options, state, event).1 matches TestActionView::RunTests {
            root,
            no_run: _,
            options: _,
            args,
        } ==> state == (TestStateView::Setting { root }) && args == options.arg_args@,
        test_step(options, state, event).0 matches TestStateView::Setting { root } ==> (event
            matches TestEvent::Found(Ok(found)) && found@ == root),
        test_step(options, state, event).1 matches TestActionView::Finish(Ok(_)) <==> event
            matches TestEvent::Ran(Ok(None)),
{
}

/// The command first looks for the manifest where the user says, then sets how much is told, as the
/// user says, and then builds the tests that belong to it; they are run unless the user says that they
/// are not.
pub proof fn law_test_in_order(options: Options, state: TestStateView, root: Path)
    ensures
        test_step(options, state, TestEvent::Begin) == (
            TestStateView::Finding,
            TestActionView::FindManifest(opt_view(options.flag_manifest_path)),
        ),
        test_step(options, state, TestEvent::Found(Ok(root))) == (
            TestStateView::Setting { root: root@ },
            TestActionView::SetVerbose(options.flag_verbose),
        ),
        ({
            let setting = TestStateView::Setting { root: root@ };
            let (next, action) = test_step(options, setting, TestEvent::VerboseSet);
            &&& next == TestStateView::Running
            &&& action is RunTests
            &&& action->RunTests_root == root@
        }),
{
}

/// Whenever the tests are to be run, all that was asked for is what the user gave: whether they are
/// only built, whether what is known of remote packages is brought up to date, how many jobs run at
/// the same time, the platform, and the arguments. They are built as tests, with the dependencies
/// that only development needs.
pub proof fn law_tests_are_run_as_asked(options: Options, state: TestStateView, event: TestEvent)
    requires
        test_step(options, state, event).1 is RunTests,
    ensures
        ({
            let action = test_step(options, state, event).1;
            &&& action->no_run == options.flag_no_run
            &&& action->options.update == options.flag_update_remotes
            &&& action->options.jobs == options.flag_jobs
            &&& action->options.target == opt_view(options.flag_target)
            &&& action->options.env == "test"@
            &&& action->options.dev_deps
            &&& action->args == options.arg_args@
        }),
{
}

/// The command ends as the tests did: well if none failed; if one failed with a status of its own,
/// with that status and without a message; if it failed otherwise, with an error for the user and the
/// code of a command that failed by itself. An error before the tests ends it with that error.
pub proof fn law_test_ends_as_the_tests(
    options: Options,
    state: TestStateView,
    error: ProcessError,
    failed: CargoError,
    missing: CliError,
)
    ensures
        test_step(options, state, TestEvent::Ran(Ok(None))) == (
            TestStateView::Done,
            TestActionView::Finish(Ok(None)),
        ),
        test_step(options, state, TestEvent::Found(Err(missing))) == (
            TestStateView::Done,
            TestActionView::Finish(Err(missing@)),
        ),
        test_step(options, state, TestEvent::Ran(Err(failed))) == (
            TestStateView::Done,
            TestActionView::Finish(Err(CliErrorView::Error { error: failed@, exit_code: 101 })),
        ),
        ({
            let (next, action) = test_step(options, state, TestEvent::Ran(Ok(Some(error))));
            &&& next == TestStateView::Done
            &&& action is Finish
            &&& action->Finish_0 is Err
            &&& error.exit matches Some(ProcessExit::ExitStatus(status)) ==> {
                &&& action->Finish_0->Err_0 is Message
                &&& action->Finish_0->Err_0->message.len() == 0
                &&& action->Finish_0->Err_0->Message_exit_code == exit_code_of(status)
            }
            &&& !(error.exit matches Some(ProcessExit::ExitStatus(_))) ==> action->Finish_0->Err_0
                == (CliErrorView::Error {
                error: ErrorView::Process { error: error@, is_human: true },
                exit_code: 101,
            })
        }),
{
    if let Some(ProcessExit::ExitStatus(status)) = error.exit {
        law_exit_codes_differ(status, status);
    }
}

/// What is told of an action is what it holds.
pub proof fn law_test_action_tells_what_it_holds(action: TestAction)
    ensures
        action matches TestAction::SetVerbose(verbose) ==> action@ == TestActionView::SetVerbose(
            verbose,
        ),
        action matches TestAction::FindManifest(path) ==> action@ is FindManifest && (*path is Some
            ==> action@->FindManifest_0 == Some(path->0@)) && (*path is None
            ==> action@->FindManifest_0 is None),
        action matches TestAction::RunTests { root, options, args } ==> action@ == (
        TestActionView::RunTests {
            root: root.repr@,
            no_run: options.no_run,
            options: options.compile_opts@,
            args: args@,
        }),
        action matches TestAction::Finish(Ok(value)) ==> action@ == TestActionView::Finish(
            Ok(value),
        ),
        action matches TestAction::Finish(Err(failed)) ==> action@ == TestActionView::Finish(
            Err(failed@),
        ),
{
}

/// What can happen to the command: it begins, then it is told whether the manifest was found, then
/// that it was set how much is told, and then how the tests ended.
pub proof fn law_what_can_happen_to_tests(state: TestState, event: TestEvent)
    ensures
        test_can_happen(state@, event) <==> {
            ||| state is Start && event is Begin
            ||| state is Finding && event is Found
            ||| state is Setting && event is VerboseSet
            ||| state is Running && event is Ran
        },
        state matches TestState::Setting { root } ==> state@ == (TestStateView::Setting {
            root: root.repr@,
        }),
{
}

} // verus!
