use cargo::cli::exit::{to_exit_code, CliError};
use cargo::cli::run;
use cargo::cli::run::{RunAction, RunEvent, RunState};
use cargo::cli::test::{TestAction, TestEvent, TestOptions, TestState};
use cargo::error::{CargoError, ProcessError, ProcessExit};
use cargo::ops::CompileOptions;
use cargo::path::Path;

fn path(text: &str) -> Path {
    Path { repr: text.as_bytes().to_vec() }
}

fn run_options(release: bool) -> run::Options {
    run::Options {
        flag_jobs: Some(4),
        flag_release: release,
        flag_target: Some("arm".to_string()),
        flag_update_remotes: true,
        flag_manifest_path: Some("x/Cargo.toml".to_string()),
        flag_verbose: true,
        arg_args: vec!["--fast".to_string()],
    }
}

fn test_options() -> cargo::cli::test::Options {
    cargo::cli::test::Options {
        flag_no_run: true,
        flag_jobs: None,
        flag_target: None,
        flag_update_remotes: false,
        flag_manifest_path: None,
        flag_verbose: false,
        arg_args: vec!["filter".to_string()],
    }
}

fn failed(exit: Option<ProcessExit>) -> ProcessError {
    ProcessError { msg: "process failed".to_string(), exit, output: None }
}

fn error(text: &str) -> CargoError {
    CargoError::Message { description: text.to_string(), is_human: true, cause: None }
}

#[test]
fn run_sets_verbosity_before_it_looks_for_the_manifest() {
    let options = run_options(false);
    let (state, action) = run::execute(&options, RunState::Start, RunEvent::Begin);
    assert_eq!(state, RunState::Setting);
    assert_eq!(action, RunAction::SetVerbose(true));
    let (state, action) = run::execute(&options, state, RunEvent::VerboseSet);
    assert_eq!(state, RunState::Finding);
    assert_eq!(action, RunAction::FindManifest(&Some("x/Cargo.toml".to_string())));
}

#[test]
fn run_builds_for_compile_or_release() {
    for (release, env) in [(false, "compile"), (true, "release")] {
        let options = run_options(release);
        let (state, action) =
            run::execute(&options, RunState::Finding, RunEvent::Found(Ok(path("/x/Cargo.toml"))));
        assert_eq!(state, RunState::Running);
        assert_eq!(
            action,
            RunAction::Run {
                root: path("/x/Cargo.toml"),
                options: CompileOptions {
                    update: true,
                    env: env.to_string(),
                    jobs: Some(4),
                    target: Some("arm".to_string()),
                    dev_deps: true,
                },
                args: &vec!["--fast".to_string()],
            }
        );
    }
}

#[test]
fn run_ends_with_the_error_of_the_search() {
    let options = run_options(false);
    let missing = CliError::new("no manifest", 102);
    let (state, action) = run::execute(&options, RunState::Finding, RunEvent::Found(Err(missing)));
    assert_eq!(state, RunState::Done);
    assert_eq!(action, RunAction::Finish(Err(CliError::new("no manifest", 102))));
}

#[test]
fn run_ends_well_when_the_program_does() {
    let options = run_options(false);
    let (state, action) = run::execute(&options, RunState::Running, RunEvent::Ran(Ok(None)));
    assert_eq!(state, RunState::Done);
    assert_eq!(action, RunAction::Finish(Ok(None)));
}

#[test]
fn run_passes_on_the_status_of_the_program() {
    let options = run_options(false);
    let exit = Some(ProcessExit::ExitStatus(3));
    let (_, action) =
        run::execute(&options, RunState::Running, RunEvent::Ran(Ok(Some(failed(exit)))));
    let unmarked = CargoError::Process { error: failed(exit), is_human: false };
    assert_eq!(action, RunAction::Finish(Err(CliError::from_boxed(unmarked, 3))));
}

#[test]
fn run_fails_by_itself_when_the_program_has_no_status() {
    let options = run_options(false);
    for exit in [None, Some(ProcessExit::ExitSignal(9))] {
        let (_, action) =
            run::execute(&options, RunState::Running, RunEvent::Ran(Ok(Some(failed(exit)))));
        let unmarked = CargoError::Process { error: failed(exit), is_human: false };
        assert_eq!(action, RunAction::Finish(Err(CliError::from_boxed(unmarked, 101))));
    }
}

#[test]
fn run_fails_when_the_build_does() {
    let options = run_options(false);
    let (_, action) =
        run::execute(&options, RunState::Running, RunEvent::Ran(Err(error("broken"))));
    assert_eq!(action, RunAction::Finish(Err(CliError::from_boxed(error("broken"), 101))));
}

#[test]
fn test_looks_for_the_manifest_before_it_sets_verbosity() {
    let options = test_options();
    let (state, action) = cargo::cli::test::execute(&options, TestState::Start, TestEvent::Begin);
    assert_eq!(action, TestAction::FindManifest(&None));
    let (state, action) = cargo::cli::test::execute(&options, state, TestEvent::Found(Ok(path("/m"))));
    assert_eq!(action, TestAction::SetVerbose(false));
    let (state, action) = cargo::cli::test::execute(&options, state, TestEvent::VerboseSet);
    assert_eq!(state, TestState::Running);
    assert_eq!(
        action,
        TestAction::RunTests {
            root: path("/m"),
            options: TestOptions {
                no_run: true,
                compile_opts: CompileOptions {
                    update: false,
                    env: "test".to_string(),
                    jobs: None,
                    target: None,
                    dev_deps: true,
                },
            },
            args: &vec!["filter".to_string()],
        }
    );
}

#[test]
fn test_without_a_manifest_sets_nothing() {
    let options = test_options();
    let missing = CliError::new("no manifest", 102);
    let (state, action) =
        cargo::cli::test::execute(&options, TestState::Finding, TestEvent::Found(Err(missing)));
    assert_eq!(state, TestState::Done);
    assert_eq!(action, TestAction::Finish(Err(CliError::new("no manifest", 102))));
}

#[test]
fn test_passes_on_the_status_without_a_message() {
    let options = test_options();
    let exit = Some(ProcessExit::ExitStatus(101));
    let (_, action) =
        cargo::cli::test::execute(&options, TestState::Running, TestEvent::Ran(Ok(Some(failed(exit)))));
    assert_eq!(action, TestAction::Finish(Err(CliError::new("", 101))));
}

#[test]
fn test_shows_a_failure_without_a_status() {
    let options = test_options();
    for exit in [None, Some(ProcessExit::ExitSignal(11))] {
        let (_, action) =
            cargo::cli::test::execute(&options, TestState::Running, TestEvent::Ran(Ok(Some(failed(exit)))));
        let marked = CargoError::Process { error: failed(exit), is_human: true };
        assert_eq!(action, TestAction::Finish(Err(CliError::from_boxed(marked, 101))));
    }
}

#[test]
fn test_ends_well_or_with_the_error_of_the_build() {
    let options = test_options();
    let (_, action) = cargo::cli::test::execute(&options, TestState::Running, TestEvent::Ran(Ok(None)));
    assert_eq!(action, TestAction::Finish(Ok(None)));
    let (_, action) =
        cargo::cli::test::execute(&options, TestState::Running, TestEvent::Ran(Err(error("broken"))));
    assert_eq!(action, TestAction::Finish(Err(CliError::from_boxed(error("broken"), 101))));
}

#[test]
fn exit_codes_of_statuses() {
    assert_eq!(to_exit_code(0), 0);
    assert_eq!(to_exit_code(42), 42);
    assert_eq!(to_exit_code(isize::MAX), isize::MAX as usize);
    assert_eq!(to_exit_code(-1), usize::MAX);
    assert_eq!(to_exit_code(isize::MIN), isize::MIN as usize);
}
