use cargo::error::{CargoError, ProcessError};
use cargo::ops::cargo_rustc::job::{step_job, JobAction, JobEvent, JobState, Phase};
use cargo::ops::cargo_rustc::work::{CustomBuild, Prepare, ToolRun, Work};
use cargo::path::Path;
use cargo::process_builder::ProcessBuilder;

const BEGINNING: JobState = JobState { at: 0, phase: Phase::Start };

fn path(text: &str) -> Path {
    Path { repr: text.as_bytes().to_vec() }
}

fn command(program: &str) -> ProcessBuilder {
    ProcessBuilder {
        program: program.as_bytes().to_vec(),
        args: Vec::new(),
        env: Vec::new(),
        cwd: path("/"),
    }
}

fn custom(first: bool) -> Work {
    Work::Custom(CustomBuild {
        first,
        output: path("/out"),
        old_output: path("/old"),
        command: command("make"),
        package: "p v1".to_string(),
    })
}

fn tool(primary: bool) -> ToolRun {
    ToolRun { command: command("tool"), primary, name: "p".to_string() }
}

fn failed(output: Option<&str>) -> ProcessError {
    ProcessError {
        msg: "it failed".to_string(),
        exit: None,
        output: output.map(|text| text.to_string()),
    }
}

fn caused(description: &str, error: ProcessError) -> CargoError {
    CargoError::Message {
        description: description.to_string(),
        is_human: true,
        cause: Some(Box::new(CargoError::Process { error, is_human: false })),
    }
}

fn error_of(action: JobAction) -> CargoError {
    match action {
        JobAction::Finish(Err(error)) => error,
        _ => panic!(),
    }
}

/// How a run of the given work ends when its process fails.
fn failure(work: Work, error: ProcessError) -> CargoError {
    let works = vec![work];
    let (state, _) = step_job(&works, BEGINNING, JobEvent::Begin);
    let (state, action) = step_job(&works, state, JobEvent::Ran(Err(error)));
    assert_eq!(state.phase, Phase::Done);
    error_of(action)
}

#[test]
fn earlier_results_are_brought_back() {
    let works = vec![custom(true)];
    let (state, action) = step_job(&works, BEGINNING, JobEvent::Begin);
    assert!(matches!(action, JobAction::LookFor(found) if *found == path("/old")));
    let (state, action) = step_job(&works, state, JobEvent::Looked(true));
    assert!(matches!(
        action,
        JobAction::Rename { from, to } if *from == path("/old") && *to == path("/out")
    ));
    let (state, action) = step_job(&works, state, JobEvent::Made(Ok(())));
    assert!(matches!(action, JobAction::ExecWithOutput(run) if *run == command("make")));
    let (state, action) = step_job(&works, state, JobEvent::Ran(Ok(())));
    assert!(matches!(action, JobAction::Finish(Ok(()))));
    assert_eq!(state, JobState { at: 1, phase: Phase::Done });
}

#[test]
fn a_directory_is_made_where_there_are_no_earlier_results() {
    let works = vec![custom(true)];
    let (state, _) = step_job(&works, BEGINNING, JobEvent::Begin);
    let (_, action) = step_job(&works, state, JobEvent::Looked(false));
    assert!(matches!(action, JobAction::MakeDir(dir) if *dir == path("/out")));
}

#[test]
fn only_the_first_build_command_needs_a_directory() {
    let works = vec![custom(false)];
    let (_, action) = step_job(&works, BEGINNING, JobEvent::Begin);
    assert!(matches!(action, JobAction::ExecWithOutput(_)));
}

#[test]
fn a_missing_directory_ends_a_job() {
    let works = vec![custom(true)];
    let state = JobState { at: 0, phase: Phase::Making };
    let io = CargoError::Message { description: "denied".to_string(), is_human: false, cause: None };
    let (_, action) = step_job(&works, state, JobEvent::Made(Err(io.clone())));
    assert_eq!(
        error_of(action),
        CargoError::Message {
            description: "failed to create output directory for build command".to_string(),
            is_human: false,
            cause: Some(Box::new(io)),
        }
    );
}

#[test]
fn a_failed_build_command_names_its_package() {
    assert_eq!(
        failure(custom(false), failed(Some("text"))),
        CargoError::Process {
            error: ProcessError {
                msg: "Failed to run custom build command for `p v1`\nit failed".to_string(),
                exit: None,
                output: Some("text".to_string()),
            },
            is_human: true,
        }
    );
}

#[test]
fn what_is_written_about_dependencies_is_collected() {
    for primary in [true, false] {
        for work in [Work::Rustc(tool(primary)), Work::Rustdoc(tool(primary))] {
            let works = vec![work];
            let (_, action) = step_job(&works, BEGINNING, JobEvent::Begin);
            match action {
                JobAction::Exec(run) => assert!(primary && *run == command("tool")),
                JobAction::ExecWithOutput(run) => assert!(!primary && *run == command("tool")),
                _ => panic!(),
            }
        }
    }
}

#[test]
fn a_failed_compilation_is_reported() {
    assert_eq!(
        failure(Work::Rustc(tool(true)), failed(None)),
        caused("Could not compile `p`.", failed(None))
    );
    assert_eq!(
        failure(Work::Rustc(tool(false)), failed(Some("oops"))),
        caused("Could not compile `p`.\noops", failed(Some("oops")))
    );
}

#[test]
fn a_failed_documentation_is_reported() {
    assert_eq!(
        failure(Work::Rustdoc(tool(true)), failed(None)),
        caused("Could not document `p`.", failed(None))
    );
    assert_eq!(
        failure(Work::Rustdoc(tool(false)), failed(Some("oops"))),
        caused("Could not document `p`.\noops", failed(Some("oops")))
    );
    assert_eq!(
        failure(Work::Rustdoc(tool(false)), failed(None)),
        caused("Failed to run rustdoc", failed(None))
    );
}

#[test]
fn a_fingerprint_is_recorded_after_the_work() {
    let prepare = Prepare::BuildCmd { pkg: 3 };
    let works = vec![custom(false), Work::Rustc(tool(true)), Work::Fingerprint(prepare)];
    let (state, _) = step_job(&works, BEGINNING, JobEvent::Begin);
    let (state, action) = step_job(&works, state, JobEvent::Ran(Ok(())));
    assert!(matches!(action, JobAction::Exec(_)));
    let (state, action) = step_job(&works, state, JobEvent::Ran(Ok(())));
    assert!(matches!(action, JobAction::Record(recorded) if recorded == prepare));
    let (state, action) = step_job(&works, state, JobEvent::Recorded(Ok(())));
    assert!(matches!(action, JobAction::Finish(Ok(()))));
    assert_eq!(state.at, 3);
}

#[test]
fn a_fingerprint_that_cannot_be_recorded_ends_a_job() {
    let works = vec![Work::Fingerprint(Prepare::BuildCmd { pkg: 0 })];
    let (state, _) = step_job(&works, BEGINNING, JobEvent::Begin);
    let io = CargoError::Message { description: "full".to_string(), is_human: false, cause: None };
    let (state, action) = step_job(&works, state, JobEvent::Recorded(Err(io.clone())));
    assert_eq!(state.phase, Phase::Done);
    assert_eq!(error_of(action), io);
}

#[test]
fn a_job_without_work_ends_at_once() {
    let works = Vec::new();
    let (state, action) = step_job(&works, BEGINNING, JobEvent::Begin);
    assert!(matches!(action, JobAction::Finish(Ok(()))));
    assert_eq!(state.phase, Phase::Done);
}
