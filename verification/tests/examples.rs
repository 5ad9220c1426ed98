use cargo::error::{CargoError, ProcessError, ProcessExit};
use cargo::ops::cargo_example::{Compiled, ExampleAction, ExampleEvent, ExampleState, RunPhase};
use cargo::ops::{example, CompileOptions, ExampleOptions};
use cargo::path::Path;
use cargo::process_builder::ProcessBuilder;

fn path(text: &str) -> Path {
    Path { repr: text.as_bytes().to_vec() }
}

fn options() -> ExampleOptions {
    ExampleOptions {
        compile_opts: CompileOptions {
            update: false,
            env: "test".to_string(),
            jobs: None,
            target: None,
            dev_deps: true,
        },
    }
}

fn compiled(tests: &[&str]) -> Compiled {
    Compiled {
        tests: tests.iter().map(|test| path(test)).collect(),
        env: vec![("A".to_string(), Some(b"1".to_vec()))],
        cwd: path("/p"),
    }
}

fn command(program: &str) -> ProcessBuilder {
    ProcessBuilder {
        program: program.as_bytes().to_vec(),
        args: vec![b"--nocapture".to_vec()],
        env: vec![("A".to_string(), Some(b"1".to_vec()))],
        cwd: path("/p"),
    }
}

fn error(text: &str) -> CargoError {
    CargoError::Message { description: text.to_string(), is_human: true, cause: None }
}

fn failed() -> ProcessError {
    ProcessError {
        msg: "failed".to_string(),
        exit: Some(ProcessExit::ExitStatus(1)),
        output: None,
    }
}

#[test]
fn programs_are_run_in_the_order_of_their_paths() {
    let manifest = path("/p/Cargo.toml");
    let options = options();
    let args = vec!["--nocapture".to_string()];
    let (state, action) =
        example(&manifest, &options, &args, ExampleState::Start, ExampleEvent::Begin);
    assert_eq!(action, ExampleAction::Open(path("/p")));
    let (state, action) = example(&manifest, &options, &args, state, ExampleEvent::Opened(Ok(())));
    assert_eq!(action, ExampleAction::Update);
    let (state, action) = example(&manifest, &options, &args, state, ExampleEvent::Updated(Ok(())));
    assert_eq!(action, ExampleAction::Read);
    let (state, action) = example(&manifest, &options, &args, state, ExampleEvent::Read(Ok(())));
    assert_eq!(
        action,
        ExampleAction::Build { manifest_path: &manifest, options: &options.compile_opts }
    );
    let built = compiled(&["/p/target/b", "/p/target/a"]);
    let (state, action) =
        example(&manifest, &options, &args, state, ExampleEvent::Built(Ok(built)));
    assert_eq!(action, ExampleAction::Locate);
    let (mut state, mut action) =
        example(&manifest, &options, &args, state, ExampleEvent::Located(path("/p")));
    for name in ["a", "b"] {
        let program = format!("/p/target/{}", name);
        assert_eq!(action, ExampleAction::Announce(path(&format!("target/{}", name))));
        let next = example(&manifest, &options, &args, state, ExampleEvent::Announced(Ok(())));
        assert_eq!(next.1, ExampleAction::Detail(command(&program)));
        let next = example(&manifest, &options, &args, next.0, ExampleEvent::Announced(Ok(())));
        assert_eq!(next.1, ExampleAction::Run(command(&program)));
        let next = example(&manifest, &options, &args, next.0, ExampleEvent::Ran(Ok(())));
        state = next.0;
        action = next.1;
    }
    assert_eq!(state, ExampleState::Done);
    assert_eq!(action, ExampleAction::Finish(Ok(None)));
}

#[test]
fn the_first_failed_program_ends_the_run() {
    let manifest = path("Cargo.toml");
    let options = options();
    let state = ExampleState::Running {
        compiled: compiled(&["/p/a", "/p/b"]),
        current: path("/p"),
        at: 0,
        phase: RunPhase::Running,
    };
    let (state, action) =
        example(&manifest, &options, &Vec::new(), state, ExampleEvent::Ran(Err(failed())));
    assert_eq!(state, ExampleState::Done);
    assert_eq!(action, ExampleAction::Finish(Ok(Some(failed()))));
}

#[test]
fn nothing_to_run_ends_well() {
    let manifest = path("Cargo.toml");
    let options = options();
    let state = ExampleState::Locating { compiled: compiled(&[]) };
    let (state, action) =
        example(&manifest, &options, &Vec::new(), state, ExampleEvent::Located(path("/p")));
    assert_eq!(state, ExampleState::Done);
    assert_eq!(action, ExampleAction::Finish(Ok(None)));
}

#[test]
fn a_program_that_is_not_seen_from_here_is_shown_in_full() {
    let manifest = path("Cargo.toml");
    let options = options();
    let state = ExampleState::Locating { compiled: compiled(&["bin/a"]) };
    let (_, action) =
        example(&manifest, &options, &Vec::new(), state, ExampleEvent::Located(path("/p")));
    assert_eq!(action, ExampleAction::Announce(path("bin/a")));
}

#[test]
fn other_failures_end_the_run_with_their_error() {
    let manifest = path("Cargo.toml");
    let options = options();
    let running = ExampleState::Running {
        compiled: compiled(&["/p/a"]),
        current: path("/p"),
        at: 0,
        phase: RunPhase::Announcing,
    };
    let cases = vec![
        (ExampleState::Opening, ExampleEvent::Opened(Err(error("e")))),
        (ExampleState::Updating, ExampleEvent::Updated(Err(error("e")))),
        (ExampleState::Reading, ExampleEvent::Read(Err(error("e")))),
        (ExampleState::Compiling, ExampleEvent::Built(Err(error("e")))),
        (running, ExampleEvent::Announced(Err(error("e")))),
    ];
    for (state, event) in cases {
        let (state, action) = example(&manifest, &options, &Vec::new(), state, event);
        assert_eq!(state, ExampleState::Done);
        assert_eq!(action, ExampleAction::Finish(Err(error("e"))));
    }
}
