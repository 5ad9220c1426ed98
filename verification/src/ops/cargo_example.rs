//! Running the programs of a build one after the other.

use crate::error::{CargoError, ErrorView, ProcessError, ProcessErrorView};
use crate::ops::cargo_rustc::args::encoded;
use crate::ops::options::{CompileOptions, OptionsView};
use crate::order::{law_ordered, ordered, sort, sorted};
use crate::path::{directory, Path};
use crate::process_builder::{copy_bytes, copy_env, env_map, Command, ProcessBuilder};
use crate::relative::relative;
use crate::text::{opt_view, utf8, views};
use vstd::prelude::*;

verus! {

/// What a run of examples is asked to do.
#[derive(Debug, PartialEq, Eq)]
pub struct ExampleOptions {
    pub compile_opts: CompileOptions,
}

/// What a build led to, as far as it can be run.
#[derive(Debug, PartialEq, Eq)]
pub struct Compiled {
    /// The programs.
    pub tests: Vec<Path>,
    /// The environment that they run in.
    pub env: Vec<(String, Option<Vec<u8>>)>,
    /// The directory that they run in.
    pub cwd: Path,
}

/// What a run of examples is waiting for while the programs are run.
#[derive(Debug, Clone, Copy, PartialEq, Eq, Structural)]
pub enum RunPhase {
    /// For the short announcement of a program.
    Announcing,
    /// For the long announcement of a program.
    Detailing,
    /// For a program.
    Running,
}

/// How far a run of examples has come.
#[derive(Debug, PartialEq, Eq)]
pub enum ExampleState {
    Start,
    /// The package is being looked for.
    Opening,
    /// What is known of the package is being brought up to date.
    Updating,
    /// The package is being read.
    Reading,
    /// The package is being built.
    Compiling,
    /// The current directory is being looked up.
    Locating { compiled: Compiled },
    /// The programs are being run, in this order; the one at `at` is being dealt with.
    Running { compiled: Compiled, current: Path, at: usize, phase: RunPhase },
    Done,
}

/// What a `Compiled` is.
pub struct CompiledView {
    pub tests: Seq<Seq<u8>>,
    pub env: Map<Seq<char>, Option<Seq<u8>>>,
    pub cwd: Seq<u8>,
}

impl View for Compiled {
    type V = CompiledView;

    open spec fn view(&self) -> CompiledView {
        CompiledView { tests: views(self.tests@), env: env_map(self.env@), cwd: self.cwd@ }
    }
}

/// What an `ExampleState` is.
pub enum ExampleStateView {
    Start,
    Opening,
    Updating,
    Reading,
    Compiling,
    Locating { compiled: CompiledView },
    Running { compiled: CompiledView, current: Seq<u8>, at: int, phase: RunPhase },
    Done,
}

impl View for ExampleState {
    type V = ExampleStateView;

    open spec fn view(&self) -> ExampleStateView {
        match self {
            ExampleState::Start => ExampleStateView::Start,
            ExampleState::Opening => ExampleStateView::Opening,
            ExampleState::Updating => ExampleStateView::Updating,
            ExampleState::Reading => ExampleStateView::Reading,
            ExampleState::Compiling => ExampleStateView::Compiling,
            ExampleState::Locating { compiled } => ExampleStateView::Locating { compiled: compiled@ },
            ExampleState::Running { compiled, current, at, phase } => ExampleStateView::Running {
                compiled: compiled@,
                current: current@,
                at: *at as int,
                phase: *phase,
            },
            ExampleState::Done => ExampleStateView::Done,
        }
    }
}

/// What has happened to a run of examples.
pub enum ExampleEvent {
    Begin,
    Opened(Result<(), CargoError>),
    Updated(Result<(), CargoError>),
    Read(Result<(), CargoError>),
    Built(Result<Compiled, CargoError>),
    /// The current directory was looked up.
    Located(Path),
    /// Something was announced to the user.
    Announced(Result<(), CargoError>),
    /// A program has ended.
    Ran(Result<(), ProcessError>),
}

/// What is to be done for a run of examples.
#[derive(Debug, PartialEq, Eq)]
pub enum ExampleAction<'a> {
    /// Look for the package in a directory.
    Open(Path),
    /// Bring what is known of the package up to date.
    Update,
    /// Read the package.
    Read,
    /// Build the package.
    Build { manifest_path: &'a Path, options: &'a CompileOptions },
    /// Look up the current directory.
    Locate,
    /// Tell the user briefly that a program is run.
    Announce(Path),
    /// Tell the user in detail that a program is run.
    Detail(ProcessBuilder),
    /// Run a program.
    Run(ProcessBuilder),
    /// Nothing more: this is how it ended. A program that failed is no error here.
    Finish(Result<Option<ProcessError>, CargoError>),
}

/// What an `ExampleAction` is.
pub enum ExampleActionView {
    Open(Seq<u8>),
    Update,
    Read,
    Build { manifest_path: Seq<u8>, options: OptionsView },
    Locate,
    Announce(Seq<u8>),
    Detail(Command),
    Run(Command),
    Finish(Result<Option<ProcessErrorView>, ErrorView>),
}

impl<'a> View for ExampleAction<'a> {
    type V = ExampleActionView;

    open spec fn view(&self) -> ExampleActionView {
        match self {
            ExampleAction::Open(dir) => ExampleActionView::Open(dir@),
            ExampleAction::Update => ExampleActionView::Update,
            ExampleAction::Read => ExampleActionView::Read,
            ExampleAction::Build { manifest_path, options } => ExampleActionView::Build {
                manifest_path: manifest_path@,
                options: options@,
            },
            ExampleAction::Locate => ExampleActionView::Locate,
            ExampleAction::Announce(path) => ExampleActionView::Announce(path@),
            ExampleAction::Detail(command) => ExampleActionView::Detail(command@),
            ExampleAction::Run(command) => ExampleActionView::Run(command@),
            ExampleAction::Finish(Ok(failed)) => ExampleActionView::Finish(Ok(opt_view(*failed))),
            ExampleAction::Finish(Err(error)) => ExampleActionView::Finish(Err(error@)),
        }
    }
}

/// The run of a program.
pub open spec fn program(compiled: CompiledView, at: int, args: Seq<String>) -> Command {
    Command {
        program: compiled.tests[at],
        args: encoded(args),
        env: compiled.env,
        cwd: compiled.cwd,
    }
}

/// How a program is shown to the user: as seen from the current directory, if that is possible.
pub open spec fn shown(path: Seq<u8>, current: Seq<u8>) -> Seq<u8> {
    match relative(path, current) {
        Some(path) => path,
        None => path,
    }
}

/// A run of examples that goes on with the program at `at`.
pub open spec fn next_program(compiled: CompiledView, current: Seq<u8>, at: int) -> (
    ExampleStateView,
    ExampleActionView,
) {
    if at >= compiled.tests.len() {
        (ExampleStateView::Done, ExampleActionView::Finish(Ok(None)))
    } else {
        (
            ExampleStateView::Running { compiled, current, at, phase: RunPhase::Announcing },
            ExampleActionView::Announce(shown(compiled.tests[at], current)),
        )
    }
}

/// A run of examples that ends with an error.
pub open spec fn example_fails(error: CargoError) -> (ExampleStateView, ExampleActionView) {
    (ExampleStateView::Done, ExampleActionView::Finish(Err(error@)))
}

/// What comes of an event: how far the run has come then, and what is to be done next.
pub open spec fn example_step(
    manifest_path: Seq<u8>,
    options: OptionsView,
    args: Seq<String>,
    state: ExampleStateView,
    event: ExampleEvent,
) -> (ExampleStateView, ExampleActionView) {
    match event {
        ExampleEvent::Begin => (
            ExampleStateView::Opening,
            ExampleActionView::Open(directory(manifest_path)),
        ),
        ExampleEvent::Opened(Ok(_)) => (ExampleStateView::Updating, ExampleActionView::Update),
        ExampleEvent::Opened(Err(error)) => example_fails(error),
        ExampleEvent::Updated(Ok(_)) => (ExampleStateView::Reading, ExampleActionView::Read),
        ExampleEvent::Updated(Err(error)) => example_fails(error),
        ExampleEvent::Read(Ok(_)) => (
            ExampleStateView::Compiling,
            ExampleActionView::Build { manifest_path, options },
        ),
        ExampleEvent::Read(Err(error)) => example_fails(error),
        ExampleEvent::Built(Ok(compiled)) => (
            ExampleStateView::Locating {
                compiled: CompiledView { tests: ordered(compiled@.tests), ..compiled@ },
            },
            ExampleActionView::Locate,
        ),
        ExampleEvent::Built(Err(error)) => example_fails(error),
        ExampleEvent::Located(current) => next_program(state->Locating_compiled, current@, 0),
        ExampleEvent::Announced(Ok(_)) => {
            let compiled = state->Running_compiled;
            let at = state->at;
            let command = program(compiled, at, args);
            let current = state->current;
            if state->phase == RunPhase::Announcing {
                (
                    ExampleStateView::Running { compiled, current, at, phase: RunPhase::Detailing },
                    ExampleActionView::Detail(command),
                )
            } else {
                (
                    ExampleStateView::Running { compiled, current, at, phase: RunPhase::Running },
                    ExampleActionView::Run(command),
                )
            }
        },
        ExampleEvent::Announced(Err(error)) => example_fails(error),
        ExampleEvent::Ran(Ok(_)) => next_program(
            state->Running_compiled,
            state->current,
            state->at + 1,
        ),
        ExampleEvent::Ran(Err(error)) => (
            ExampleStateView::Done,
            ExampleActionView::Finish(Ok(Some(error@))),
        ),
    }
}

/// Whether an event can happen to a run of examples that has come so far.
pub open spec fn example_can_happen(state: ExampleStateView, event: ExampleEvent) -> bool {
    match (state, event) {
        (ExampleStateView::Start, ExampleEvent::Begin) => true,
        (ExampleStateView::Opening, ExampleEvent::Opened(_)) => true,
        (ExampleStateView::Updating, ExampleEvent::Updated(_)) => true,
        (ExampleStateView::Reading, ExampleEvent::Read(_)) => true,
        (ExampleStateView::Compiling, ExampleEvent::Built(_)) => true,
        (ExampleStateView::Locating { compiled }, ExampleEvent::Located(_)) => true,
        (
            ExampleStateView::Running { compiled, current, at, phase },
            ExampleEvent::Announced(_),
        ) => phase != RunPhase::Running,
        (
            ExampleStateView::Running { compiled, current, at, phase },
            ExampleEvent::Ran(_),
        ) => phase == RunPhase::Running,
        _ => false,
    }
}

/// The program that is being dealt with is there.
pub open spec fn example_wf(state: ExampleStateView) -> bool {
    match state {
        ExampleStateView::Running { compiled, current, at, phase } => 0 <= at
            < compiled.tests.len(),
        _ => true,
    }
}

/// Goes on with the program at `at`.
fn go_on<'a>(compiled: Compiled, current: Path, at: usize) -> (next: (
    ExampleState,
    ExampleAction<'a>,
))
    ensures
        (next.0@, next.1@) == next_program(compiled@, current@, at as int),
        example_wf(next.0@),
{
    if at >= compiled.tests.len() {
        return (ExampleState::Done, ExampleAction::Finish(Ok(None)));
    }
    assert(compiled@.tests[at as int] == compiled.tests@[at as int]@);
    let exe = &compiled.tests[at];
    let to_display = match exe.path_relative_from(&current) {
        Some(path) => path,
        None => exe.clone(),
    };
    (
        ExampleState::Running { compiled, current, at, phase: RunPhase::Announcing },
        ExampleAction::Announce(to_display),
    )
}

/// The run of the program at `at`.
fn process(compiled: &Compiled, at: usize, args: &Vec<String>) -> (command: ProcessBuilder)
    requires
        at < compiled.tests@.len(),
    ensures
        command@ == program(compiled@, at as int, args@),
{
    assert(compiled@.tests[at as int] == compiled.tests@[at as int]@);
    let none: Vec<Vec<u8>> = Vec::new();
    assert(views(none@) =~= Seq::empty());
    let command = ProcessBuilder {
        program: copy_bytes(&compiled.tests[at].repr),
        args: none,
        env: copy_env(&compiled.env),
        cwd: compiled.cwd.clone(),
    }.args(args);
    assert(command@ =~= program(compiled@, at as int, args@));
    command
}

/// Takes a run of examples one step further: from how far it has come and what has happened to how
/// far it has come then and what is to be done next. The programs of the build are run in order,
/// with `test_args`, until one fails.
pub fn example<'a>(
    manifest_path: &'a Path,
    options: &'a ExampleOptions,
    test_args: &Vec<String>,
    state: ExampleState,
    event: ExampleEvent,
) -> (next: (ExampleState, ExampleAction<'a>))
    requires
        example_wf(state@),
        example_can_happen(state@, event),
    ensures
        (next.0@, next.1@) == example_step(
            manifest_path@,
            options.compile_opts@,
            test_args@,
            state@,
            event,
        ),
        example_wf(next.0@),
{
    match event {
        ExampleEvent::Begin => (
            ExampleState::Opening,
            ExampleAction::Open(manifest_path.dir_path()),
        ),
        ExampleEvent::Opened(Ok(_)) => (ExampleState::Updating, ExampleAction::Update),
        ExampleEvent::Opened(Err(error)) => (ExampleState::Done, ExampleAction::Finish(Err(error))),
        ExampleEvent::Updated(Ok(_)) => (ExampleState::Reading, ExampleAction::Read),
        ExampleEvent::Updated(Err(error)) => (ExampleState::Done, ExampleAction::Finish(Err(error))),
        ExampleEvent::Read(Ok(_)) => (
            ExampleState::Compiling,
            ExampleAction::Build { manifest_path, options: &options.compile_opts },
        ),
        ExampleEvent::Read(Err(error)) => (ExampleState::Done, ExampleAction::Finish(Err(error))),
        ExampleEvent::Built(Ok(compiled)) => {
            let tests = sort(compiled.tests);
            let compiled = Compiled { tests, env: compiled.env, cwd: compiled.cwd };
            (ExampleState::Locating { compiled }, ExampleAction::Locate)
        },
        ExampleEvent::Built(Err(error)) => (ExampleState::Done, ExampleAction::Finish(Err(error))),
        ExampleEvent::Located(current) => match state {
            ExampleState::Locating { compiled } => go_on(compiled, current, 0),
            _ => vstd::pervasive::unreached(),
        },
        ExampleEvent::Announced(Ok(_)) => match state {
            ExampleState::Running { compiled, current, at, phase } => {
                let command = process(&compiled, at, test_args);
                if phase == RunPhase::Announcing {
                    let phase = RunPhase::Detailing;
                    (
                        ExampleState::Running { compiled, current, at, phase },
                        ExampleAction::Detail(command),
                    )
                } else {
                    let phase = RunPhase::Running;
                    (
                        ExampleState::Running { compiled, current, at, phase },
                        ExampleAction::Run(command),
                    )
                }
            },
            _ => vstd::pervasive::unreached(),
        },
        ExampleEvent::Announced(Err(error)) => (
            ExampleState::Done,
            ExampleAction::Finish(Err(error)),
        ),
        ExampleEvent::Ran(Ok(_)) => match state {
            ExampleState::Running { compiled, current, at, phase } => {
                assert(at < compiled.tests.len());
                go_on(compiled, current, at + 1)
            },
            _ => vstd::pervasive::unreached(),
        },
        ExampleEvent::Ran(Err(error)) => (
            ExampleState::Done,
            ExampleAction::Finish(Ok(Some(error))),
        ),
    }
}

/// How far a run of examples has come after `events`, and what is to be done then.
pub open spec fn example_run(
    manifest_path: Seq<u8>,
    options: OptionsView,
    args: Seq<String>,
    events: Seq<ExampleEvent>,
) -> (ExampleStateView, Option<ExampleActionView>)
    decreases events.len(),
{
    if events.len() == 0 {
        (ExampleStateView::Start, None)
    } else {
        let before = example_run(manifest_path, options, args, events.drop_last()).0;
        let (state, action) = example_step(manifest_path, options, args, before, events.last());
        (state, Some(action))
    }
}

/// Whether `events` can happen one after the other.
pub open spec fn example_possible(
    manifest_path: Seq<u8>,
    options: OptionsView,
    args: Seq<String>,
    events: Seq<ExampleEvent>,
) -> bool
    decreases events.len(),
{
    events.len() == 0 || {
        &&& example_possible(manifest_path, options, args, events.drop_last())
        &&& example_can_happen(
            example_run(manifest_path, options, args, events.drop_last()).0,
            events.last(),
        )
    }
}

/// How many programs ended well.
pub open spec fn passed(events: Seq<ExampleEvent>) -> int
    decreases events.len(),
{
    if events.len() == 0 {
        0
    } else if events.last() matches ExampleEvent::Ran(Ok(_)) {
        passed(events.drop_last()) + 1
    } else {
        passed(events.drop_last())
    }
}

/// What was built, with its programs in order.
pub open spec fn built_in_order(events: Seq<ExampleEvent>) -> CompiledView {
    let compiled = events[4]->Built_0->Ok_0@;
    CompiledView { tests: ordered(compiled.tests), ..compiled }
}

/// The package was built.
pub open spec fn was_built(events: Seq<ExampleEvent>) -> bool {
    events.len() >= 5 && events[4] matches ExampleEvent::Built(Ok(_))
}

proof fn lemma_example_history(
    manifest_path: Seq<u8>,
    options: OptionsView,
    args: Seq<String>,
    events: Seq<ExampleEvent>,
)
    requires
        example_possible(manifest_path, options, args, events),
    ensures
        ({
            let (state, action) = example_run(manifest_path, options, args, events);
            &&& example_wf(state)
            &&& match state {
                ExampleStateView::Start => events.len() == 0,
                ExampleStateView::Opening => events.len() == 1,
                ExampleStateView::Updating => events.len() == 2,
                ExampleStateView::Reading => events.len() == 3,
                ExampleStateView::Compiling => events.len() == 4,
                ExampleStateView::Locating { compiled } => events.len() == 5 && was_built(events)
                    && compiled == built_in_order(events),
                ExampleStateView::Running { compiled, current, at, phase } => events.len() >= 6
                    && was_built(events) && compiled == built_in_order(events) && at == passed(events),
                ExampleStateView::Done => true,
            }
            &&& (events.len() <= 5 ==> passed(events) == 0)
            &&& (state is Done && action->0 == ExampleActionView::Finish(Ok(None))) ==> (was_built(
                events,
            ) && passed(events) == built_in_order(events).tests.len())
            &&& (state is Done <==> action is Some && action->0 is Finish)
            &&& (action is Some && action->0 is Run) ==> (state is Running && action->0->Run_0
                == program(built_in_order(events), passed(events), args))
        }),
    decreases events.len(),
{
    if events.len() > 0 {
        let front = events.drop_last();
        lemma_example_history(manifest_path, options, args, front);
        if front.len() >= 5 {
            assert(events[4] == front[4]);
        }
    }
}

/// Programs are run one after the other, in the order of their paths, and the next one only when all
/// before it ended well.
pub proof fn law_programs_in_order(
    manifest_path: Seq<u8>,
    options: OptionsView,
    args: Seq<String>,
    events: Seq<ExampleEvent>,
    command: Command,
)
    requires
        example_possible(manifest_path, options, args, events),
        example_run(manifest_path, options, args, events).1 == Some(
            ExampleActionView::Run(command),
        ),
    ensures
        was_built(events),
        0 <= passed(events) < built_in_order(events).tests.len(),
        command == program(built_in_order(events), passed(events), args),
        sorted(built_in_order(events).tests),
        built_in_order(events).tests.to_multiset() == events[4]->Built_0->Ok_0@.tests.to_multiset(),
{
    lemma_example_history(manifest_path, options, args, events);
    law_ordered(events[4]->Built_0->Ok_0@.tests);
}

/// A run of examples that ends without a failed program has run all of them.
pub proof fn law_all_programs_run(
    manifest_path: Seq<u8>,
    options: OptionsView,
    args: Seq<String>,
    events: Seq<ExampleEvent>,
)
    requires
        example_possible(manifest_path, options, args, events),
        example_run(manifest_path, options, args, events).1 == Some(
            ExampleActionView::Finish(Ok(None)),
        ),
    ensures
        was_built(events),
        passed(events) == built_in_order(events).tests.len(),
{
    lemma_example_history(manifest_path, options, args, events);
}

/// The first program that fails ends the run of examples and is what it ends with; any other failure
/// ends it with that error. Nothing can happen to the run after that.
pub proof fn law_failure_ends_example(
    manifest_path: Seq<u8>,
    options: OptionsView,
    args: Seq<String>,
    state: ExampleStateView,
    event: ExampleEvent,
    later: ExampleEvent,
)
    requires
        example_can_happen(state, event),
        example_failure(event) is Some,
    ensures
        example_step(manifest_path, options, args, state, event) == (
            ExampleStateView::Done,
            ExampleActionView::Finish(example_failure(event)->0),
        ),
        !example_can_happen(
            example_step(manifest_path, options, args, state, event).0,
            later,
        ),
{
}

/// How a run of examples ends because of an event.
pub open spec fn example_failure(event: ExampleEvent) -> Option<
    Result<Option<ProcessErrorView>, ErrorView>,
> {
    match event {
        ExampleEvent::Opened(Err(error)) => Some(Err(error@)),
        ExampleEvent::Updated(Err(error)) => Some(Err(error@)),
        ExampleEvent::Read(Err(error)) => Some(Err(error@)),
        ExampleEvent::Built(Err(error)) => Some(Err(error@)),
        ExampleEvent::Announced(Err(error)) => Some(Err(error@)),
        ExampleEvent::Ran(Err(error)) => Some(Ok(Some(error@))),
        _ => None,
    }
}

/// A run of examples looks for the package where the manifest lies, brings it up to date, reads it,
/// builds it as it was asked to, and then looks up the current directory, in this order.
pub proof fn law_built_as_asked(
    manifest_path: Seq<u8>,
    options: CompileOptions,
    args: Seq<String>,
    state: ExampleStateView,
    compiled: Compiled,
)
    ensures
        example_step(manifest_path, options@, args, state, ExampleEvent::Begin) == (
            ExampleStateView::Opening,
            ExampleActionView::Open(directory(manifest_path)),
        ),
        example_step(manifest_path, options@, args, state, ExampleEvent::Opened(Ok(()))) == (
            ExampleStateView::Updating,
            ExampleActionView::Update,
        ),
        example_step(manifest_path, options@, args, state, ExampleEvent::Updated(Ok(()))) == (
            ExampleStateView::Reading,
            ExampleActionView::Read,
        ),
        ({
            let (next, action) = example_step(
                manifest_path,
                options@,
                args,
                state,
                ExampleEvent::Read(Ok(())),
            );
            &&& next == ExampleStateView::Compiling
            &&& action is Build
            &&& action->manifest_path == manifest_path
            &&& action->options.update == options.update
            &&& action->options.env == options.env@
            &&& action->options.jobs == options.jobs
            &&& action->options.target == opt_view(options.target)
            &&& action->options.dev_deps == options.dev_deps
        }),
        ({
            let (next, action) = example_step(
                manifest_path,
                options@,
                args,
                state,
                ExampleEvent::Built(Ok(compiled)),
            );
            &&& next is Locating
            &&& sorted(next->Locating_compiled.tests)
            &&& next->Locating_compiled.tests.to_multiset() == views(compiled.tests@).to_multiset()
            &&& next->Locating_compiled.env == env_map(compiled.env@)
            &&& next->Locating_compiled.cwd == compiled.cwd@
            &&& action == ExampleActionView::Locate
        }),
{
    law_ordered(views(compiled.tests@));
}

/// Each program is announced twice before it is run: briefly by its path as seen from the current
/// directory, or by its whole path if that cannot be had, and then in detail by what is run. It is
/// run with all arguments of the user, in the environment and the directory of the build. When it
/// ends well the next one is announced, and after the last one the run has ended well.
pub proof fn law_each_program_is_announced_and_run(
    manifest_path: Seq<u8>,
    options: OptionsView,
    args: Seq<String>,
    compiled: CompiledView,
    current: Path,
    at: int,
)
    requires
        -1 <= at < compiled.tests.len(),
    ensures
        ({
            let here = current@;
            let before = if at < 0 {
                ExampleStateView::Locating { compiled }
            } else {
                ExampleStateView::Running { compiled, current: here, at, phase: RunPhase::Running }
            };
            let event = if at < 0 {
                ExampleEvent::Located(current)
            } else {
                ExampleEvent::Ran(Ok(()))
            };
            let (next, action) = example_step(manifest_path, options, args, before, event);
            &&& at + 1 == compiled.tests.len() ==> action == ExampleActionView::Finish(Ok(None))
                && next == ExampleStateView::Done
            &&& at + 1 < compiled.tests.len() ==> {
                let path = compiled.tests[at + 1];
                &&& action is Announce
                &&& relative(path, here) is Some ==> action->Announce_0 == relative(path, here)->0
                &&& relative(path, here) is None ==> action->Announce_0 == path
                &&& next == (ExampleStateView::Running {
                    compiled,
                    current: here,
                    at: at + 1,
                    phase: RunPhase::Announcing,
                })
            }
        }),
        ({
            let here = current@;
            let announcing = ExampleStateView::Running {
                compiled,
                current: here,
                at,
                phase: RunPhase::Announcing,
            };
            let detailing = ExampleStateView::Running {
                compiled,
                current: here,
                at,
                phase: RunPhase::Detailing,
            };
            let running = ExampleStateView::Running {
                compiled,
                current: here,
                at,
                phase: RunPhase::Running,
            };
            let event = ExampleEvent::Announced(Ok(()));
            let (second, detail) = example_step(manifest_path, options, args, announcing, event);
            let (third, run) = example_step(manifest_path, options, args, detailing, event);
            at >= 0 ==> {
                &&& second == detailing
                &&& third == running
                &&& detail is Detail
                &&& run is Run
                &&& detail->Detail_0 == run->Run_0
                &&& run->Run_0.program == compiled.tests[at]
                &&& run->Run_0.args.len() == args.len()
                &&& forall|i: int|
                    0 <= i < args.len() ==> #[trigger] run->Run_0.args[i] == utf8(args[i]@)
                &&& run->Run_0.env == compiled.env
                &&& run->Run_0.cwd == compiled.cwd
            }
        }),
{
}

/// What is told of an action, and of how far a run has come, is what they hold.
pub proof fn law_example_tells_what_it_holds(
    action: ExampleAction,
    state: ExampleState,
    compiled: Compiled,
)
    ensures
        action matches ExampleAction::Open(dir) ==> action@ == ExampleActionView::Open(dir.repr@),
        action is Update ==> action@ is Update,
        action is Read ==> action@ is Read,
        action matches ExampleAction::Build { manifest_path, options } ==> action@ == (
        ExampleActionView::Build { manifest_path: manifest_path.repr@, options: options@ }),
        action is Locate ==> action@ is Locate,
        action matches ExampleAction::Announce(path) ==> action@ == ExampleActionView::Announce(
            path.repr@,
        ),
        action matches ExampleAction::Detail(command) ==> action@ == ExampleActionView::Detail(
            command@,
        ),
        action matches ExampleAction::Run(command) ==> action@ == ExampleActionView::Run(command@),
        action matches ExampleAction::Finish(Ok(Some(failed))) ==> action@
            == ExampleActionView::Finish(Ok(Some(failed@))),
        action matches ExampleAction::Finish(Ok(None)) ==> action@ == ExampleActionView::Finish(
            Ok(None),
        ),
        action matches ExampleAction::Finish(Err(error)) ==> action@ == ExampleActionView::Finish(
            Err(error@),
        ),
        compiled@.tests == views(compiled.tests@),
        compiled@.env == env_map(compiled.env@),
        compiled@.cwd == compiled.cwd.repr@,
        state matches ExampleState::Locating { compiled } ==> state@ == (
        ExampleStateView::Locating { compiled: compiled@ }),
        state matches ExampleState::Running { compiled, current, at, phase } ==> state@ == (
        ExampleStateView::Running {
            compiled: compiled@,
            current: current.repr@,
            at: at as int,
            phase,
        }),
{
}

/// What can happen to a run of examples: each thing that it waits for, and nothing else.
pub proof fn law_what_can_happen_to_an_example(state: ExampleStateView, event: ExampleEvent)
    ensures
        example_can_happen(state, event) <==> {
            ||| state is Start && event is Begin
            ||| state is Opening && event is Opened
            ||| state is Updating && event is Updated
            ||| state is Reading && event is Read
            ||| state is Compiling && event is Built
            ||| state is Locating && event is Located
            ||| state is Running && state->phase != RunPhase::Running && event is Announced
            ||| state is Running && state->phase == RunPhase::Running && event is Ran
        },
{
}

} // verus!
