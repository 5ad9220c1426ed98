//! Building targets of a package, with all that it depends on.

use crate::context::{Context, ContextData};
use crate::error::{CargoError, ErrorView};
use crate::ops::cargo_rustc::plan::{
    as_dependency, as_primary, law_jobs_ask_for_themselves, plan, plan_build, sound,
};
use crate::ops::cargo_rustc::queue::{decide, decided, JobQueue, QueuedView};
use crate::ops::cargo_rustc::script::{Script, ScriptView};
use crate::ops::cargo_rustc::work::{Freshness, Prepare};
use crate::package::{Target, Workspace};
use crate::path::{
    components, directory, joined, law_joined_with_name, law_joined_with_nothing,
    law_normal_of_normal, normal, plain_name, Path,
};
use crate::text::{opt_view, utf8};
use vstd::prelude::*;

verus! {

/// The results of all targets go to the same directory.
pub open spec fn same_dest(targets: Seq<&Target>) -> bool {
    forall|i: int|
        0 <= i < targets.len() ==> opt_view((#[trigger] targets[i]).profile.dest) == opt_view(
            targets[0].profile.dest,
        )
}

/// The directory that the results of all targets go to.
pub fn uniq_target_dest<'a>(targets: &Vec<&'a Target>) -> (dest: Option<&'a str>)
    requires
        targets@.len() > 0,
        same_dest(targets@),
    ensures
        match dest {
            Some(dest) => forall|i: int|
                0 <= i < targets@.len() ==> ((#[trigger] targets@[i]).profile.dest matches Some(d)
                    && d@ == dest@),
            None => forall|i: int|
                0 <= i < targets@.len() ==> (#[trigger] targets@[i]).profile.dest is None,
        },
{
    match &targets[0].profile.dest {
        Some(dest) => Some(dest.as_str()),
        None => None,
    }
}

/// Whether the results of all targets go to the same directory.
pub fn dests_agree(targets: &Vec<&Target>) -> (yes: bool)
    ensures
        yes == same_dest(targets@),
{
    for i in 0..targets.len()
        invariant
            forall|k: int|
                0 <= k < i ==> opt_view((#[trigger] targets@[k]).profile.dest) == opt_view(
                    targets@[0].profile.dest,
                ),
    {
        let same = match (&targets[i].profile.dest, &targets[0].profile.dest) {
            (Some(a), Some(b)) => *a == *b,
            (None, None) => true,
            _ => false,
        };
        if !same {
            assert(opt_view(targets@[i as int].profile.dest) != opt_view(targets@[0].profile.dest));
            return false;
        }
    }
    true
}

/// A request to build `targets` of the package `pkg` that can be met: the workspace is whole, the
/// targets are there, and their results go to the same directory.
pub open spec fn request_wf(ws: Workspace, pkg: usize, targets: Seq<usize>) -> bool {
    &&& ws.wf()
    &&& pkg < ws.packages@.len()
    &&& forall|i: int|
        0 <= i < targets.len() ==> #[trigger] targets[i] < ws.packages@[pkg as int].targets@.len()
    &&& forall|i: int|
        0 <= i < targets.len() ==> dest_of(ws, pkg, #[trigger] targets[i]) == dest_of(
            ws,
            pkg,
            targets[0],
        )
}

/// The directory that the results of a target go to.
pub open spec fn dest_of(ws: Workspace, pkg: usize, target: usize) -> Option<Seq<char>> {
    opt_view(ws.packages@[pkg as int].targets@[target as int].profile.dest)
}

/// How a build ended that went well.
#[derive(Debug, Clone, Copy, PartialEq, Eq, Structural)]
pub enum Outcome {
    /// There was nothing to build.
    Nothing,
    /// Everything was built.
    Built,
}

/// How far a build has come.
#[derive(Debug, PartialEq, Eq)]
pub enum BuildState {
    /// Nothing was done yet.
    Start,
    /// The surroundings of the build are being set up.
    Creating,
    /// The directories for the results are being made.
    Preparing,
    /// The questions about fingerprints are being answered. `error` tells why the build ends once
    /// they are.
    Asking { script: Script, error: Option<CargoError>, answers: Vec<Freshness> },
    /// The jobs are being run.
    Executing,
    /// The build has ended.
    Done,
}

/// What a `BuildState` is.
#[verifier::ext_equal]
pub enum BuildStateView {
    Start,
    Creating,
    Preparing,
    Asking { script: ScriptView, error: Option<ErrorView>, answers: Seq<Freshness> },
    Executing,
    Done,
}

impl View for BuildState {
    type V = BuildStateView;

    open spec fn view(&self) -> BuildStateView {
        match self {
            BuildState::Start => BuildStateView::Start,
            BuildState::Creating => BuildStateView::Creating,
            BuildState::Preparing => BuildStateView::Preparing,
            BuildState::Asking { script, error, answers } => BuildStateView::Asking {
                script: script@,
                error: opt_view(*error),
                answers: answers@,
            },
            BuildState::Executing => BuildStateView::Executing,
            BuildState::Done => BuildStateView::Done,
        }
    }
}

/// What has happened to a build.
pub enum BuildEvent {
    /// It was asked for.
    Begin,
    /// Its surroundings were set up.
    Created(Result<(), CargoError>),
    /// The directories for its results were made, and all about its surroundings is known.
    Prepared(Result<ContextData, CargoError>),
    /// The directory for the fingerprints of a package was looked at.
    Initialized,
    /// A fingerprint was looked at.
    Answered(Result<Freshness, CargoError>),
    /// The jobs were run.
    Executed(Result<(), CargoError>),
}

/// What is to be done for a build.
#[derive(Debug, PartialEq, Eq)]
pub enum BuildAction {
    /// Set up its surroundings, with these directories for results on the host and on the platform
    /// that is built for.
    Create { host: Path, target: Option<Path> },
    /// Make the directories for its results.
    Prepare,
    /// Look at a fingerprint.
    Ask(Prepare),
    /// Run the jobs.
    Execute(JobQueue),
    /// Nothing more: this is how it ended.
    Finish(Result<Outcome, CargoError>),
}

/// What a `BuildAction` is.
#[verifier::ext_equal]
pub enum BuildActionView {
    Create { host: Seq<u8>, target: Option<Seq<u8>> },
    Prepare,
    Ask(Prepare),
    Execute(Seq<QueuedView>),
    Finish(Result<Outcome, ErrorView>),
}

impl View for BuildAction {
    type V = BuildActionView;

    open spec fn view(&self) -> BuildActionView {
        match self {
            BuildAction::Create { host, target } => BuildActionView::Create {
                host: host@,
                target: opt_view(*target),
            },
            BuildAction::Prepare => BuildActionView::Prepare,
            BuildAction::Ask(question) => BuildActionView::Ask(*question),
            BuildAction::Execute(queue) => BuildActionView::Execute(queue@),
            BuildAction::Finish(Ok(outcome)) => BuildActionView::Finish(Ok(*outcome)),
            BuildAction::Finish(Err(error)) => BuildActionView::Finish(Err(error@)),
        }
    }
}

/// The directory for the results of a build.
pub open spec fn results_dir(base: Seq<u8>, dest: Option<Seq<char>>) -> Seq<u8> {
    joined(
        base,
        match dest {
            Some(dest) => utf8(dest),
            None => Seq::empty(),
        },
    )
}

/// What is done first for a build.
pub open spec fn begin(ws: Workspace, pkg: usize, targets: Seq<usize>) -> (
    BuildStateView,
    BuildActionView,
) {
    if targets.len() == 0 {
        (BuildStateView::Done, BuildActionView::Finish(Ok(Outcome::Nothing)))
    } else {
        let root = ws.packages@[pkg as int].target_dir@;
        let dest = dest_of(ws, pkg, targets[0]);
        (
            BuildStateView::Creating,
            BuildActionView::Create {
                host: results_dir(root, dest),
                target: match ws.config.target {
                    Some(target) => Some(results_dir(joined(root, utf8(target@)), dest)),
                    None => None,
                },
            },
        )
    }
}

/// What is done once the given answers are known: the next question is asked, or the build ends, or
/// the jobs are run.
pub open spec fn proceed(
    script: ScriptView,
    error: Option<ErrorView>,
    answers: Seq<Freshness>,
) -> (BuildStateView, BuildActionView) {
    if answers.len() < script.questions.len() {
        (
            BuildStateView::Asking { script, error, answers },
            BuildActionView::Ask(script.questions[answers.len() as int]),
        )
    } else {
        match error {
            Some(error) => (BuildStateView::Done, BuildActionView::Finish(Err(error))),
            None => (
                BuildStateView::Executing,
                BuildActionView::Execute(decided(script, answers)),
            ),
        }
    }
}

/// How a build ends that fails.
pub open spec fn fail(error: CargoError) -> (BuildStateView, BuildActionView) {
    (BuildStateView::Done, BuildActionView::Finish(Err(error@)))
}

/// The surroundings of a build.
pub open spec fn surroundings<'a>(ws: &'a Workspace, data: &'a ContextData) -> Context<'a> {
    Context { ws, data, primary: false }
}

/// What comes of an event: how far the build has come then, and what is to be done next.
pub open spec fn build_step(
    ws: Workspace,
    pkg: usize,
    targets: Seq<usize>,
    state: BuildStateView,
    event: BuildEvent,
) -> (BuildStateView, BuildActionView) {
    match event {
        BuildEvent::Begin => begin(ws, pkg, targets),
        BuildEvent::Created(Ok(_)) => (BuildStateView::Preparing, BuildActionView::Prepare),
        BuildEvent::Created(Err(error)) => fail(error),
        BuildEvent::Prepared(Ok(data)) => {
            let (script, error) = plan_build(surroundings(&ws, &data), pkg, targets);
            proceed(script, error, Seq::empty())
        },
        BuildEvent::Prepared(Err(error)) => fail(error),
        BuildEvent::Initialized => proceed(
            state->script,
            state->error,
            state->answers.push(Freshness::Fresh),
        ),
        BuildEvent::Answered(Ok(freshness)) => proceed(
            state->script,
            state->error,
            state->answers.push(freshness),
        ),
        BuildEvent::Answered(Err(error)) => fail(error),
        BuildEvent::Executed(Ok(_)) => (
            BuildStateView::Done,
            BuildActionView::Finish(Ok(Outcome::Built)),
        ),
        BuildEvent::Executed(Err(error)) => fail(error),
    }
}

/// Whether an event can happen to a build that has come so far.
pub open spec fn can_happen(ws: Workspace, state: BuildStateView, event: BuildEvent) -> bool {
    match (state, event) {
        (BuildStateView::Start, BuildEvent::Begin) => true,
        (BuildStateView::Creating, BuildEvent::Created(_)) => true,
        (BuildStateView::Preparing, BuildEvent::Prepared(Ok(data))) => data.fits(ws),
        (BuildStateView::Preparing, BuildEvent::Prepared(Err(_))) => true,
        (
            BuildStateView::Asking { script, error, answers },
            BuildEvent::Initialized,
        ) => script.questions[answers.len() as int] is Init,
        (
            BuildStateView::Asking { script, error, answers },
            BuildEvent::Answered(_),
        ) => !(script.questions[answers.len() as int] is Init),
        (BuildStateView::Executing, BuildEvent::Executed(_)) => true,
        _ => false,
    }
}

/// While questions are being answered there is one left, and each job asks for itself.
pub open spec fn state_wf(state: BuildStateView) -> bool {
    match state {
        BuildStateView::Asking { script, error, answers } => answers.len() < script.questions.len()
            && sound(script),
        _ => true,
    }
}

/// Asks the next question, ends the build, or has the jobs run.
fn go_on(script: Script, error: Option<CargoError>, answers: Vec<Freshness>) -> (next: (
    BuildState,
    BuildAction,
))
    requires
        sound(script@),
        answers@.len() <= script@.questions.len(),
    ensures
        (next.0@, next.1@) == proceed(script@, opt_view(error), answers@),
        state_wf(next.0@),
{
    if answers.len() < script.questions.len() {
        let question = script.questions[answers.len()];
        (BuildState::Asking { script, error, answers }, BuildAction::Ask(question))
    } else {
        match error {
            Some(error) => (BuildState::Done, BuildAction::Finish(Err(error))),
            None => {
                let queue = decide(script, &answers);
                (BuildState::Executing, BuildAction::Execute(queue))
            },
        }
    }
}

/// Finds the directories for the results of a build.
fn start(ws: &Workspace, pkg: usize, targets: &Vec<usize>) -> (next: (BuildState, BuildAction))
    requires
        request_wf(*ws, pkg, targets@),
    ensures
        (next.0@, next.1@) == begin(*ws, pkg, targets@),
{
    if targets.len() == 0 {
        return (BuildState::Done, BuildAction::Finish(Ok(Outcome::Nothing)));
    }
    let package = &ws.packages[pkg];
    let mut refs: Vec<&Target> = Vec::new();
    for i in 0..targets.len()
        invariant
            request_wf(*ws, pkg, targets@),
            *package == ws.packages@[pkg as int],
            refs@.len() == i,
            forall|k: int|
                0 <= k < i ==> *(#[trigger] refs@[k]) == package.targets@[targets@[k] as int],
    {
        assert(targets@[i as int] < package.targets@.len());
        refs.push(&package.targets[targets[i]]);
    }
    assert forall|k: int| 0 <= k < refs@.len() implies opt_view((#[trigger] refs@[k]).profile.dest)
        == opt_view(refs@[0].profile.dest) by {
        assert(dest_of(*ws, pkg, targets@[k]) == dest_of(*ws, pkg, targets@[0]));
    }
    let dest = uniq_target_dest(&refs).unwrap_or("");
    proof {
        reveal_strlit("");
        assert(utf8(""@) =~= Seq::empty());
        assert(*refs@[0] == package.targets@[targets@[0] as int]);
    }
    let host = package.target_dir.join(dest.as_bytes());
    let target = match &ws.config.target {
        Some(target) => Some(
            package.target_dir.join(target.as_str().as_bytes()).join(dest.as_bytes()),
        ),
        None => None,
    };
    (BuildState::Creating, BuildAction::Create { host, target })
}

/// Takes a build one step further: from how far it has come and what has happened to how far it has
/// come then and what is to be done next.
pub fn compile_targets(
    ws: &Workspace,
    targets: &Vec<usize>,
    pkg: usize,
    state: BuildState,
    event: BuildEvent,
) -> (next: (BuildState, BuildAction))
    requires
        request_wf(*ws, pkg, targets@),
        state_wf(state@),
        can_happen(*ws, state@, event),
    ensures
        (next.0@, next.1@) == build_step(*ws, pkg, targets@, state@, event),
        state_wf(next.0@),
{
    match event {
        BuildEvent::Begin => start(ws, pkg, targets),
        BuildEvent::Created(Ok(_)) => (BuildState::Preparing, BuildAction::Prepare),
        BuildEvent::Prepared(Ok(data)) => {
            let cx = Context { ws, data: &data, primary: false };
            proof {
                assert(cx == surroundings(ws, &data));
                assert forall|i: int| 0 <= i < targets@.len() implies cx.has_target(
                    pkg as int,
                    #[trigger] targets@[i] as int,
                ) by {
                    assert(targets@[i] < ws.packages@[pkg as int].targets@.len());
                }
                law_jobs_ask_for_themselves(cx, pkg, targets@);
            }
            let (script, error) = plan(&cx, pkg, targets);
            let answers: Vec<Freshness> = Vec::new();
            assert(answers@ =~= Seq::empty());
            go_on(script, error, answers)
        },
        BuildEvent::Initialized => match state {
            BuildState::Asking { script, error, answers } => {
                let mut answers = answers;
                answers.push(Freshness::Fresh);
                go_on(script, error, answers)
            },
            _ => vstd::pervasive::unreached(),
        },
        BuildEvent::Answered(Ok(freshness)) => match state {
            BuildState::Asking { script, error, answers } => {
                let mut answers = answers;
                answers.push(freshness);
                go_on(script, error, answers)
            },
            _ => vstd::pervasive::unreached(),
        },
        BuildEvent::Executed(Ok(_)) => (
            BuildState::Done,
            BuildAction::Finish(Ok(Outcome::Built)),
        ),
        BuildEvent::Created(Err(error)) => (BuildState::Done, BuildAction::Finish(Err(error))),
        BuildEvent::Prepared(Err(error)) => (BuildState::Done, BuildAction::Finish(Err(error))),
        BuildEvent::Answered(Err(error)) => (BuildState::Done, BuildAction::Finish(Err(error))),
        BuildEvent::Executed(Err(error)) => (BuildState::Done, BuildAction::Finish(Err(error))),
    }
}

/// How far a build has come after `events`, and what is to be done then.
pub open spec fn build_run(
    ws: Workspace,
    pkg: usize,
    targets: Seq<usize>,
    events: Seq<BuildEvent>,
) -> (BuildStateView, Option<BuildActionView>)
    decreases events.len(),
{
    if events.len() == 0 {
        (BuildStateView::Start, None)
    } else {
        let before = build_run(ws, pkg, targets, events.drop_last()).0;
        let (state, action) = build_step(ws, pkg, targets, before, events.last());
        (state, Some(action))
    }
}

/// Whether `events` can happen one after the other.
pub open spec fn build_possible(
    ws: Workspace,
    pkg: usize,
    targets: Seq<usize>,
    events: Seq<BuildEvent>,
) -> bool
    decreases events.len(),
{
    events.len() == 0 || {
        &&& build_possible(ws, pkg, targets, events.drop_last())
        &&& can_happen(
            ws,
            build_run(ws, pkg, targets, events.drop_last()).0,
            events.last(),
        )
    }
}

/// What an event tells about a fingerprint.
pub open spec fn answer(event: BuildEvent) -> Freshness {
    match event {
        BuildEvent::Answered(Ok(freshness)) => freshness,
        _ => Freshness::Fresh,
    }
}

/// What events tell about fingerprints.
pub open spec fn answers(events: Seq<BuildEvent>) -> Seq<Freshness> {
    events.map_values(|event: BuildEvent| answer(event))
}

/// The build was prepared, and the events after that answer the questions of its plan one by one.
pub open spec fn asked_so_far(
    ws: Workspace,
    pkg: usize,
    targets: Seq<usize>,
    events: Seq<BuildEvent>,
    script: ScriptView,
    error: Option<ErrorView>,
) -> bool {
    &&& events.len() >= 3
    &&& events[0] is Begin
    &&& events[1] matches BuildEvent::Created(Ok(_))
    &&& events[2] matches BuildEvent::Prepared(Ok(data)) && data.fits(ws) && plan_build(
        surroundings(&ws, &data),
        pkg,
        targets,
    ) == (script, error)
    &&& events.len() - 3 <= script.questions.len()
    &&& forall|i: int|
        3 <= i < events.len() ==> match #[trigger] events[i] {
            BuildEvent::Initialized => script.questions[i - 3] is Init,
            BuildEvent::Answered(Ok(_)) => !(script.questions[i - 3] is Init),
            _ => false,
        }
}

proof fn lemma_build_history(
    ws: Workspace,
    pkg: usize,
    targets: Seq<usize>,
    events: Seq<BuildEvent>,
)
    requires
        build_possible(ws, pkg, targets, events),
    ensures
        match build_run(ws, pkg, targets, events).0 {
            BuildStateView::Start => events.len() == 0,
            BuildStateView::Creating => events.len() == 1 && events[0] is Begin,
            BuildStateView::Preparing => events.len() == 2 && events[0] is Begin && events[1]
                matches BuildEvent::Created(Ok(_)),
            BuildStateView::Asking { script, error, answers: known } => asked_so_far(
                ws,
                pkg,
                targets,
                events,
                script,
                error,
            ) && known == answers(events.skip(3)) && known.len() < script.questions.len(),
            BuildStateView::Executing => exists|script: ScriptView|
                {
                    &&& #[trigger] asked_so_far(ws, pkg, targets, events, script, None)
                    &&& events.len() - 3 == script.questions.len()
                    &&& build_run(ws, pkg, targets, events).1 == Some(
                        BuildActionView::Execute(decided(script, answers(events.skip(3)))),
                    )
                },
            BuildStateView::Done => true,
        },
    decreases events.len(),
{
    if events.len() > 0 {
        let front = events.drop_last();
        let last = events.last();
        let before = build_run(ws, pkg, targets, front).0;
        lemma_build_history(ws, pkg, targets, front);
        match last {
            BuildEvent::Prepared(Ok(data)) => {
                let (script, error) = plan_build(surroundings(&ws, &data), pkg, targets);
                assert(events[0] == front[0]);
                assert(events[1] == front[1]);
                assert(events.skip(3) =~= Seq::empty());
                assert(answers(events.skip(3)) =~= Seq::empty());
                assert(asked_so_far(ws, pkg, targets, events, script, error));
            },
            BuildEvent::Initialized | BuildEvent::Answered(Ok(_)) => {
                let script = before->script;
                let error = before->error;
                let known = before->answers;
                assert(events[0] == front[0] && events[1] == front[1] && events[2] == front[2]);
                assert(events.skip(3) =~= front.skip(3).push(last));
                assert(answers(events.skip(3)) =~= known.push(answer(last)));
                assert forall|i: int| 3 <= i < events.len() implies match #[trigger] events[i] {
                    BuildEvent::Initialized => script.questions[i - 3] is Init,
                    BuildEvent::Answered(Ok(_)) => !(script.questions[i - 3] is Init),
                    _ => false,
                } by {
                    if i < front.len() {
                        assert(events[i] == front[i]);
                    }
                }
                assert(asked_so_far(ws, pkg, targets, events, script, error));
            },
            _ => {},
        }
    }
}

/// Jobs are run only when the build was planned without an error and all its questions are
/// answered, and then they are the planned ones, each decided by the answer to its own question.
pub proof fn law_jobs_run_once_all_is_answered(
    ws: Workspace,
    pkg: usize,
    targets: Seq<usize>,
    events: Seq<BuildEvent>,
    queue: Seq<QueuedView>,
)
    requires
        build_possible(ws, pkg, targets, events),
        build_run(ws, pkg, targets, events).1 == Some(BuildActionView::Execute(queue)),
    ensures
        exists|script: ScriptView|
            {
                &&& #[trigger] asked_so_far(ws, pkg, targets, events, script, None)
                &&& events.len() - 3 == script.questions.len()
                &&& queue == decided(script, answers(events.skip(3)))
            },
{
    lemma_build_history(ws, pkg, targets, events);
    assert(build_run(ws, pkg, targets, events).0 is Executing);
}

/// A build that ends well, and had something to build, has run its jobs.
pub proof fn law_built_means_run(
    ws: Workspace,
    pkg: usize,
    targets: Seq<usize>,
    events: Seq<BuildEvent>,
)
    requires
        build_possible(ws, pkg, targets, events),
        build_run(ws, pkg, targets, events).1 == Some(
            BuildActionView::Finish(Ok(Outcome::Built)),
        ),
    ensures
        events.last() matches BuildEvent::Executed(Ok(_)),
        build_run(ws, pkg, targets, events.drop_last()).1 matches Some(BuildActionView::Execute(_)),
{
    lemma_build_history(ws, pkg, targets, events.drop_last());
}

/// The error that an event brings.
pub open spec fn build_failure(event: BuildEvent) -> Option<ErrorView> {
    match event {
        BuildEvent::Created(Err(error)) => Some(error@),
        BuildEvent::Prepared(Err(error)) => Some(error@),
        BuildEvent::Answered(Err(error)) => Some(error@),
        BuildEvent::Executed(Err(error)) => Some(error@),
        _ => None,
    }
}

/// The first failure ends a build, with its own error, and nothing can happen to the build after
/// that.
pub proof fn law_failure_ends_build(
    ws: Workspace,
    pkg: usize,
    targets: Seq<usize>,
    state: BuildStateView,
    event: BuildEvent,
    later: BuildEvent,
)
    requires
        can_happen(ws, state, event),
        build_failure(event) is Some,
    ensures
        build_step(ws, pkg, targets, state, event) == (
            BuildStateView::Done,
            BuildActionView::Finish(Err(build_failure(event)->0)),
        ),
        !can_happen(ws, build_step(ws, pkg, targets, state, event).0, later),
{
}

/// The bytes of a directory that results go to below the target directory; nothing where there is
/// none.
pub open spec fn dest_bytes(dest: Option<String>) -> Seq<u8> {
    match dest {
        Some(dest) => utf8(dest@),
        None => Seq::empty(),
    }
}

/// Whatever is built for, the results on the host go below the target directory of the package to
/// where all requested targets say; those for another platform go to the same place below a directory
/// that is named after the platform, and there are such results only if a platform is given.
pub proof fn law_results_directories(
    ws: Workspace,
    pkg: usize,
    targets: Seq<usize>,
    state: BuildStateView,
    at: int,
)
    requires
        request_wf(ws, pkg, targets),
        0 <= at < targets.len(),
    ensures
        ({
            let action = build_step(ws, pkg, targets, state, BuildEvent::Begin).1;
            let package = ws.packages@[pkg as int];
            let dest = dest_bytes(package.targets@[targets[at] as int].profile.dest);
            &&& build_step(ws, pkg, targets, state, BuildEvent::Begin).0 == BuildStateView::Creating
            &&& action is Create
            &&& action->host == joined(package.target_dir@, dest)
            &&& ws.config.target is None ==> action->target is None
            &&& ws.config.target is Some ==> action->target == Some(
                joined(joined(package.target_dir@, utf8(ws.config.target->0@)), dest),
            )
        }),
{
    assert(dest_of(ws, pkg, targets[at]) == dest_of(ws, pkg, targets[0]));
}

/// Where the results on the host go does not depend on the platform that is built for, nor on
/// anything else than the package and its targets.
pub proof fn law_host_directory_on_all_platforms(
    a: Workspace,
    b: Workspace,
    pkg: usize,
    targets: Seq<usize>,
    state: BuildStateView,
)
    requires
        targets.len() > 0,
        a.packages == b.packages,
    ensures
        build_step(a, pkg, targets, state, BuildEvent::Begin).1->host == build_step(
            b,
            pkg,
            targets,
            state,
            BuildEvent::Begin,
        ).1->host,
{
}

/// Where the targets name a directory for their results, the directory on the host is the one of that
/// name in the target directory of the package; otherwise it is the target directory itself. On
/// another platform it is the one of that name in the directory of the platform.
pub proof fn law_results_go_to_their_directory(
    ws: Workspace,
    pkg: usize,
    targets: Seq<usize>,
    state: BuildStateView,
    at: int,
)
    requires
        request_wf(ws, pkg, targets),
        0 <= at < targets.len(),
    ensures
        ({
            let action = build_step(ws, pkg, targets, state, BuildEvent::Begin).1;
            let package = ws.packages@[pkg as int];
            let dest = package.targets@[targets[at] as int].profile.dest;
            let base = components(package.target_dir@);
            &&& dest is None ==> action->host == normal(package.target_dir@)
            &&& dest is Some && plain_name(utf8(dest->0@)) ==> components(action->host)
                == base.push(utf8(dest->0@)) && directory(action->host) == normal(
                package.target_dir@,
            )
            &&& ws.config.target is Some && plain_name(utf8(ws.config.target->0@)) ==> {
                let platform = base.push(utf8(ws.config.target->0@));
                &&& dest is None ==> components(action->target->0) == platform
                &&& dest is Some && plain_name(utf8(dest->0@)) ==> components(action->target->0)
                    == platform.push(utf8(dest->0@))
            }
        }),
{
    let package = ws.packages@[pkg as int];
    let base = package.target_dir@;
    let dest = package.targets@[targets[at] as int].profile.dest;
    law_results_directories(ws, pkg, targets, state, at);
    law_joined_with_nothing(base, Seq::empty());
    if dest is Some && plain_name(utf8(dest->0@)) {
        law_joined_with_name(base, utf8(dest->0@));
    }
    if ws.config.target is Some && plain_name(utf8(ws.config.target->0@)) {
        let platform = joined(base, utf8(ws.config.target->0@));
        law_joined_with_name(base, utf8(ws.config.target->0@));
        law_joined_with_nothing(platform, Seq::empty());
        law_normal_of_normal(platform);
        if dest is Some && plain_name(utf8(dest->0@)) {
            law_joined_with_name(platform, utf8(dest->0@));
        }
    }
}

/// A build ends with nothing to do exactly if nothing was asked for, and then it ends at once.
pub proof fn law_nothing_to_build(
    ws: Workspace,
    pkg: usize,
    targets: Seq<usize>,
    state: BuildStateView,
    event: BuildEvent,
)
    ensures
        build_step(ws, pkg, targets, state, event).1 == BuildActionView::Finish(
            Ok(Outcome::Nothing),
        ) <==> event is Begin && targets.len() == 0,
        event is Begin && targets.len() == 0 ==> build_step(ws, pkg, targets, state, event).0
            == BuildStateView::Done,
{
}

/// Directories are made once the surroundings are set up.
pub proof fn law_prepared_after_created(
    ws: Workspace,
    pkg: usize,
    targets: Seq<usize>,
    state: BuildStateView,
)
    ensures
        build_step(ws, pkg, targets, state, BuildEvent::Created(Ok(()))) == (
            BuildStateView::Preparing,
            BuildActionView::Prepare,
        ),
{
}

/// Once all is known the build is planned, as one of a package with all its dependencies, and the
/// first question of the plan is asked; a plan without questions is carried out or fails at once.
pub proof fn law_planned_after_prepared(
    ws: Workspace,
    pkg: usize,
    targets: Seq<usize>,
    state: BuildStateView,
    data: ContextData,
    primary: bool,
)
    ensures
        ({
            let (script, error) = plan_build(Context { ws: &ws, data: &data, primary }, pkg, targets);
            let (next, action) = build_step(
                ws,
                pkg,
                targets,
                state,
                BuildEvent::Prepared(Ok(data)),
            );
            &&& script.questions.len() > 0 ==> action == BuildActionView::Ask(script.questions[0])
                && next == (BuildStateView::Asking { script, error, answers: Seq::empty() })
            &&& script.questions.len() == 0 && error is Some ==> action == BuildActionView::Finish(
                Err(error->0),
            ) && next == BuildStateView::Done
            &&& script.questions.len() == 0 && error is None ==> action is Execute && next
                == BuildStateView::Executing
        }),
{
    let one = Context { ws: &ws, data: &data, primary };
    let cx = surroundings(&ws, &data);
    assert(as_dependency(one) == as_dependency(cx));
    assert(as_primary(one) == as_primary(cx));
}

/// After an answer the next question is asked, and no answer is lost. After the last answer the build
/// fails if its plan did, whatever the answers are, and otherwise the jobs are run, also if all of
/// them are fresh.
pub proof fn law_questions_in_order(
    ws: Workspace,
    pkg: usize,
    targets: Seq<usize>,
    script: ScriptView,
    error: Option<ErrorView>,
    known: Seq<Freshness>,
    freshness: Freshness,
    event: BuildEvent,
)
    requires
        known.len() < script.questions.len(),
        event == BuildEvent::Answered(Ok(freshness)) || (event is Initialized && freshness
            == Freshness::Fresh),
    ensures
        ({
            let state = BuildStateView::Asking { script, error, answers: known };
            let (next, action) = build_step(ws, pkg, targets, state, event);
            let n = known.len() as int + 1;
            &&& n < script.questions.len() ==> action == BuildActionView::Ask(script.questions[n])
                && next == (BuildStateView::Asking {
                script,
                error,
                answers: known.push(freshness),
            })
            &&& n == script.questions.len() && error is Some ==> action == BuildActionView::Finish(
                Err(error->0),
            ) && next == BuildStateView::Done
            &&& n == script.questions.len() && error is None ==> action == BuildActionView::Execute(
                decided(script, known.push(freshness)),
            ) && next == BuildStateView::Executing
        }),
{
}

/// Once the jobs were run the build has ended well.
pub proof fn law_built_after_run(
    ws: Workspace,
    pkg: usize,
    targets: Seq<usize>,
    state: BuildStateView,
)
    ensures
        build_step(ws, pkg, targets, state, BuildEvent::Executed(Ok(()))) == (
            BuildStateView::Done,
            BuildActionView::Finish(Ok(Outcome::Built)),
        ),
{
}

/// A request can be met exactly if the workspace is whole, the package and the targets are there, and
/// all targets name the same directory for their results, or none does.
pub proof fn law_requests_that_can_be_met(ws: Workspace, pkg: usize, targets: Seq<usize>)
    ensures
        request_wf(ws, pkg, targets) <==> {
            let all = ws.packages@[pkg as int].targets@;
            &&& ws.wf()
            &&& pkg < ws.packages@.len()
            &&& forall|i: int| 0 <= i < targets.len() ==> #[trigger] targets[i] < all.len()
            &&& forall|i: int, j: int|
                0 <= i < targets.len() && 0 <= j < targets.len() ==> opt_view(
                    all[#[trigger] targets[i] as int].profile.dest,
                ) == opt_view(all[#[trigger] targets[j] as int].profile.dest)
        },
{
    let all = ws.packages@[pkg as int].targets@;
    if request_wf(ws, pkg, targets) {
        assert forall|i: int, j: int|
            0 <= i < targets.len() && 0 <= j < targets.len() implies opt_view(
            all[#[trigger] targets[i] as int].profile.dest,
        ) == opt_view(all[#[trigger] targets[j] as int].profile.dest) by {
            assert(dest_of(ws, pkg, targets[i]) == dest_of(ws, pkg, targets[0]));
            assert(dest_of(ws, pkg, targets[j]) == dest_of(ws, pkg, targets[0]));
        }
    } else if ws.wf() && pkg < ws.packages@.len() && (forall|i: int|
        0 <= i < targets.len() ==> #[trigger] targets[i] < all.len()) {
        let i = choose|i: int|
            0 <= i < targets.len() && dest_of(ws, pkg, #[trigger] targets[i]) != dest_of(
                ws,
                pkg,
                targets[0],
            );
        assert(opt_view(all[targets[i] as int].profile.dest) != opt_view(
            all[targets[0] as int].profile.dest,
        ));
    }
}

/// Targets agree on the directory for their results exactly if any two of them do.
pub proof fn law_targets_that_agree(targets: Seq<&Target>)
    ensures
        same_dest(targets) <==> forall|i: int, j: int|
            0 <= i < targets.len() && 0 <= j < targets.len() ==> opt_view(
                (#[trigger] targets[i]).profile.dest,
            ) == opt_view((#[trigger] targets[j]).profile.dest),
{
}

/// What is told of an action, and of how far a build has come, is what they hold.
pub proof fn law_build_tells_what_it_holds(action: BuildAction, state: BuildState)
    ensures
        action matches BuildAction::Create { host, target } ==> action@ is Create && action@->host
            == host.repr@ && (target is Some ==> action@->target == Some(target->0.repr@)) && (
        target is None ==> action@->target is None),
        action is Prepare ==> action@ is Prepare,
        action matches BuildAction::Ask(question) ==> action@ == BuildActionView::Ask(question),
        action matches BuildAction::Execute(queue) ==> action@ == BuildActionView::Execute(queue@),
        action matches BuildAction::Finish(Ok(outcome)) ==> action@ == BuildActionView::Finish(
            Ok(outcome),
        ),
        action matches BuildAction::Finish(Err(error)) ==> action@ == BuildActionView::Finish(
            Err(error@),
        ),
        state is Start <==> state@ is Start,
        state is Creating <==> state@ is Creating,
        state is Preparing <==> state@ is Preparing,
        state is Executing <==> state@ is Executing,
        state is Done <==> state@ is Done,
        state matches BuildState::Asking { script, error, answers } ==> state@ is Asking
            && state@->script == script@ && state@->error == opt_view(error) && state@->answers
            == answers@,
{
}

/// What can happen to a build: each thing that it waits for, and nothing else. Surroundings that were
/// prepared fit the workspace.
pub proof fn law_what_can_happen_to_a_build(
    ws: Workspace,
    state: BuildStateView,
    event: BuildEvent,
)
    ensures
        can_happen(ws, state, event) <==> {
            ||| state is Start && event is Begin
            ||| state is Creating && event is Created
            ||| state is Preparing && event is Prepared && (event->Prepared_0 is Ok
                ==> event->Prepared_0->Ok_0.fits(ws))
            ||| state is Asking && event is Initialized
                && state->script.questions[state->answers.len() as int] is Init
            ||| state is Asking && event is Answered
                && !(state->script.questions[state->answers.len() as int] is Init)
            ||| state is Executing && event is Executed
        },
{
}

} // verus!
