//! The plan of a whole build.

use crate::context::Context;
use crate::error::{human, human_view, CargoError, ErrorView};
use crate::ops::cargo_rustc::compile::{
    are_targets, compile, custom_job, custom_works, init_jobs, init_questions, plan_package,
    plan_targets, target_jobs, target_questions, target_units,
};
use crate::ops::cargo_rustc::script::{JobPlan, Script, ScriptView, Stage, StagePlan};
use crate::ops::cargo_rustc::work::{Prepare, WorkView};
use crate::text::enclose;
use vstd::prelude::*;

verus! {

/// Those of the first `count` targets of a package that are built where it is a dependency.
pub open spec fn relevant_targets(cx: Context, pkg: int, count: int) -> Seq<usize>
    decreases count,
{
    if count <= 0 {
        Seq::empty()
    } else if cx.target_data(pkg, count - 1).relevant {
        relevant_targets(cx, pkg, count - 1).push((count - 1) as usize)
    } else {
        relevant_targets(cx, pkg, count - 1)
    }
}

/// All targets of a package that are built where it is a dependency.
pub open spec fn dependency_targets(cx: Context, pkg: int) -> Seq<usize> {
    relevant_targets(cx, pkg, cx.package(pkg).targets@.len() as int)
}

/// The script after the first `count` packages but `root` were added as dependencies, and why it
/// goes no further.
pub open spec fn plan_dependencies(cx: Context, root: usize, count: int) -> (
    ScriptView,
    Option<ErrorView>,
)
    decreases count,
{
    if count <= 0 {
        (ScriptView::empty(), None)
    } else {
        let (script, error) = plan_dependencies(cx, root, count - 1);
        let dep = count - 1;
        if error is Some || dep == root {
            (script, error)
        } else if dependency_targets(cx, dep).len() == 0 {
            (
                script,
                Some(
                    human_view("Package `"@ + cx.package(dep).display@ + "` has no library targets"@),
                ),
            )
        } else {
            plan_package(cx, dep as usize, dependency_targets(cx, dep), script)
        }
    }
}

/// `cx` while the package that was asked for is built.
pub open spec fn as_primary<'a>(cx: Context<'a>) -> Context<'a> {
    Context { primary: true, ..cx }
}

/// `cx` while a dependency is built.
pub open spec fn as_dependency<'a>(cx: Context<'a>) -> Context<'a> {
    Context { primary: false, ..cx }
}

/// The script of a build of `targets` of the package `root`, and why it goes no further: first all
/// other packages are built as dependencies, then `root`.
pub open spec fn plan_build(cx: Context, root: usize, targets: Seq<usize>) -> (
    ScriptView,
    Option<ErrorView>,
) {
    let (script, error) = plan_dependencies(
        as_dependency(cx),
        root,
        cx.ws.packages@.len() as int,
    );
    if error is Some {
        (script, error)
    } else {
        plan_package(as_primary(cx), root, targets, script)
    }
}

/// Finds the targets of a package that are built where it is a dependency.
fn find_relevant(cx: &Context, pkg: usize) -> (targets: Vec<usize>)
    requires
        cx.wf(),
        cx.has_package(pkg as int),
    ensures
        targets@ == dependency_targets(*cx, pkg as int),
        are_targets(*cx, pkg, targets@),
{
    assert(cx.data.package_fits(*cx.ws, pkg as int));
    let data = &cx.data.packages[pkg];
    let mut targets: Vec<usize> = Vec::new();
    for i in 0..data.targets.len()
        invariant
            cx.has_package(pkg as int),
            data.targets@.len() == cx.package(pkg as int).targets@.len(),
            *data == cx.data.packages@[pkg as int],
            targets@ == relevant_targets(*cx, pkg as int, i as int),
            are_targets(*cx, pkg, targets@),
    {
        if data.targets[i].relevant {
            targets.push(i);
        }
    }
    targets
}

/// The script of a build of `targets` of the package `root`, and why it goes no further.
pub fn plan(cx: &Context, root: usize, targets: &Vec<usize>) -> (planned: (Script, Option<CargoError>))
    requires
        cx.wf(),
        are_targets(*cx, root, targets@),
    ensures
        planned.0@ == plan_build(*cx, root, targets@).0,
        match (planned.1, plan_build(*cx, root, targets@).1) {
            (Some(error), Some(why)) => error@ == why,
            (None, None) => true,
            _ => false,
        },
{
    let mut script = Script::new();
    let deps = Context { ws: cx.ws, data: cx.data, primary: false };
    assert(deps == as_dependency(*cx));
    for dep in 0..cx.ws.packages.len()
        invariant
            deps.wf(),
            deps == as_dependency(*cx),
            plan_dependencies(deps, root, dep as int) == (script@, None::<ErrorView>),
    {
        if dep != root {
            // Of a dependency only the libraries are built.
            let relevant = find_relevant(&deps, dep);
            if relevant.len() == 0 {
                let error = human(
                    enclose(
                        "Package `",
                        cx.ws.packages[dep].display.as_str(),
                        "` has no library targets",
                    ),
                );
                proof {
                    lemma_plan_dependencies_fail(
                        deps,
                        root,
                        dep + 1,
                        cx.ws.packages@.len() as int,
                    );
                }
                return (script, Some(error));
            }
            match compile(&relevant, dep, &deps, &mut script) {
                Ok(_) => {},
                Err(error) => {
                    proof {
                        lemma_plan_dependencies_fail(
                            deps,
                            root,
                            dep + 1,
                            cx.ws.packages@.len() as int,
                        );
                    }
                    return (script, Some(error));
                },
            }
        }
    }
    let primary = Context { ws: cx.ws, data: cx.data, primary: true };
    assert(primary == as_primary(*cx));
    assert(are_targets(primary, root, targets@)) by {
        assert forall|i: int| 0 <= i < targets@.len() implies primary.has_target(
            root as int,
            #[trigger] targets@[i] as int,
        ) by {
            assert(cx.has_target(root as int, targets@[i] as int));
        }
    }
    match compile(targets, root, &primary, &mut script) {
        Ok(_) => (script, None),
        Err(error) => (script, Some(error)),
    }
}

pub(crate) proof fn lemma_plan_dependencies_fail(cx: Context, root: usize, fewer: int, more: int)
    requires
        0 <= fewer <= more,
        plan_dependencies(cx, root, fewer).1 is Some,
    ensures
        plan_dependencies(cx, root, more) == plan_dependencies(cx, root, fewer),
    decreases more,
{
    if fewer < more {
        lemma_plan_dependencies_fail(cx, root, fewer, more - 1);
    }
}

/// A job that may have to be done has a question of its own, about its own fingerprint, and the last
/// thing that a job does is to record that fingerprint.
pub open spec fn job_sound(questions: Seq<Prepare>, job: JobPlan) -> bool {
    &&& match job.question {
        Some(question) => 0 <= question < questions.len() && questions[question] == job.fresh,
        None => true,
    }
    &&& job.dirty.len() > 0
    &&& job.dirty.last() == WorkView::Fingerprint(job.fresh)
}

/// All jobs of a stage ask and record for themselves.
pub open spec fn stage_sound(questions: Seq<Prepare>, stage: StagePlan) -> bool {
    forall|j: int| 0 <= j < stage.jobs.len() ==> job_sound(questions, #[trigger] stage.jobs[j])
}

/// All jobs of a script ask and record for themselves.
pub open spec fn sound(script: ScriptView) -> bool {
    forall|i: int|
        0 <= i < script.stages.len() ==> stage_sound(script.questions, #[trigger] script.stages[i])
}

proof fn lemma_sound_asking(script: ScriptView, questions: Seq<Prepare>)
    requires
        sound(script),
    ensures
        sound(script.asking(questions)),
{
    let more = script.asking(questions);
    assert forall|i: int| 0 <= i < more.stages.len() implies stage_sound(
        more.questions,
        #[trigger] more.stages[i],
    ) by {
        let stage = script.stages[i];
        assert(stage_sound(script.questions, stage));
        assert forall|j: int| 0 <= j < stage.jobs.len() implies job_sound(
            more.questions,
            #[trigger] stage.jobs[j],
        ) by {
            assert(job_sound(script.questions, stage.jobs[j]));
        }
    }
}

proof fn lemma_plan_targets_sound(
    cx: Context,
    pkg: usize,
    targets: Seq<usize>,
    asked: Seq<Prepare>,
)
    ensures
        asked.is_prefix_of(plan_targets(cx, pkg, targets, asked).questions),
        forall|j: int|
            0 <= j < plan_targets(cx, pkg, targets, asked).libs.len() ==> job_sound(
                plan_targets(cx, pkg, targets, asked).questions,
                #[trigger] plan_targets(cx, pkg, targets, asked).libs[j],
            ),
        forall|j: int|
            0 <= j < plan_targets(cx, pkg, targets, asked).bins.len() ==> job_sound(
                plan_targets(cx, pkg, targets, asked).questions,
                #[trigger] plan_targets(cx, pkg, targets, asked).bins[j],
            ),
    decreases targets.len(),
{
    if targets.len() > 0 {
        let before = plan_targets(cx, pkg, targets.drop_last(), asked);
        let after = plan_targets(cx, pkg, targets, asked);
        let target = targets.last();
        lemma_plan_targets_sound(cx, pkg, targets.drop_last(), asked);
        if before.error is None {
            if let Ok(units) = target_units(cx, pkg as int, target as int) {
                let start = before.questions.len() as int;
                let jobs = target_jobs(pkg, target, units, start);
                let questions = target_questions(pkg, target, units);
                assert forall|j: int| 0 <= j < jobs.len() implies job_sound(
                    after.questions,
                    #[trigger] jobs[j],
                ) by {
                    assert(after.questions[start + j] == questions[j]);
                }
                assert forall|j: int| 0 <= j < after.libs.len() implies job_sound(
                    after.questions,
                    #[trigger] after.libs[j],
                ) by {
                    if j < before.libs.len() {
                        assert(after.libs[j] == before.libs[j]);
                        assert(job_sound(before.questions, before.libs[j]));
                    } else {
                        assert(after.libs[j] == jobs[j - before.libs.len()]);
                    }
                }
                assert forall|j: int| 0 <= j < after.bins.len() implies job_sound(
                    after.questions,
                    #[trigger] after.bins[j],
                ) by {
                    if j < before.bins.len() {
                        assert(after.bins[j] == before.bins[j]);
                        assert(job_sound(before.questions, before.bins[j]));
                    } else {
                        assert(after.bins[j] == jobs[j - before.bins.len()]);
                    }
                }
            }
        }
    }
}

proof fn lemma_sound_enqueue(script: ScriptView, pkg: usize, stage: Stage, jobs: Seq<JobPlan>)
    requires
        sound(script),
        forall|j: int| 0 <= j < jobs.len() ==> job_sound(script.questions, #[trigger] jobs[j]),
    ensures
        sound(script.enqueue(pkg, stage, jobs)),
{
    let more = script.enqueue(pkg, stage, jobs);
    assert forall|i: int| 0 <= i < more.stages.len() implies stage_sound(
        more.questions,
        #[trigger] more.stages[i],
    ) by {
        if i < script.stages.len() {
            assert(more.stages[i] == script.stages[i]);
        }
    }
}

proof fn lemma_plan_package_sound(
    cx: Context,
    pkg: usize,
    targets: Seq<usize>,
    script: ScriptView,
)
    requires
        sound(script),
    ensures
        sound(plan_package(cx, pkg, targets, script).0),
{
    if targets.len() > 0 {
        let count = cx.package(pkg as int).build@.len() as int;
        let initial = script.asking(init_questions(cx, pkg));
        let jobs = init_jobs(cx, pkg);
        lemma_sound_asking(script, init_questions(cx, pkg));
        lemma_sound_enqueue(initial, pkg, Stage::StageStart, jobs);
        let started = initial.enqueue(pkg, Stage::StageStart, jobs);
        if let Ok(works) = custom_works(cx, pkg as int, count) {
            let question = seq![Prepare::BuildCmd { pkg }];
            let asked = started.asking(question);
            lemma_sound_asking(started, question);
            let job = custom_job(cx, pkg, works, started.questions.len() as int);
            assert(asked.questions[started.questions.len() as int] == question[0]);
            lemma_sound_enqueue(asked, pkg, Stage::StageCustomBuild, seq![job]);
            let built = asked.enqueue(pkg, Stage::StageCustomBuild, seq![job]);
            let plan = plan_targets(cx, pkg, targets, built.questions);
            lemma_plan_targets_sound(cx, pkg, targets, built.questions);
            let more = plan.questions.skip(built.questions.len() as int);
            assert(plan.questions =~= built.questions + more);
            lemma_sound_asking(built, more);
            let all = ScriptView { questions: plan.questions, ..built };
            assert(all == built.asking(more));
            if plan.error is None {
                lemma_sound_enqueue(all, pkg, Stage::StageLibraries, plan.libs);
                let libs = all.enqueue(pkg, Stage::StageLibraries, plan.libs);
                lemma_sound_enqueue(libs, pkg, Stage::StageBinaries, plan.bins);
                let bins = libs.enqueue(pkg, Stage::StageBinaries, plan.bins);
                lemma_sound_enqueue(bins, pkg, Stage::StageEnd, Seq::empty());
            }
        }
    }
}

proof fn lemma_plan_dependencies_sound(cx: Context, root: usize, count: int)
    ensures
        sound(plan_dependencies(cx, root, count).0),
    decreases count,
{
    if count > 0 {
        lemma_plan_dependencies_sound(cx, root, count - 1);
        let (script, error) = plan_dependencies(cx, root, count - 1);
        let dep = count - 1;
        if error is None && dep != root && dependency_targets(cx, dep).len() > 0 {
            lemma_plan_package_sound(cx, dep as usize, dependency_targets(cx, dep), script);
        }
    }
}

/// Whether a job has to be done is decided by the question about its own fingerprint, so that what
/// has to be built anew is decided target by target; and the last thing that a job does is to record
/// that fingerprint.
pub proof fn law_jobs_ask_for_themselves(cx: Context, root: usize, targets: Seq<usize>)
    ensures
        sound(plan_build(cx, root, targets).0),
{
    let count = cx.ws.packages@.len() as int;
    lemma_plan_dependencies_sound(as_dependency(cx), root, count);
    let (script, error) = plan_dependencies(as_dependency(cx), root, count);
    if error is None {
        lemma_plan_package_sound(as_primary(cx), root, targets, script);
    }
}

/// The stages that a package goes through, in order.
pub open spec fn package_stages(pkg: usize) -> Seq<(usize, Stage)> {
    seq![
        (pkg, Stage::StageStart),
        (pkg, Stage::StageCustomBuild),
        (pkg, Stage::StageLibraries),
        (pkg, Stage::StageBinaries),
        (pkg, Stage::StageEnd),
    ]
}

/// The stages of the first `count` packages but `root`.
pub open spec fn dependency_stages(root: usize, count: int) -> Seq<(usize, Stage)>
    decreases count,
{
    if count <= 0 {
        Seq::empty()
    } else if count - 1 == root {
        dependency_stages(root, count - 1)
    } else {
        dependency_stages(root, count - 1) + package_stages((count - 1) as usize)
    }
}

/// The stages of a script, without their jobs.
pub open spec fn outline(script: ScriptView) -> Seq<(usize, Stage)> {
    script.stages.map_values(|stage: StagePlan| (stage.pkg, stage.stage))
}

proof fn lemma_plan_package_outline(
    cx: Context,
    pkg: usize,
    targets: Seq<usize>,
    script: ScriptView,
)
    requires
        targets.len() > 0,
        plan_package(cx, pkg, targets, script).1 is None,
    ensures
        outline(plan_package(cx, pkg, targets, script).0) == outline(script) + package_stages(pkg),
{
    assert(outline(plan_package(cx, pkg, targets, script).0) =~= outline(script) + package_stages(pkg));
}

proof fn lemma_plan_dependencies_outline(cx: Context, root: usize, count: int)
    requires
        plan_dependencies(cx, root, count).1 is None,
    ensures
        outline(plan_dependencies(cx, root, count).0) == dependency_stages(root, count),
    decreases count,
{
    if count > 0 {
        let (script, error) = plan_dependencies(cx, root, count - 1);
        let dep = count - 1;
        assert(error is None);
        lemma_plan_dependencies_outline(cx, root, count - 1);
        if dep != root {
            lemma_plan_package_outline(cx, dep as usize, dependency_targets(cx, dep), script);
        }
    } else {
        assert(outline(ScriptView::empty()) =~= Seq::empty());
    }
}

/// Where a build can be planned, each package goes through its stages once and in order, and the
/// package that was asked for comes last.
pub proof fn law_stages_in_order(cx: Context, root: usize, targets: Seq<usize>)
    requires
        targets.len() > 0,
        plan_build(cx, root, targets).1 is None,
    ensures
        outline(plan_build(cx, root, targets).0) == dependency_stages(
            root,
            cx.ws.packages@.len() as int,
        ) + package_stages(root),
{
    let count = cx.ws.packages@.len() as int;
    let (script, error) = plan_dependencies(as_dependency(cx), root, count);
    lemma_plan_dependencies_outline(as_dependency(cx), root, count);
    lemma_plan_package_outline(as_primary(cx), root, targets, script);
}

/// A question about a target is about one that is meant to be built: one of `targets` of `root`, or
/// one that is built where its package is a dependency.
pub open spec fn question_meant(
    cx: Context,
    root: usize,
    targets: Seq<usize>,
    question: Prepare,
) -> bool {
    match question {
        Prepare::Target { pkg, target, kind } => if pkg == root {
            targets.contains(target)
        } else {
            cx.target_data(pkg as int, target as int).relevant
        },
        _ => true,
    }
}

/// All questions about targets are about those that are meant to be built.
pub open spec fn questions_meant(
    cx: Context,
    root: usize,
    targets: Seq<usize>,
    questions: Seq<Prepare>,
) -> bool {
    forall|i: int|
        0 <= i < questions.len() ==> question_meant(cx, root, targets, #[trigger] questions[i])
}

proof fn lemma_plan_targets_meant(
    cx: Context,
    at: Context,
    root: usize,
    targets: Seq<usize>,
    pkg: usize,
    some: Seq<usize>,
    asked: Seq<Prepare>,
)
    requires
        questions_meant(cx, root, targets, asked),
        forall|i: int|
            0 <= i < some.len() ==> if pkg == root {
                targets.contains(#[trigger] some[i])
            } else {
                cx.target_data(pkg as int, some[i] as int).relevant
            },
    ensures
        questions_meant(cx, root, targets, plan_targets(at, pkg, some, asked).questions),
    decreases some.len(),
{
    if some.len() > 0 {
        let fewer = some.drop_last();
        assert forall|i: int| 0 <= i < fewer.len() implies if pkg == root {
            targets.contains(#[trigger] fewer[i])
        } else {
            cx.target_data(pkg as int, fewer[i] as int).relevant
        } by {
            assert(some[i] == fewer[i]);
        }
        lemma_plan_targets_meant(cx, at, root, targets, pkg, fewer, asked);
        let before = plan_targets(at, pkg, fewer, asked);
        let after = plan_targets(at, pkg, some, asked);
        assert(some[some.len() - 1] == some.last());
        if before.error is None && target_units(at, pkg as int, some.last() as int) is Ok {
            let units = target_units(at, pkg as int, some.last() as int)->Ok_0;
            let more = target_questions(pkg, some.last(), units);
            assert forall|i: int| 0 <= i < after.questions.len() implies question_meant(
                cx,
                root,
                targets,
                #[trigger] after.questions[i],
            ) by {
                if i < before.questions.len() {
                    assert(after.questions[i] == before.questions[i]);
                } else {
                    assert(after.questions[i] == more[i - before.questions.len()]);
                }
            }
        }
    }
}

proof fn lemma_plan_package_meant(
    cx: Context,
    at: Context,
    root: usize,
    targets: Seq<usize>,
    pkg: usize,
    some: Seq<usize>,
    script: ScriptView,
)
    requires
        questions_meant(cx, root, targets, script.questions),
        forall|i: int|
            0 <= i < some.len() ==> if pkg == root {
                targets.contains(#[trigger] some[i])
            } else {
                cx.target_data(pkg as int, some[i] as int).relevant
            },
    ensures
        questions_meant(cx, root, targets, plan_package(at, pkg, some, script).0.questions),
{
    let first = init_questions(at, pkg);
    let started = script.questions + first;
    assert forall|i: int| 0 <= i < started.len() implies question_meant(
        cx,
        root,
        targets,
        #[trigger] started[i],
    ) by {
        if i < script.questions.len() {
            assert(started[i] == script.questions[i]);
        } else {
            assert(started[i] == first[i - script.questions.len()]);
        }
    }
    let built = started + seq![Prepare::BuildCmd { pkg }];
    assert forall|i: int| 0 <= i < built.len() implies question_meant(
        cx,
        root,
        targets,
        #[trigger] built[i],
    ) by {
        if i < started.len() {
            assert(built[i] == started[i]);
        }
    }
    lemma_plan_targets_meant(cx, at, root, targets, pkg, some, built);
}

proof fn lemma_relevant_targets(cx: Context, pkg: int, count: int)
    requires
        count <= usize::MAX,
    ensures
        forall|i: int|
            0 <= i < relevant_targets(cx, pkg, count).len() ==> cx.target_data(
                pkg,
                #[trigger] relevant_targets(cx, pkg, count)[i] as int,
            ).relevant,
    decreases count,
{
    if count > 0 {
        lemma_relevant_targets(cx, pkg, count - 1);
    }
}

proof fn lemma_plan_dependencies_meant(cx: Context, root: usize, targets: Seq<usize>, count: int)
    requires
        count <= cx.ws.packages@.len(),
    ensures
        questions_meant(
            cx,
            root,
            targets,
            plan_dependencies(as_dependency(cx), root, count).0.questions,
        ),
    decreases count,
{
    if count > 0 {
        let at = as_dependency(cx);
        lemma_plan_dependencies_meant(cx, root, targets, count - 1);
        let (script, error) = plan_dependencies(at, root, count - 1);
        let dep = count - 1;
        if error is None && dep != root && dependency_targets(at, dep).len() > 0 {
            let some = dependency_targets(at, dep);
            assert(cx.ws.packages.len() == cx.ws.packages@.len());
            assert(at.package(dep).targets.len() == at.package(dep).targets@.len());
            lemma_relevant_targets(at, dep, at.package(dep).targets@.len() as int);
            lemma_plan_package_meant(cx, at, root, targets, dep as usize, some, script);
        }
    }
}

/// Of the package that was asked for only the targets that were asked for are built, and of the
/// others only those that are built where their package is a dependency.
pub proof fn law_only_what_is_meant_is_built(cx: Context, root: usize, targets: Seq<usize>)
    ensures
        questions_meant(cx, root, targets, plan_build(cx, root, targets).0.questions),
{
    let count = cx.ws.packages@.len() as int;
    lemma_plan_dependencies_meant(cx, root, targets, count);
    let (script, error) = plan_dependencies(as_dependency(cx), root, count);
    if error is None {
        assert forall|i: int| 0 <= i < targets.len() implies targets.contains(
            #[trigger] targets[i],
        ) by {}
        lemma_plan_package_meant(cx, as_primary(cx), root, targets, root, targets, script);
    }
}

} // verus!
