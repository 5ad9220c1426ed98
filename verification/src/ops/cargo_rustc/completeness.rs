//! Nothing that is meant to be built is left out of a plan.

use crate::context::Context;
use crate::ops::cargo_rustc::compile::{
    custom_job, custom_works, init_jobs, init_questions, plan_package, plan_targets, target_jobs,
    target_units,
};
use crate::ops::cargo_rustc::plan::{
    as_dependency, as_primary, dependency_targets, plan_build, plan_dependencies, relevant_targets,
};
use crate::ops::cargo_rustc::script::{JobPlan, ScriptView, Stage, StagePlan};
use crate::ops::cargo_rustc::units::law_kinds;
use crate::ops::cargo_rustc::work::Prepare;
use vstd::prelude::*;

verus! {

/// A job that builds a target.
pub open spec fn builds(job: JobPlan, pkg: usize, target: usize) -> bool {
    match job.fresh {
        Prepare::Target { pkg: its_pkg, target: its_target, kind } => its_pkg == pkg && its_target
            == target,
        _ => false,
    }
}

/// One of `jobs` builds a target.
pub open spec fn built_by(jobs: Seq<JobPlan>, pkg: usize, target: usize) -> bool {
    exists|j: int| 0 <= j < jobs.len() && builds(#[trigger] jobs[j], pkg, target)
}

/// The stage in which a target is built: libraries come before the others.
pub open spec fn stage_of(cx: Context, pkg: usize, target: usize) -> Stage {
    if cx.target(pkg as int, target as int).lib {
        Stage::StageLibraries
    } else {
        Stage::StageBinaries
    }
}

/// A stage of a package in which a target is built.
pub open spec fn stage_builds(stage: StagePlan, cx: Context, pkg: usize, target: usize) -> bool {
    stage.pkg == pkg && stage.stage == stage_of(cx, pkg, target) && built_by(stage.jobs, pkg, target)
}

/// The script has a job that builds a target, in the right stage of its package.
pub open spec fn script_builds(script: ScriptView, cx: Context, pkg: usize, target: usize) -> bool {
    exists|i: int|
        0 <= i < script.stages.len() && stage_builds(#[trigger] script.stages[i], cx, pkg, target)
}

pub(crate) proof fn lemma_units_nonempty(cx: Context, pkg: int, target: int)
    requires
        target_units(cx, pkg, target) is Ok,
    ensures
        target_units(cx, pkg, target)->Ok_0.len() > 0,
{
    let req = cx.target_data(pkg, target).requirement;
    law_kinds(cx, req);
}

proof fn lemma_plan_targets_complete(
    cx: Context,
    pkg: usize,
    targets: Seq<usize>,
    asked: Seq<Prepare>,
    at: int,
)
    requires
        plan_targets(cx, pkg, targets, asked).error is None,
        0 <= at < targets.len(),
    ensures
        ({
            let plan = plan_targets(cx, pkg, targets, asked);
            built_by(
                if cx.target(pkg as int, targets[at] as int).lib {
                    plan.libs
                } else {
                    plan.bins
                },
                pkg,
                targets[at],
            )
        }),
    decreases targets.len(),
{
    let front = targets.drop_last();
    let before = plan_targets(cx, pkg, front, asked);
    let plan = plan_targets(cx, pkg, targets, asked);
    let target = targets.last();
    let units = target_units(cx, pkg as int, target as int)->Ok_0;
    let jobs = target_jobs(pkg, target, units, before.questions.len() as int);
    let lib = cx.target(pkg as int, targets[at] as int).lib;
    let own = if lib {
        plan.libs
    } else {
        plan.bins
    };
    if at < front.len() {
        lemma_plan_targets_complete(cx, pkg, front, asked, at);
        let old = if lib {
            before.libs
        } else {
            before.bins
        };
        let j = choose|j: int| 0 <= j < old.len() && builds(#[trigger] old[j], pkg, front[at]);
        assert(own[j] == old[j]);
    } else {
        lemma_units_nonempty(cx, pkg as int, target as int);
        let old = if lib {
            before.libs
        } else {
            before.bins
        };
        assert(own == old + jobs);
        assert(own[old.len() as int] == jobs[0]);
        assert(builds(own[old.len() as int], pkg, target));
    }
}

proof fn lemma_plan_package_complete(
    cx: Context,
    pkg: usize,
    targets: Seq<usize>,
    script: ScriptView,
    at: int,
)
    requires
        plan_package(cx, pkg, targets, script).1 is None,
        0 <= at < targets.len(),
    ensures
        script_builds(plan_package(cx, pkg, targets, script).0, cx, pkg, targets[at]),
{
    let started = script.asking(init_questions(cx, pkg)).enqueue(
        pkg,
        Stage::StageStart,
        init_jobs(cx, pkg),
    );
    let count = cx.package(pkg as int).build@.len() as int;
    let works = custom_works(cx, pkg as int, count)->Ok_0;
    let job = custom_job(cx, pkg, works, started.questions.len() as int);
    let built = started.asking(seq![Prepare::BuildCmd { pkg }]).enqueue(
        pkg,
        Stage::StageCustomBuild,
        seq![job],
    );
    lemma_plan_targets_complete(cx, pkg, targets, built.questions, at);
    let after = plan_package(cx, pkg, targets, script).0;
    let first = built.stages.len() as int;
    if cx.target(pkg as int, targets[at] as int).lib {
        assert(stage_builds(after.stages[first], cx, pkg, targets[at]));
    } else {
        assert(stage_builds(after.stages[first + 1], cx, pkg, targets[at]));
    }
}

/// Adding a package keeps what was planned before.
proof fn lemma_plan_package_keeps(cx: Context, pkg: usize, targets: Seq<usize>, script: ScriptView)
    ensures
        script.stages.is_prefix_of(plan_package(cx, pkg, targets, script).0.stages),
{
}

proof fn lemma_script_builds_prefix(
    fewer: ScriptView,
    more: ScriptView,
    cx: Context,
    pkg: usize,
    target: usize,
)
    requires
        fewer.stages.is_prefix_of(more.stages),
        script_builds(fewer, cx, pkg, target),
    ensures
        script_builds(more, cx, pkg, target),
{
    let i = choose|i: int|
        0 <= i < fewer.stages.len() && stage_builds(#[trigger] fewer.stages[i], cx, pkg, target);
    assert(more.stages[i] == fewer.stages[i]);
}

proof fn lemma_relevant_targets_complete(cx: Context, pkg: int, count: int, target: usize)
    requires
        target < count <= usize::MAX,
        cx.target_data(pkg, target as int).relevant,
    ensures
        relevant_targets(cx, pkg, count).contains(target),
    decreases count,
{
    let all = relevant_targets(cx, pkg, count);
    if target < count - 1 {
        lemma_relevant_targets_complete(cx, pkg, count - 1, target);
        let fewer = relevant_targets(cx, pkg, count - 1);
        let k = choose|k: int| 0 <= k < fewer.len() && fewer[k] == target;
        assert(all[k] == target);
    } else {
        assert(all.last() == target);
    }
}

proof fn lemma_plan_dependencies_complete(
    cx: Context,
    root: usize,
    count: int,
    pkg: usize,
    target: usize,
)
    requires
        plan_dependencies(cx, root, count).1 is None,
        pkg < count <= cx.ws.packages@.len(),
        pkg != root,
        cx.has_target(pkg as int, target as int),
        cx.target_data(pkg as int, target as int).relevant,
    ensures
        script_builds(plan_dependencies(cx, root, count).0, cx, pkg, target),
    decreases count,
{
    let (script, error) = plan_dependencies(cx, root, count - 1);
    let dep = count - 1;
    assert(cx.ws.packages.len() == cx.ws.packages@.len());
    if pkg < dep {
        lemma_plan_dependencies_complete(cx, root, count - 1, pkg, target);
        if dep != root {
            let some = dependency_targets(cx, dep);
            lemma_plan_package_keeps(cx, dep as usize, some, script);
            lemma_script_builds_prefix(
                script,
                plan_package(cx, dep as usize, some, script).0,
                cx,
                pkg,
                target,
            );
        }
    } else {
        let some = dependency_targets(cx, dep);
        assert(cx.package(dep).targets.len() == cx.package(dep).targets@.len());
        lemma_relevant_targets_complete(cx, dep, cx.package(dep).targets@.len() as int, target);
        let at = choose|at: int| 0 <= at < some.len() && some[at] == target;
        lemma_plan_package_complete(cx, pkg, some, script, at);
    }
}

/// Where a build can be planned, each target that was asked for has a job, and so has each target of
/// another package that is built where its package is a dependency; the libraries of a package have
/// theirs in the stage before the others.
pub proof fn law_all_that_is_meant_is_built(cx: Context, root: usize, targets: Seq<usize>)
    requires
        targets.len() > 0,
        plan_build(cx, root, targets).1 is None,
    ensures
        forall|at: int|
            0 <= at < targets.len() ==> script_builds(
                plan_build(cx, root, targets).0,
                cx,
                root,
                #[trigger] targets[at],
            ),
        forall|pkg: usize, target: usize|
            pkg != root && #[trigger] cx.has_target(pkg as int, target as int) && cx.target_data(
                pkg as int,
                target as int,
            ).relevant ==> script_builds(plan_build(cx, root, targets).0, cx, pkg, target),
{
    let deps = as_dependency(cx);
    let primary = as_primary(cx);
    let count = cx.ws.packages@.len() as int;
    let (script, error) = plan_dependencies(deps, root, count);
    let all = plan_build(cx, root, targets).0;
    assert forall|at: int| 0 <= at < targets.len() implies script_builds(
        all,
        cx,
        root,
        #[trigger] targets[at],
    ) by {
        lemma_plan_package_complete(primary, root, targets, script, at);
        lemma_script_builds_same(all, primary, cx, root, targets[at]);
    }
    assert forall|pkg: usize, target: usize|
        pkg != root && #[trigger] cx.has_target(pkg as int, target as int) && cx.target_data(
            pkg as int,
            target as int,
        ).relevant implies script_builds(all, cx, pkg, target) by {
        assert(deps.has_target(pkg as int, target as int));
        lemma_plan_dependencies_complete(deps, root, count, pkg, target);
        lemma_plan_package_keeps(primary, root, targets, script);
        lemma_script_builds_prefix(script, all, deps, pkg, target);
        lemma_script_builds_same(all, deps, cx, pkg, target);
    }
}

proof fn lemma_script_builds_same(
    script: ScriptView,
    a: Context,
    b: Context,
    pkg: usize,
    target: usize,
)
    requires
        a.ws == b.ws,
        script_builds(script, a, pkg, target),
    ensures
        script_builds(script, b, pkg, target),
{
    let i = choose|i: int|
        0 <= i < script.stages.len() && stage_builds(#[trigger] script.stages[i], a, pkg, target);
    assert(stage_builds(script.stages[i], b, pkg, target));
}

} // verus!
