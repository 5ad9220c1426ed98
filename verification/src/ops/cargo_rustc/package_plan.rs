//! What the plan of a build holds for each of its packages.

use crate::context::{Context, Kind};
use crate::error::ErrorView;
use crate::ops::cargo_rustc::compile::{
    custom_job, custom_works, init_job, init_jobs, init_questions, law_build_commands_in_order,
    plan_package, plan_targets, target_jobs, target_questions, target_units,
    TargetsPlan,
};
use crate::ops::cargo_rustc::completeness::lemma_units_nonempty;
use crate::ops::cargo_rustc::custom::{custom_work, law_custom_needs_profile};
use crate::ops::cargo_rustc::plan::{
    as_dependency, as_primary, dependency_targets, lemma_plan_dependencies_fail, plan_build,
    plan_dependencies, relevant_targets,
};
use crate::ops::cargo_rustc::script::{JobPlan, ScriptView, Stage, StagePlan};
use crate::ops::cargo_rustc::units::{rustc_units, rustdoc_unit};
use crate::ops::cargo_rustc::work::{Prepare, UnitView, WorkView};
use vstd::prelude::*;

verus! {

/// The job asks about its own fingerprint.
pub open spec fn asks_for(job: JobPlan, questions: Seq<Prepare>, prepare: Prepare) -> bool {
    &&& job.fresh == prepare
    &&& job.question is Some
    &&& 0 <= job.question->0 < questions.len()
    &&& questions[job.question->0] == prepare
}

/// The stage runs the build commands of a package: its one job does the work of each of them, in the
/// order of the manifest and as many as there are, and then records that they were run.
pub open spec fn runs_build_commands(
    stage: StagePlan,
    questions: Seq<Prepare>,
    cx: Context,
    pkg: usize,
) -> bool {
    let build = cx.ws.packages@[pkg as int].build@;
    let job = stage.jobs[0];
    &&& stage.pkg == pkg
    &&& stage.stage == Stage::StageCustomBuild
    &&& stage.jobs.len() == 1
    &&& job.dirty.len() == build.len() + 1
    &&& forall|i: int|
        0 <= i < build.len() ==> Ok::<WorkView, ErrorView>(#[trigger] job.dirty[i]) == custom_work(
            cx,
            pkg as int,
            build[i]@,
            i == 0,
        )
    &&& job.dirty.last() == WorkView::Fingerprint(Prepare::BuildCmd { pkg })
    &&& asks_for(job, questions, Prepare::BuildCmd { pkg })
    &&& job.desc is Text
    &&& build.len() == 0 ==> job.desc->Text_0.len() == 0
    &&& build.len() == 1 ==> job.desc->Text_0 == build[0]@
    &&& build.len() > 1 ==> job.desc->Text_0 == "custom build commands"@
}

/// The job does the work of a run of a tool for a target, and then records that it was done.
pub open spec fn runs_unit(
    job: JobPlan,
    questions: Seq<Prepare>,
    pkg: usize,
    target: usize,
    unit: UnitView,
) -> bool {
    let prepare = Prepare::Target { pkg, target, kind: unit.kind };
    &&& job.dirty.len() == 2
    &&& job.dirty[0] == unit.work
    &&& job.dirty[1] == WorkView::Fingerprint(prepare)
    &&& job.desc == unit.desc
    &&& asks_for(job, questions, prepare)
}

/// One of `jobs` does the work of a run of a tool for a target.
pub open spec fn some_job_runs(
    jobs: Seq<JobPlan>,
    questions: Seq<Prepare>,
    pkg: usize,
    target: usize,
    unit: UnitView,
) -> bool {
    exists|j: int|
        0 <= j < jobs.len() && runs_unit(#[trigger] jobs[j], questions, pkg, target, unit)
}

/// For each run of a tool that a target needs there is one of `jobs`.
#[verifier::opaque]
pub open spec fn target_is_run(
    jobs: Seq<JobPlan>,
    questions: Seq<Prepare>,
    cx: Context,
    pkg: usize,
    target: usize,
) -> bool {
    let units = target_units(cx, pkg as int, target as int);
    &&& units is Ok
    &&& units->Ok_0.len() > 0
    &&& forall|u: int|
        0 <= u < units->Ok_0.len() ==> some_job_runs(
            jobs,
            questions,
            pkg,
            target,
            #[trigger] units->Ok_0[u],
        )
}

/// The job does the work of a run of a tool for one of `targets`, all of which are libraries or not
/// as `lib` says.
#[verifier::opaque]
pub open spec fn runs_one_of(
    job: JobPlan,
    questions: Seq<Prepare>,
    cx: Context,
    pkg: usize,
    targets: Seq<usize>,
    lib: bool,
) -> bool {
    exists|at: int, u: int|
        #![trigger targets[at], target_units(cx, pkg as int, targets[at] as int)->Ok_0[u]]
        {
            let units = target_units(cx, pkg as int, targets[at] as int)->Ok_0;
            &&& 0 <= at < targets.len()
            &&& cx.ws.packages@[pkg as int].targets@[targets[at] as int].lib == lib
            &&& 0 <= u < units.len()
            &&& runs_unit(job, questions, pkg, targets[at], units[u])
        }
}

/// The stage makes the directories for the fingerprints of a package: for the platform that is built
/// for, and for plugins too if that is not the host.
pub open spec fn makes_directories(stage: StagePlan, cx: Context, pkg: usize) -> bool {
    let cross = cx.ws.config.target is Some;
    &&& stage.pkg == pkg
    &&& stage.stage == Stage::StageStart
    &&& stage.jobs.len() == (if cross {
        2int
    } else {
        1int
    })
    &&& makes_directory(stage.jobs[0], pkg, Kind::KindTarget)
    &&& cross ==> makes_directory(stage.jobs[1], pkg, Kind::KindPlugin)
}

/// The job makes a directory for fingerprints, or does nothing; it does not ask whether to.
pub open spec fn makes_directory(job: JobPlan, pkg: usize, kind: Kind) -> bool {
    &&& job.fresh == Prepare::Init { pkg, kind }
    &&& job.dirty.len() == 1
    &&& job.dirty[0] == WorkView::Fingerprint(Prepare::Init { pkg, kind })
    &&& job.question is None
    &&& job.desc is Text
    &&& job.desc->Text_0.len() == 0
}

/// Each of `targets` is run, by the jobs for libraries or by the others.
#[verifier::opaque]
spec fn covered(
    cx: Context,
    pkg: usize,
    targets: Seq<usize>,
    libs: Seq<JobPlan>,
    bins: Seq<JobPlan>,
    questions: Seq<Prepare>,
) -> bool {
    forall|at: int|
        0 <= at < targets.len() ==> target_is_run(
            if cx.ws.packages@[pkg as int].targets@[#[trigger] targets[at] as int].lib {
                libs
            } else {
                bins
            },
            questions,
            cx,
            pkg,
            targets[at],
        )
}

/// Each of `jobs` runs one of `targets`.
#[verifier::opaque]
spec fn all_run_one_of(
    jobs: Seq<JobPlan>,
    questions: Seq<Prepare>,
    cx: Context,
    pkg: usize,
    targets: Seq<usize>,
    lib: bool,
) -> bool {
    forall|j: int|
        0 <= j < jobs.len() ==> runs_one_of(#[trigger] jobs[j], questions, cx, pkg, targets, lib)
}

/// What holds of the jobs for the targets of a package.
spec fn targets_planned(
    cx: Context,
    pkg: usize,
    targets: Seq<usize>,
    plan: TargetsPlan,
    more: Seq<Prepare>,
) -> bool {
    let questions = plan.questions + more;
    &&& covered(cx, pkg, targets, plan.libs, plan.bins, questions)
    &&& all_run_one_of(plan.libs, questions, cx, pkg, targets, true)
    &&& all_run_one_of(plan.bins, questions, cx, pkg, targets, false)
}

proof fn lemma_runs_one_of_more(
    job: JobPlan,
    questions: Seq<Prepare>,
    cx: Context,
    pkg: usize,
    fewer: Seq<usize>,
    targets: Seq<usize>,
    lib: bool,
)
    requires
        runs_one_of(job, questions, cx, pkg, fewer, lib),
        fewer.is_prefix_of(targets),
    ensures
        runs_one_of(job, questions, cx, pkg, targets, lib),
{
    reveal(runs_one_of);
    let (at, u) = choose|at: int, u: int|
        #![trigger fewer[at], target_units(cx, pkg as int, fewer[at] as int)->Ok_0[u]]
        {
            let units = target_units(cx, pkg as int, fewer[at] as int)->Ok_0;
            &&& 0 <= at < fewer.len()
            &&& cx.ws.packages@[pkg as int].targets@[fewer[at] as int].lib == lib
            &&& 0 <= u < units.len()
            &&& runs_unit(job, questions, pkg, fewer[at], units[u])
        };
    assert(targets[at] == fewer[at]);
    let unit = target_units(cx, pkg as int, targets[at] as int)->Ok_0[u];
}

proof fn lemma_target_is_run_more(
    jobs: Seq<JobPlan>,
    after: Seq<JobPlan>,
    questions: Seq<Prepare>,
    cx: Context,
    pkg: usize,
    target: usize,
)
    requires
        target_is_run(jobs, questions, cx, pkg, target),
    ensures
        target_is_run(jobs + after, questions, cx, pkg, target),
{
    reveal(target_is_run);
    let units = target_units(cx, pkg as int, target as int)->Ok_0;
    assert forall|u: int| 0 <= u < units.len() implies some_job_runs(
        jobs + after,
        questions,
        pkg,
        target,
        #[trigger] units[u],
    ) by {
        assert(some_job_runs(jobs, questions, pkg, target, units[u]));
        let j = choose|j: int|
            0 <= j < jobs.len() && runs_unit(#[trigger] jobs[j], questions, pkg, target, units[u]);
        assert((jobs + after)[j] == jobs[j]);
    }
}

/// The jobs for the runs of tools of a target do their work.
proof fn lemma_own_jobs(
    pkg: usize,
    target: usize,
    units: Seq<UnitView>,
    before: Seq<Prepare>,
    more: Seq<Prepare>,
)
    ensures
        ({
            let jobs = target_jobs(pkg, target, units, before.len() as int);
            let questions = before + target_questions(pkg, target, units) + more;
            &&& jobs.len() == units.len()
            &&& forall|u: int|
                0 <= u < units.len() ==> runs_unit(
                    #[trigger] jobs[u],
                    questions,
                    pkg,
                    target,
                    units[u],
                )
        }),
{
    let own = target_questions(pkg, target, units);
    let questions = before + own + more;
    let jobs = target_jobs(pkg, target, units, before.len() as int);
    assert forall|u: int| 0 <= u < units.len() implies runs_unit(
        #[trigger] jobs[u],
        questions,
        pkg,
        target,
        units[u],
    ) by {
        assert(questions[before.len() + u] == own[u]);
    }
}

proof fn lemma_own_target_is_run(
    old: Seq<JobPlan>,
    jobs: Seq<JobPlan>,
    questions: Seq<Prepare>,
    cx: Context,
    pkg: usize,
    target: usize,
    units: Seq<UnitView>,
)
    requires
        target_units(cx, pkg as int, target as int) == Ok::<Seq<UnitView>, ErrorView>(units),
        units.len() > 0,
        jobs.len() == units.len(),
        forall|u: int|
            0 <= u < units.len() ==> runs_unit(#[trigger] jobs[u], questions, pkg, target, units[u]),
    ensures
        target_is_run(old + jobs, questions, cx, pkg, target),
{
    reveal(target_is_run);
    let new = old + jobs;
    assert forall|u: int| 0 <= u < units.len() implies some_job_runs(
        new,
        questions,
        pkg,
        target,
        #[trigger] units[u],
    ) by {
        assert(new[old.len() + u] == jobs[u]);
        assert(runs_unit(new[old.len() + u], questions, pkg, target, units[u]));
    }
}

proof fn lemma_own_runs_one_of(
    job: JobPlan,
    questions: Seq<Prepare>,
    cx: Context,
    pkg: usize,
    targets: Seq<usize>,
    at: int,
    units: Seq<UnitView>,
    u: int,
)
    requires
        0 <= at < targets.len(),
        target_units(cx, pkg as int, targets[at] as int) == Ok::<Seq<UnitView>, ErrorView>(units),
        0 <= u < units.len(),
        runs_unit(job, questions, pkg, targets[at], units[u]),
    ensures
        runs_one_of(
            job,
            questions,
            cx,
            pkg,
            targets,
            cx.ws.packages@[pkg as int].targets@[targets[at] as int].lib,
        ),
{
    reveal(runs_one_of);
    assert(target_units(cx, pkg as int, targets[at] as int)->Ok_0[u] == units[u]);
}

/// Jobs that were there do their work for one of more targets.
proof fn lemma_jobs_of_more(
    old: Seq<JobPlan>,
    jobs: Seq<JobPlan>,
    questions: Seq<Prepare>,
    cx: Context,
    pkg: usize,
    targets: Seq<usize>,
    units: Seq<UnitView>,
)
    requires
        targets.len() > 0,
        target_units(cx, pkg as int, targets.last() as int) == Ok::<Seq<UnitView>, ErrorView>(
            units,
        ),
        jobs.len() == units.len(),
        forall|u: int|
            0 <= u < units.len() ==> runs_unit(
                #[trigger] jobs[u],
                questions,
                pkg,
                targets.last(),
                units[u],
            ),
        all_run_one_of(
            old,
            questions,
            cx,
            pkg,
            targets.drop_last(),
            cx.ws.packages@[pkg as int].targets@[targets.last() as int].lib,
        ),
    ensures
        all_run_one_of(
            old + jobs,
            questions,
            cx,
            pkg,
            targets,
            cx.ws.packages@[pkg as int].targets@[targets.last() as int].lib,
        ),
{
    reveal(all_run_one_of);
    let lib = cx.ws.packages@[pkg as int].targets@[targets.last() as int].lib;
    let all = old + jobs;
    assert forall|j: int| 0 <= j < all.len() implies runs_one_of(
        #[trigger] all[j],
        questions,
        cx,
        pkg,
        targets,
        lib,
    ) by {
        if j < old.len() {
            assert(all[j] == old[j]);
            lemma_runs_one_of_more(
                all[j],
                questions,
                cx,
                pkg,
                targets.drop_last(),
                targets,
                lib,
            );
        } else {
            assert(all[j] == jobs[j - old.len()]);
            assert(targets[targets.len() - 1] == targets.last());
            lemma_own_runs_one_of(
                all[j],
                questions,
                cx,
                pkg,
                targets,
                targets.len() - 1,
                units,
                j - old.len(),
            );
        }
    }
}

proof fn lemma_targets_planned(
    cx: Context,
    pkg: usize,
    targets: Seq<usize>,
    asked: Seq<Prepare>,
    more: Seq<Prepare>,
)
    requires
        plan_targets(cx, pkg, targets, asked).error is None,
    ensures
        targets_planned(cx, pkg, targets, plan_targets(cx, pkg, targets, asked), more),
    decreases targets.len(),
{
    reveal(covered);
    reveal(all_run_one_of);
    if targets.len() > 0 {
        let plan = plan_targets(cx, pkg, targets, asked);
        let front = targets.drop_last();
        let before = plan_targets(cx, pkg, front, asked);
        let target = targets.last();
        assert(before.error is None);
        assert(target_units(cx, pkg as int, target as int) is Ok);
        let units = target_units(cx, pkg as int, target as int)->Ok_0;
        let own = target_questions(pkg, target, units);
        lemma_targets_planned(cx, pkg, front, asked, own + more);
        lemma_units_nonempty(cx, pkg as int, target as int);
        let jobs = target_jobs(pkg, target, units, before.questions.len() as int);
        assert(plan.questions == before.questions + own);
        if cx.target(pkg as int, target as int).lib {
            assert(plan.libs == before.libs + jobs);
            assert(plan.bins == before.bins);
        } else {
            assert(plan.bins == before.bins + jobs);
            assert(plan.libs == before.libs);
        }
        lemma_targets_planned_step(cx, pkg, targets, before, plan, units, more);
    }
}

/// A target that was run by the jobs that were there is run when further ones are added to the
/// libraries or to the others.
proof fn lemma_cover_step(
    cx: Context,
    pkg: usize,
    targets: Seq<usize>,
    old_libs: Seq<JobPlan>,
    old_bins: Seq<JobPlan>,
    more_libs: Seq<JobPlan>,
    more_bins: Seq<JobPlan>,
    questions: Seq<Prepare>,
)
    requires
        covered(cx, pkg, targets, old_libs, old_bins, questions),
    ensures
        covered(cx, pkg, targets, old_libs + more_libs, old_bins + more_bins, questions),
{
    reveal(covered);
    assert forall|at: int| 0 <= at < targets.len() implies target_is_run(
        if cx.ws.packages@[pkg as int].targets@[#[trigger] targets[at] as int].lib {
            old_libs + more_libs
        } else {
            old_bins + more_bins
        },
        questions,
        cx,
        pkg,
        targets[at],
    ) by {
        if cx.ws.packages@[pkg as int].targets@[targets[at] as int].lib {
            lemma_target_is_run_more(old_libs, more_libs, questions, cx, pkg, targets[at]);
        } else {
            lemma_target_is_run_more(old_bins, more_bins, questions, cx, pkg, targets[at]);
        }
    }
}

proof fn lemma_cover_push(
    cx: Context,
    pkg: usize,
    front: Seq<usize>,
    target: usize,
    libs: Seq<JobPlan>,
    bins: Seq<JobPlan>,
    questions: Seq<Prepare>,
)
    requires
        covered(cx, pkg, front, libs, bins, questions),
        target_is_run(
            if cx.ws.packages@[pkg as int].targets@[target as int].lib {
                libs
            } else {
                bins
            },
            questions,
            cx,
            pkg,
            target,
        ),
    ensures
        covered(cx, pkg, front.push(target), libs, bins, questions),
{
    reveal(covered);
    let targets = front.push(target);
    assert forall|at: int| 0 <= at < targets.len() implies target_is_run(
        if cx.ws.packages@[pkg as int].targets@[#[trigger] targets[at] as int].lib {
            libs
        } else {
            bins
        },
        questions,
        cx,
        pkg,
        targets[at],
    ) by {
        if at < front.len() {
            assert(front[at] == targets[at]);
        }
    }
}

proof fn lemma_all_run_more(
    jobs: Seq<JobPlan>,
    questions: Seq<Prepare>,
    cx: Context,
    pkg: usize,
    fewer: Seq<usize>,
    targets: Seq<usize>,
    lib: bool,
)
    requires
        all_run_one_of(jobs, questions, cx, pkg, fewer, lib),
        fewer.is_prefix_of(targets),
    ensures
        all_run_one_of(jobs, questions, cx, pkg, targets, lib),
{
    reveal(all_run_one_of);
    assert forall|j: int| 0 <= j < jobs.len() implies runs_one_of(
        #[trigger] jobs[j],
        questions,
        cx,
        pkg,
        targets,
        lib,
    ) by {
        lemma_runs_one_of_more(jobs[j], questions, cx, pkg, fewer, targets, lib);
    }
}

proof fn lemma_targets_planned_step(
    cx: Context,
    pkg: usize,
    targets: Seq<usize>,
    before: TargetsPlan,
    plan: TargetsPlan,
    units: Seq<UnitView>,
    more: Seq<Prepare>,
)
    requires
        targets.len() > 0,
        target_units(cx, pkg as int, targets.last() as int) == Ok::<Seq<UnitView>, ErrorView>(
            units,
        ),
        units.len() > 0,
        ({
            let own = target_questions(pkg, targets.last(), units);
            let jobs = target_jobs(pkg, targets.last(), units, before.questions.len() as int);
            &&& targets_planned(cx, pkg, targets.drop_last(), before, own + more)
            &&& plan.questions == before.questions + own
            &&& if cx.ws.packages@[pkg as int].targets@[targets.last() as int].lib {
                plan.libs == before.libs + jobs && plan.bins == before.bins
            } else {
                plan.bins == before.bins + jobs && plan.libs == before.libs
            }
        }),
    ensures
        targets_planned(cx, pkg, targets, plan, more),
{
    let front = targets.drop_last();
    let target = targets.last();
    let own = target_questions(pkg, target, units);
    let jobs = target_jobs(pkg, target, units, before.questions.len() as int);
    let questions = plan.questions + more;
    let none = Seq::<JobPlan>::empty();
    assert(before.questions + (own + more) =~= questions);
    assert(front.push(target) =~= targets);
    assert(front.is_prefix_of(targets));
    lemma_own_jobs(pkg, target, units, before.questions, more);
    if cx.ws.packages@[pkg as int].targets@[target as int].lib {
        lemma_own_target_is_run(before.libs, jobs, questions, cx, pkg, target, units);
        lemma_jobs_of_more(before.libs, jobs, questions, cx, pkg, targets, units);
        lemma_all_run_more(before.bins, questions, cx, pkg, front, targets, false);
        assert(before.bins + none =~= before.bins);
        lemma_cover_step(cx, pkg, front, before.libs, before.bins, jobs, none, questions);
    } else {
        lemma_own_target_is_run(before.bins, jobs, questions, cx, pkg, target, units);
        lemma_jobs_of_more(before.bins, jobs, questions, cx, pkg, targets, units);
        lemma_all_run_more(before.libs, questions, cx, pkg, front, targets, true);
        assert(before.libs + none =~= before.libs);
        lemma_cover_step(cx, pkg, front, before.libs, before.bins, none, jobs, questions);
    }
    lemma_cover_push(cx, pkg, front, target, plan.libs, plan.bins, questions);
}

/// The five stages of `stages` from `at` on are those of a package: the directories for fingerprints
/// are made, the build commands are run, then each library is built, then each other target, and
/// nothing else is done.
#[verifier::opaque]
pub open spec fn package_is_planned(
    stages: Seq<StagePlan>,
    at: int,
    questions: Seq<Prepare>,
    cx: Context,
    pkg: usize,
    targets: Seq<usize>,
) -> bool {
    &&& 0 <= at
    &&& at + 5 <= stages.len()
    &&& makes_directories(stages[at], cx, pkg)
    &&& runs_build_commands(stages[at + 1], questions, cx, pkg)
    &&& stages[at + 2].pkg == pkg && stages[at + 2].stage == Stage::StageLibraries
    &&& stages[at + 3].pkg == pkg && stages[at + 3].stage == Stage::StageBinaries
    &&& stages[at + 4].pkg == pkg && stages[at + 4].stage == Stage::StageEnd
    &&& stages[at + 4].jobs.len() == 0
    &&& forall|k: int|
        0 <= k < targets.len() ==> target_is_run(
            stages[if cx.ws.packages@[pkg as int].targets@[#[trigger] targets[k] as int].lib {
                at + 2
            } else {
                at + 3
            }].jobs,
            questions,
            cx,
            pkg,
            targets[k],
        )
    &&& forall|j: int|
        0 <= j < stages[at + 2].jobs.len() ==> runs_one_of(
            #[trigger] stages[at + 2].jobs[j],
            questions,
            cx,
            pkg,
            targets,
            true,
        )
    &&& forall|j: int|
        0 <= j < stages[at + 3].jobs.len() ==> runs_one_of(
            #[trigger] stages[at + 3].jobs[j],
            questions,
            cx,
            pkg,
            targets,
            false,
        )
}

/// Where a package can be planned, whether it was asked for or is a dependency, its stages are added
/// behind those that are there: first the directories, then all its build commands, then its
/// libraries, then its other targets. Further questions and stages do not change that.
pub proof fn law_package_is_planned(
    cx: Context,
    pkg: usize,
    targets: Seq<usize>,
    script: ScriptView,
    later_stages: Seq<StagePlan>,
    later_questions: Seq<Prepare>,
)
    requires
        targets.len() > 0,
        plan_package(cx, pkg, targets, script).1 is None,
    ensures
        ({
            let after = plan_package(cx, pkg, targets, script).0;
            &&& after.stages.len() == script.stages.len() + 5
            &&& script.stages.is_prefix_of(after.stages)
            &&& script.questions.is_prefix_of(after.questions)
            &&& package_is_planned(
                after.stages + later_stages,
                script.stages.len() as int,
                after.questions + later_questions,
                cx,
                pkg,
                targets,
            )
        }),
{
    reveal(package_is_planned);
    reveal(covered);
    reveal(all_run_one_of);
    let after = plan_package(cx, pkg, targets, script).0;
    let n = script.stages.len() as int;
    let started = script.asking(init_questions(cx, pkg)).enqueue(
        pkg,
        Stage::StageStart,
        init_jobs(cx, pkg),
    );
    let count = cx.ws.packages@[pkg as int].build@.len() as int;
    let works = custom_works(cx, pkg as int, count)->Ok_0;
    let q = started.questions.len() as int;
    let job = custom_job(cx, pkg, works, q);
    let built = started.asking(seq![Prepare::BuildCmd { pkg }]).enqueue(
        pkg,
        Stage::StageCustomBuild,
        seq![job],
    );
    let plan = plan_targets(cx, pkg, targets, built.questions);
    law_build_commands_in_order(cx, pkg as int, count);
    lemma_targets_planned(cx, pkg, targets, built.questions, later_questions);
    lemma_plan_targets_questions(cx, pkg, targets, built.questions);
    let stages = after.stages + later_stages;
    let questions = after.questions + later_questions;
    assert(stages[n] == started.stages[n]);
    assert(stages[n].jobs[0] == init_job(pkg, Kind::KindTarget));
    assert(makes_directories(stages[n], cx, pkg));
    assert(stages[n + 1] == built.stages[n + 1]);
    assert(stages[n + 1].jobs[0] == job);
    assert(built.questions[q] == Prepare::BuildCmd { pkg });
    assert(plan.questions[q] == built.questions[q]);
    assert(questions[q] == plan.questions[q]);
    assert(runs_build_commands(stages[n + 1], questions, cx, pkg)) by {
        assert forall|i: int| 0 <= i < count implies Ok::<WorkView, ErrorView>(
            #[trigger] job.dirty[i],
        ) == custom_work(cx, pkg as int, cx.ws.packages@[pkg as int].build@[i]@, i == 0) by {
            assert(job.dirty[i] == works[i]);
        }
    }
    assert(stages[n + 2].jobs == plan.libs);
    assert(stages[n + 3].jobs == plan.bins);
    assert(stages[n + 4].jobs.len() == 0);
    assert(after.questions == plan.questions);
}

proof fn lemma_plan_targets_questions(
    cx: Context,
    pkg: usize,
    targets: Seq<usize>,
    asked: Seq<Prepare>,
)
    ensures
        asked.is_prefix_of(plan_targets(cx, pkg, targets, asked).questions),
        forall|i: int|
            asked.len() <= i < plan_targets(cx, pkg, targets, asked).questions.len() ==> {
                let question = #[trigger] plan_targets(cx, pkg, targets, asked).questions[i];
                question is Target && question->Target_pkg == pkg && targets.contains(
                    question->target,
                )
            },
    decreases targets.len(),
{
    if targets.len() > 0 {
        let front = targets.drop_last();
        let before = plan_targets(cx, pkg, front, asked);
        let after = plan_targets(cx, pkg, targets, asked);
        lemma_plan_targets_questions(cx, pkg, front, asked);
        assert forall|i: int| asked.len() <= i < after.questions.len() implies {
            let question = #[trigger] after.questions[i];
            question is Target && question->Target_pkg == pkg && targets.contains(question->target)
        } by {
            if i < before.questions.len() {
                assert(after.questions[i] == before.questions[i]);
                let k = choose|k: int| 0 <= k < front.len() && front[k]
                    == before.questions[i]->target;
                assert(targets[k] == front[k]);
            } else {
                let units = target_units(cx, pkg as int, targets.last() as int)->Ok_0;
                let own = target_questions(pkg, targets.last(), units);
                assert(after.questions[i] == own[i - before.questions.len()]);
                assert(targets[targets.len() - 1] == targets.last());
            }
        }
    }
}

/// The questions about a package come behind those that are there: first about the directories for
/// fingerprints, then about its build commands, and then about its targets.
pub proof fn law_questions_of_a_package(
    cx: Context,
    pkg: usize,
    targets: Seq<usize>,
    script: ScriptView,
)
    requires
        targets.len() > 0,
        plan_package(cx, pkg, targets, script).1 is None,
    ensures
        ({
            let questions = plan_package(cx, pkg, targets, script).0.questions;
            let n = script.questions.len() as int;
            let m = if cx.ws.config.target is Some {
                n + 2
            } else {
                n + 1
            };
            &&& script.questions.is_prefix_of(questions)
            &&& m < questions.len()
            &&& questions[n] == Prepare::Init { pkg, kind: Kind::KindTarget }
            &&& cx.ws.config.target is Some ==> questions[n + 1] == Prepare::Init {
                pkg,
                kind: Kind::KindPlugin,
            }
            &&& questions[m] == Prepare::BuildCmd { pkg }
            &&& forall|i: int|
                m < i < questions.len() ==> (#[trigger] questions[i]) is Target
                    && questions[i]->Target_pkg == pkg && targets.contains(questions[i]->target)
        }),
{
    let n = script.questions.len() as int;
    let first = script.questions + init_questions(cx, pkg);
    let built = first + seq![Prepare::BuildCmd { pkg }];
    lemma_plan_targets_questions(cx, pkg, targets, built);
    let plan = plan_targets(cx, pkg, targets, built);
    let questions = plan_package(cx, pkg, targets, script).0.questions;
    assert(questions == plan.questions);
    assert(questions[n] == built[n]);
    assert(questions[built.len() - 1] == built[built.len() - 1]);
    if cx.ws.config.target is Some {
        assert(questions[n + 1] == built[n + 1]);
    }
}

proof fn lemma_custom_works_ok(cx: Context, pkg: int, count: int)
    requires
        0 <= count,
    ensures
        custom_works(cx, pkg, count) is Ok <==> count == 0 || exists|i: int|
            0 <= i < cx.ws.root().targets@.len() && (
            #[trigger] cx.ws.root().targets@[i]).profile.env@ == cx.ws.env@,
        custom_works(cx, pkg, count) is Err ==> custom_works(cx, pkg, count)->Err_0 == custom_work(
            cx,
            pkg,
            Seq::empty(),
            true,
        )->Err_0,
    decreases count,
{
    if count > 0 {
        lemma_custom_works_ok(cx, pkg, count - 1);
        let cmd = cx.package(pkg).build@[count - 1]@;
        law_custom_needs_profile(cx, pkg, cmd, count == 1);
    }
}

proof fn lemma_plan_targets_error(
    cx: Context,
    pkg: usize,
    targets: Seq<usize>,
    asked: Seq<Prepare>,
)
    ensures
        plan_targets(cx, pkg, targets, asked).error is None <==> forall|i: int|
            0 <= i < targets.len() ==> target_units(
                cx,
                pkg as int,
                #[trigger] targets[i] as int,
            ) is Ok,
    decreases targets.len(),
{
    if targets.len() > 0 {
        let front = targets.drop_last();
        lemma_plan_targets_error(cx, pkg, front, asked);
        let plan = plan_targets(cx, pkg, targets, asked);
        if plan.error is None {
            assert forall|i: int| 0 <= i < targets.len() implies target_units(
                cx,
                pkg as int,
                #[trigger] targets[i] as int,
            ) is Ok by {
                if i < front.len() {
                    assert(front[i] == targets[i]);
                }
            }
        }
        if forall|i: int|
            0 <= i < targets.len() ==> target_units(
                cx,
                pkg as int,
                #[trigger] targets[i] as int,
            ) is Ok {
            assert forall|i: int| 0 <= i < front.len() implies target_units(
                cx,
                pkg as int,
                #[trigger] front[i] as int,
            ) is Ok by {
                assert(front[i] == targets[i]);
            }
            assert(target_units(cx, pkg as int, targets[targets.len() - 1] as int) is Ok);
        }
    }
}

proof fn lemma_plan_targets_first_error(
    cx: Context,
    pkg: usize,
    targets: Seq<usize>,
    asked: Seq<Prepare>,
    at: int,
)
    requires
        0 <= at < targets.len(),
        target_units(cx, pkg as int, targets[at] as int) is Err,
        forall|i: int|
            0 <= i < at ==> target_units(cx, pkg as int, #[trigger] targets[i] as int) is Ok,
    ensures
        plan_targets(cx, pkg, targets, asked).error == Some(
            target_units(cx, pkg as int, targets[at] as int)->Err_0,
        ),
    decreases targets.len(),
{
    let front = targets.drop_last();
    assert forall|i: int| 0 <= i < at && i < front.len() implies target_units(
        cx,
        pkg as int,
        #[trigger] front[i] as int,
    ) is Ok by {
        assert(front[i] == targets[i]);
    }
    if at < front.len() {
        lemma_plan_targets_first_error(cx, pkg, front, asked, at);
    } else {
        lemma_plan_targets_error(cx, pkg, front, asked);
    }
}

/// A package of which nothing is built is left alone. Any other one can be planned exactly if it has
/// no build commands or the root package has a target for what is built for, and if the tools can be
/// run for each of its targets.
pub proof fn law_package_can_be_planned(
    cx: Context,
    pkg: usize,
    targets: Seq<usize>,
    script: ScriptView,
)
    ensures
        targets.len() == 0 ==> plan_package(cx, pkg, targets, script) == (script, None::<ErrorView>),
        targets.len() > 0 ==> (plan_package(cx, pkg, targets, script).1 is None <==> {
            &&& cx.ws.packages@[pkg as int].build@.len() == 0 || exists|i: int|
                0 <= i < cx.ws.root().targets@.len() && (
                #[trigger] cx.ws.root().targets@[i]).profile.env@ == cx.ws.env@
            &&& forall|i: int|
                0 <= i < targets.len() ==> target_units(
                    cx,
                    pkg as int,
                    #[trigger] targets[i] as int,
                ) is Ok
        }),
{
    let count = cx.ws.packages@[pkg as int].build@.len() as int;
    lemma_custom_works_ok(cx, pkg as int, count);
    let asked = script.questions + init_questions(cx, pkg) + seq![Prepare::BuildCmd { pkg }];
    lemma_plan_targets_error(cx, pkg, targets, asked);
}

/// A package that cannot be planned fails as the first thing that cannot be: its build commands, or
/// else the first of its targets. What was asked before that stays asked.
pub proof fn law_package_fails_first(
    cx: Context,
    pkg: usize,
    targets: Seq<usize>,
    script: ScriptView,
    at: int,
)
    requires
        0 <= at < targets.len(),
    ensures
        ({
            let commands_fail = cx.ws.packages@[pkg as int].build@.len() > 0 && forall|i: int|
                0 <= i < cx.ws.root().targets@.len() ==> (
                #[trigger] cx.ws.root().targets@[i]).profile.env@ != cx.ws.env@;
            let (after, error) = plan_package(cx, pkg, targets, script);
            let first = script.questions + init_questions(cx, pkg);
            &&& commands_fail ==> error == Some(
                ErrorView::Message {
                    description: "no profile for "@ + cx.ws.env@,
                    is_human: false,
                    cause: None,
                },
            ) && after.questions == first
            &&& !commands_fail && target_units(cx, pkg as int, targets[at] as int) is Err && (forall|
                i: int,
            |
                0 <= i < at ==> target_units(cx, pkg as int, #[trigger] targets[i] as int) is Ok)
                ==> error == Some(target_units(cx, pkg as int, targets[at] as int)->Err_0)
        }),
{
    let count = cx.ws.packages@[pkg as int].build@.len() as int;
    let asked = script.questions + init_questions(cx, pkg) + seq![Prepare::BuildCmd { pkg }];
    lemma_custom_works_ok(cx, pkg as int, count);
    law_custom_needs_profile(cx, pkg as int, Seq::empty(), true);
    if target_units(cx, pkg as int, targets[at] as int) is Err && (forall|i: int|
        0 <= i < at ==> target_units(cx, pkg as int, #[trigger] targets[i] as int) is Ok) {
        lemma_plan_targets_first_error(cx, pkg, targets, asked, at);
    }
}

/// A target is documented if its profile says so and compiled otherwise, for the platforms that it is
/// needed on.
pub proof fn law_tools_of_a_target(cx: Context, pkg: int, target: int)
    ensures
        ({
            let own = cx.ws.packages@[pkg].targets@[target];
            let units = target_units(cx, pkg, target);
            &&& own.profile.doc ==> (units is Ok <==> rustdoc_unit(cx, pkg, target) is Ok)
            &&& own.profile.doc && units is Ok ==> units->Ok_0.len() == 1 && units->Ok_0[0]
                == rustdoc_unit(cx, pkg, target)->Ok_0
            &&& own.profile.doc && units is Err ==> units->Err_0 == rustdoc_unit(
                cx,
                pkg,
                target,
            )->Err_0
            &&& !own.profile.doc ==> units == rustc_units(
                cx,
                pkg,
                target,
                cx.data.packages@[pkg].targets@[target].requirement,
            )
        }),
{
}

/// The targets of a dependency that are built are exactly those that are built where their package is
/// a dependency, each once and in order.
pub proof fn law_targets_of_a_dependency(cx: Context, pkg: int)
    requires
        cx.has_package(pkg),
    ensures
        forall|target: usize| #[trigger]
            dependency_targets(cx, pkg).contains(target) <==> target
                < cx.ws.packages@[pkg].targets@.len()
                && cx.data.packages@[pkg].targets@[target as int].relevant,
        forall|i: int, j: int|
            0 <= i < j < dependency_targets(cx, pkg).len() ==> #[trigger] dependency_targets(
                cx,
                pkg,
            )[i] < #[trigger] dependency_targets(cx, pkg)[j],
{
    assert(cx.ws.packages@[pkg].targets.len() == cx.ws.packages@[pkg].targets@.len());
    lemma_relevant(cx, pkg, cx.ws.packages@[pkg].targets@.len() as int);
}

proof fn lemma_relevant(cx: Context, pkg: int, count: int)
    requires
        0 <= count <= usize::MAX,
    ensures
        forall|target: usize| #[trigger]
            relevant_targets(cx, pkg, count).contains(target) <==> target < count
                && cx.data.packages@[pkg].targets@[target as int].relevant,
        forall|i: int, j: int|
            0 <= i < j < relevant_targets(cx, pkg, count).len() ==> #[trigger] relevant_targets(
                cx,
                pkg,
                count,
            )[i] < #[trigger] relevant_targets(cx, pkg, count)[j],
    decreases count,
{
    if count > 0 {
        lemma_relevant(cx, pkg, count - 1);
        let before = relevant_targets(cx, pkg, count - 1);
        let all = relevant_targets(cx, pkg, count);
        assert forall|i: int| 0 <= i < before.len() implies #[trigger] before[i] < count - 1 by {
            assert(before.contains(before[i]));
        }
        assert forall|target: usize| #[trigger]
            all.contains(target) <==> target < count
                && cx.data.packages@[pkg].targets@[target as int].relevant by {
            if all.contains(target) {
                let k = choose|k: int| 0 <= k < all.len() && all[k] == target;
                if k < before.len() {
                    assert(before.contains(before[k]));
                }
            }
            if target < count && cx.data.packages@[pkg].targets@[target as int].relevant {
                if target < count - 1 {
                    assert(before.contains(target));
                    let k = choose|k: int| 0 <= k < before.len() && before[k] == target;
                    assert(all[k] == target);
                } else {
                    assert(all[all.len() - 1] == target);
                }
            }
        }
    }
}

/// Somewhere in the script the stages of a package are planned.
pub open spec fn planned_somewhere(
    script: ScriptView,
    cx: Context,
    pkg: usize,
    targets: Seq<usize>,
) -> bool {
    exists|at: int| #[trigger]
        package_is_planned(script.stages, at, script.questions, cx, pkg, targets)
}

/// The script with further questions and stages.
spec fn extended(script: ScriptView, stages: Seq<StagePlan>, questions: Seq<Prepare>) -> ScriptView {
    ScriptView { questions: script.questions + questions, stages: script.stages + stages }
}

/// Planning one more dependency keeps what was planned before.
proof fn lemma_dependency_keeps(cx: Context, root: usize, count: int)
    requires
        plan_dependencies(cx, root, count).1 is None,
        0 < count,
    ensures
        plan_dependencies(cx, root, count - 1).1 is None,
        plan_dependencies(cx, root, count - 1).0.stages.is_prefix_of(
            plan_dependencies(cx, root, count).0.stages,
        ),
        plan_dependencies(cx, root, count - 1).0.questions.is_prefix_of(
            plan_dependencies(cx, root, count).0.questions,
        ),
{
    let (before, error) = plan_dependencies(cx, root, count - 1);
    let dep = count - 1;
    if dep != root {
        let some = dependency_targets(cx, dep);
        law_package_is_planned(cx, dep as usize, some, before, Seq::empty(), Seq::empty());
    }
}

proof fn lemma_dependency_here(
    cx: Context,
    root: usize,
    pkg: usize,
    stages: Seq<StagePlan>,
    questions: Seq<Prepare>,
)
    requires
        plan_dependencies(cx, root, pkg as int + 1).1 is None,
        pkg != root,
    ensures
        planned_somewhere(
            extended(plan_dependencies(cx, root, pkg as int + 1).0, stages, questions),
            cx,
            pkg,
            dependency_targets(cx, pkg as int),
        ),
{
    let (before, error) = plan_dependencies(cx, root, pkg as int);
    let some = dependency_targets(cx, pkg as int);
    let script = plan_dependencies(cx, root, pkg as int + 1).0;
    assert(error is None);
    assert(some.len() > 0);
    assert(script == plan_package(cx, pkg, some, before).0);
    law_package_is_planned(cx, pkg, some, before, stages, questions);
    let whole = extended(script, stages, questions);
    assert(package_is_planned(
        whole.stages,
        before.stages.len() as int,
        whole.questions,
        cx,
        pkg,
        some,
    ));
}

proof fn lemma_dependency_planned(
    cx: Context,
    root: usize,
    count: int,
    pkg: usize,
    stages: Seq<StagePlan>,
    questions: Seq<Prepare>,
)
    requires
        plan_dependencies(cx, root, count).1 is None,
        pkg < count,
        pkg != root,
    ensures
        planned_somewhere(
            extended(plan_dependencies(cx, root, count).0, stages, questions),
            cx,
            pkg,
            dependency_targets(cx, pkg as int),
        ),
    decreases count,
{
    if pkg == count - 1 {
        lemma_dependency_here(cx, root, pkg, stages, questions);
    } else {
        lemma_dependency_keeps(cx, root, count);
        let before = plan_dependencies(cx, root, count - 1).0;
        let script = plan_dependencies(cx, root, count).0;
        let own_stages = script.stages.skip(before.stages.len() as int) + stages;
        let own_questions = script.questions.skip(before.questions.len() as int) + questions;
        lemma_dependency_planned(cx, root, count - 1, pkg, own_stages, own_questions);
        lemma_extended_twice(before, script, stages, questions);
    }
}

proof fn lemma_extended_twice(
    before: ScriptView,
    script: ScriptView,
    stages: Seq<StagePlan>,
    questions: Seq<Prepare>,
)
    requires
        before.stages.is_prefix_of(script.stages),
        before.questions.is_prefix_of(script.questions),
    ensures
        extended(
            before,
            script.stages.skip(before.stages.len() as int) + stages,
            script.questions.skip(before.questions.len() as int) + questions,
        ) == extended(script, stages, questions),
{
    assert(before.stages + (script.stages.skip(before.stages.len() as int) + stages)
        =~= script.stages + stages);
    assert(before.questions + (script.questions.skip(before.questions.len() as int) + questions)
        =~= script.questions + questions);
}

/// Where a build can be planned, each package is planned as a whole: the one that was asked for with
/// the targets that were asked for and as the primary one, and each other one as a dependency with
/// those targets that are built where it is one. In particular the one job for build commands of each
/// package, dependencies included, runs all of them in order and then records that.
pub proof fn law_each_package_is_planned(
    cx: Context,
    root: usize,
    targets: Seq<usize>,
    pkg: usize,
)
    requires
        targets.len() > 0,
        plan_build(cx, root, targets).1 is None,
        pkg < cx.ws.packages@.len(),
    ensures
        pkg == root ==> planned_somewhere(
            plan_build(cx, root, targets).0,
            Context { primary: true, ..cx },
            pkg,
            targets,
        ),
        pkg != root ==> planned_somewhere(
            plan_build(cx, root, targets).0,
            Context { primary: false, ..cx },
            pkg,
            dependency_targets(cx, pkg as int),
        ),
{
    let deps = as_dependency(cx);
    let primary = as_primary(cx);
    let count = cx.ws.packages@.len() as int;
    let (script, error) = plan_dependencies(deps, root, count);
    let all = plan_build(cx, root, targets).0;
    let no_stages = Seq::<StagePlan>::empty();
    let no_questions = Seq::<Prepare>::empty();
    law_package_is_planned(primary, root, targets, script, no_stages, no_questions);
    if pkg == root {
        assert(all.stages + no_stages =~= all.stages);
        assert(all.questions + no_questions =~= all.questions);
        assert(package_is_planned(
            all.stages,
            script.stages.len() as int,
            all.questions,
            primary,
            root,
            targets,
        ));
    } else {
        let stages = all.stages.skip(script.stages.len() as int);
        let questions = all.questions.skip(script.questions.len() as int);
        lemma_dependency_planned(deps, root, count, pkg, stages, questions);
        assert(script.stages + stages =~= all.stages);
        assert(script.questions + questions =~= all.questions);
        assert(extended(script, stages, questions) == all);
        lemma_dependency_targets_same(deps, cx, pkg as int);
    }
}

proof fn lemma_dependency_targets_same(a: Context, b: Context, pkg: int)
    requires
        a.ws == b.ws,
        a.data == b.data,
    ensures
        dependency_targets(a, pkg) == dependency_targets(b, pkg),
{
    lemma_relevant_same(a, b, pkg, a.package(pkg).targets@.len() as int);
}

proof fn lemma_relevant_same(a: Context, b: Context, pkg: int, count: int)
    requires
        a.ws == b.ws,
        a.data == b.data,
    ensures
        relevant_targets(a, pkg, count) == relevant_targets(b, pkg, count),
    decreases count,
{
    if count > 0 {
        lemma_relevant_same(a, b, pkg, count - 1);
    }
}

/// The first dependency that cannot be planned ends the plan: one of which no target is built with a
/// message for the user that names it, and any other one with its own error.
pub proof fn law_first_dependency_fails(cx: Context, root: usize, targets: Seq<usize>, dep: int)
    requires
        0 <= dep < cx.ws.packages@.len(),
        dep != root,
        plan_dependencies(as_dependency(cx), root, dep).1 is None,
    ensures
        ({
            let at = Context { primary: false, ..cx };
            let before = plan_dependencies(as_dependency(cx), root, dep).0;
            let own = plan_package(at, dep as usize, dependency_targets(cx, dep), before);
            let (script, error) = plan_build(cx, root, targets);
            &&& dependency_targets(cx, dep).len() == 0 ==> error == Some(
                ErrorView::Message {
                    description: "Package `"@ + cx.ws.packages@[dep].display@
                        + "` has no library targets"@,
                    is_human: true,
                    cause: None,
                },
            ) && script == before
            &&& dependency_targets(cx, dep).len() > 0 && own.1 is Some ==> error == own.1 && script
                == own.0
        }),
{
    let deps = as_dependency(cx);
    lemma_dependency_targets_same(deps, cx, dep);
    if plan_dependencies(deps, root, dep + 1).1 is Some {
        lemma_plan_dependencies_fail(
            deps,
            root,
            dep + 1,
            cx.ws.packages@.len() as int,
        );
    }
}

/// A build can be planned exactly if each dependency has something to build and can be planned, and
/// the package that was asked for can be.
pub proof fn law_build_can_be_planned(cx: Context, root: usize, targets: Seq<usize>)
    ensures
        plan_build(cx, root, targets).1 is None <==> {
            &&& forall|dep: int|
                0 <= dep < cx.ws.packages@.len() && dep != root ==> #[trigger] can_be_dependency(
                    cx,
                    dep,
                )
            &&& plan_package(
                Context { primary: true, ..cx },
                root,
                targets,
                ScriptView::empty(),
            ).1 is None
        },
{
    let deps = as_dependency(cx);
    let count = cx.ws.packages@.len() as int;
    let (script, error) = plan_dependencies(deps, root, count);
    lemma_dependencies_can_be_planned(cx, root, count);
    law_package_can_be_planned(as_primary(cx), root, targets, script);
    law_package_can_be_planned(as_primary(cx), root, targets, ScriptView::empty());
}

/// A package that can be planned as a dependency: something of it is built, and that can be planned.
pub open spec fn can_be_dependency(cx: Context, dep: int) -> bool {
    let at = Context { primary: false, ..cx };
    &&& dependency_targets(cx, dep).len() > 0
    &&& plan_package(
        at,
        dep as usize,
        dependency_targets(cx, dep),
        ScriptView::empty(),
    ).1 is None
}

proof fn lemma_dependencies_can_be_planned(cx: Context, root: usize, count: int)
    ensures
        plan_dependencies(as_dependency(cx), root, count).1 is None <==> forall|dep: int|
            0 <= dep < count && dep != root ==> #[trigger] can_be_dependency(cx, dep),
    decreases count,
{
    if count > 0 {
        let deps = as_dependency(cx);
        let dep = count - 1;
        let (script, error) = plan_dependencies(deps, root, dep);
        lemma_dependencies_can_be_planned(cx, root, dep);
        lemma_dependency_targets_same(deps, cx, dep);
        let some = dependency_targets(cx, dep);
        law_package_can_be_planned(deps, dep as usize, some, script);
        law_package_can_be_planned(deps, dep as usize, some, ScriptView::empty());
        if plan_dependencies(deps, root, count).1 is None {
            assert(dep != root ==> can_be_dependency(cx, dep));
        } else if dep != root && error is None {
            assert(!can_be_dependency(cx, dep));
        }
    }
}

/// The jobs that a further target adds.
spec fn adds_jobs(
    before: Seq<JobPlan>,
    after: Seq<JobPlan>,
    questions: Seq<Prepare>,
    pkg: usize,
    target: usize,
    units: Seq<UnitView>,
) -> bool {
    &&& after.len() == before.len() + units.len()
    &&& before.is_prefix_of(after)
    &&& forall|u: int|
        0 <= u < units.len() ==> runs_unit(
            after[before.len() + u],
            questions,
            pkg,
            target,
            #[trigger] units[u],
        )
}

proof fn lemma_one_more_target(
    cx: Context,
    pkg: usize,
    targets: Seq<usize>,
    target: usize,
    asked: Seq<Prepare>,
)
    requires
        plan_targets(cx, pkg, targets.push(target), asked).error is None,
    ensures
        ({
            let before = plan_targets(cx, pkg, targets, asked);
            let after = plan_targets(cx, pkg, targets.push(target), asked);
            let units = target_units(cx, pkg as int, target as int)->Ok_0;
            let lib = cx.ws.packages@[pkg as int].targets@[target as int].lib;
            &&& before.error is None
            &&& after.questions == before.questions + target_questions(pkg, target, units)
            &&& lib ==> adds_jobs(before.libs, after.libs, after.questions, pkg, target, units)
                && after.bins == before.bins
            &&& !lib ==> adds_jobs(before.bins, after.bins, after.questions, pkg, target, units)
                && after.libs == before.libs
        }),
{
    let before = plan_targets(cx, pkg, targets, asked);
    let after = plan_targets(cx, pkg, targets.push(target), asked);
    assert(targets.push(target).drop_last() =~= targets);
    assert(target_units(cx, pkg as int, target as int) is Ok);
    let units = target_units(cx, pkg as int, target as int)->Ok_0;
    let jobs = target_jobs(pkg, target, units, before.questions.len() as int);
    lemma_own_jobs(pkg, target, units, before.questions, Seq::empty());
    let questions = before.questions + target_questions(pkg, target, units);
    assert(questions + Seq::empty() =~= questions);
    let old = if cx.ws.packages@[pkg as int].targets@[target as int].lib {
        before.libs
    } else {
        before.bins
    };
    assert forall|u: int| 0 <= u < units.len() implies runs_unit(
        (old + jobs)[old.len() + u],
        questions,
        pkg,
        target,
        #[trigger] units[u],
    ) by {
        assert((old + jobs)[old.len() + u] == jobs[u]);
    }
}

/// The targets of a package are dealt with one after the other: a further target adds its questions
/// behind those of the others, and its jobs, one for each run of a tool and in the same order, behind
/// theirs in the stage of libraries or in that of the others; it changes nothing else. Without targets
/// there are no such jobs.
pub proof fn law_one_more_target(
    cx: Context,
    pkg: usize,
    targets: Seq<usize>,
    target: usize,
    script: ScriptView,
)
    requires
        plan_package(cx, pkg, targets.push(target), script).1 is None,
    ensures
        ({
            let n = script.stages.len() as int;
            let after = plan_package(cx, pkg, targets.push(target), script).0;
            let units = target_units(cx, pkg as int, target as int)->Ok_0;
            let lib = cx.ws.packages@[pkg as int].targets@[target as int].lib;
            let (own, other) = if lib {
                (n + 2, n + 3)
            } else {
                (n + 3, n + 2)
            };
            &&& after.stages.len() == n + 5
            &&& targets.len() == 0 ==> {
                &&& after.stages[own].jobs.len() == units.len()
                &&& after.stages[other].jobs.len() == 0
                &&& forall|u: int|
                    0 <= u < units.len() ==> runs_unit(
                        after.stages[own].jobs[u],
                        after.questions,
                        pkg,
                        target,
                        #[trigger] units[u],
                    )
            }
            &&& targets.len() > 0 ==> {
                let before = plan_package(cx, pkg, targets, script).0;
                let had = before.stages[own].jobs;
                let asked = before.questions.len() as int;
                &&& plan_package(cx, pkg, targets, script).1 is None
                &&& after.stages[n] == before.stages[n]
                &&& after.stages[n + 1] == before.stages[n + 1]
                &&& after.stages[other] == before.stages[other]
                &&& after.stages[own].jobs.len() == had.len() + units.len()
                &&& had.is_prefix_of(after.stages[own].jobs)
                &&& before.questions.is_prefix_of(after.questions)
                &&& after.questions.len() == asked + units.len()
                &&& forall|u: int|
                    0 <= u < units.len() ==> {
                        &&& runs_unit(
                            after.stages[own].jobs[had.len() + u],
                            after.questions,
                            pkg,
                            target,
                            #[trigger] units[u],
                        )
                        &&& after.questions[asked + u] == Prepare::Target {
                            pkg,
                            target,
                            kind: units[u].kind,
                        }
                    }
            }
        }),
{
    let count = cx.ws.packages@[pkg as int].build@.len() as int;
    let started = script.asking(init_questions(cx, pkg)).enqueue(
        pkg,
        Stage::StageStart,
        init_jobs(cx, pkg),
    );
    let works = custom_works(cx, pkg as int, count)->Ok_0;
    let job = custom_job(cx, pkg, works, started.questions.len() as int);
    let built = started.asking(seq![Prepare::BuildCmd { pkg }]).enqueue(
        pkg,
        Stage::StageCustomBuild,
        seq![job],
    );
    lemma_one_more_target(cx, pkg, targets, target, built.questions);
    let before = plan_targets(cx, pkg, targets, built.questions);
    let plan = plan_targets(cx, pkg, targets.push(target), built.questions);
    let units = target_units(cx, pkg as int, target as int)->Ok_0;
    let n = script.stages.len() as int;
    let after = plan_package(cx, pkg, targets.push(target), script).0;
    assert(after.stages[n + 2].jobs == plan.libs);
    assert(after.stages[n + 3].jobs == plan.bins);
    if targets.len() > 0 {
        let shorter = plan_package(cx, pkg, targets, script).0;
        assert(shorter.stages[n + 2].jobs == before.libs);
        assert(shorter.stages[n + 3].jobs == before.bins);
        let own = target_questions(pkg, target, units);
        assert forall|u: int| 0 <= u < units.len() implies after.questions[before.questions.len()
            + u] == (Prepare::Target { pkg, target, kind: (#[trigger] units[u]).kind }) by {
            assert(after.questions[before.questions.len() + u] == own[u]);
        }
    }
}

} // verus!
