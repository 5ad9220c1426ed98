//! The part of a build that concerns one package.

use crate::context::{Context, Kind};
use crate::error::{CargoError, ErrorView};
use crate::ops::cargo_rustc::custom::{compile_custom, custom_work};
use crate::ops::cargo_rustc::script::{JobPlan, PendingJob, Script, ScriptView, Stage};
use crate::ops::cargo_rustc::units::{rustc, rustc_units, rustdoc, rustdoc_unit};
use crate::ops::cargo_rustc::work::{
    Description, DescriptionView, Prepare, Unit, UnitView, Work, WorkView,
};
use crate::text::{lemma_views_push, views};
use vstd::prelude::*;

verus! {

/// The kinds of results whose fingerprints a package has a directory for.
pub open spec fn init_kinds(cx: Context) -> Seq<Kind> {
    if cx.ws.config.target is Some {
        seq![Kind::KindTarget, Kind::KindPlugin]
    } else {
        seq![Kind::KindTarget]
    }
}

/// The questions that come first for a package.
pub open spec fn init_questions(cx: Context, pkg: usize) -> Seq<Prepare> {
    init_kinds(cx).map_values(|kind: Kind| Prepare::Init { pkg, kind })
}

/// The job of making the directory for the fingerprints of a kind.
pub open spec fn init_job(pkg: usize, kind: Kind) -> JobPlan {
    JobPlan {
        dirty: seq![WorkView::Fingerprint(Prepare::Init { pkg, kind })],
        fresh: Prepare::Init { pkg, kind },
        desc: DescriptionView::Text(Seq::empty()),
        question: None,
    }
}

/// The jobs that come first for a package.
pub open spec fn init_jobs(cx: Context, pkg: usize) -> Seq<JobPlan> {
    init_kinds(cx).map_values(|kind: Kind| init_job(pkg, kind))
}

/// The work of running the first `count` build commands of a package, or why there is none.
pub open spec fn custom_works(cx: Context, pkg: int, count: int) -> Result<Seq<WorkView>, ErrorView>
    decreases count,
{
    if count <= 0 {
        Ok(Seq::empty())
    } else {
        match custom_works(cx, pkg, count - 1) {
            Ok(works) => match custom_work(cx, pkg, cx.package(pkg).build@[count - 1]@, count == 1) {
                Ok(work) => Ok(works.push(work)),
                Err(error) => Err(error),
            },
            Err(error) => Err(error),
        }
    }
}

/// How the build commands of a package are shown to the user.
pub open spec fn custom_desc(build: Seq<String>) -> Seq<char> {
    if build.len() == 0 {
        Seq::empty()
    } else if build.len() == 1 {
        build[0]@
    } else {
        "custom build commands"@
    }
}

/// The job of running the build commands of a package.
pub open spec fn custom_job(cx: Context, pkg: usize, works: Seq<WorkView>, question: int) -> JobPlan {
    let prepare = Prepare::BuildCmd { pkg };
    JobPlan {
        dirty: works.push(WorkView::Fingerprint(prepare)),
        fresh: prepare,
        desc: DescriptionView::Text(custom_desc(cx.package(pkg as int).build@)),
        question: Some(question),
    }
}

/// The runs of tools for a target: it is documented or compiled, as its profile says.
pub open spec fn target_units(cx: Context, pkg: int, target: int) -> Result<Seq<UnitView>, ErrorView> {
    if cx.target(pkg, target).profile.doc {
        match rustdoc_unit(cx, pkg, target) {
            Ok(unit) => Ok(seq![unit]),
            Err(error) => Err(error),
        }
    } else {
        rustc_units(cx, pkg, target, cx.target_data(pkg, target).requirement)
    }
}

/// The questions about a target.
pub open spec fn target_questions(pkg: usize, target: usize, units: Seq<UnitView>) -> Seq<Prepare> {
    units.map_values(|unit: UnitView| Prepare::Target { pkg, target, kind: unit.kind })
}

/// The job of running a tool for a target, and then recording that it was run.
pub open spec fn target_job(pkg: usize, target: usize, unit: UnitView, question: int) -> JobPlan {
    let prepare = Prepare::Target { pkg, target, kind: unit.kind };
    JobPlan {
        dirty: seq![unit.work, WorkView::Fingerprint(prepare)],
        fresh: prepare,
        desc: unit.desc,
        question: Some(question),
    }
}

/// The jobs for a target, whose first question is the one at `start`.
pub open spec fn target_jobs(
    pkg: usize,
    target: usize,
    units: Seq<UnitView>,
    start: int,
) -> Seq<JobPlan> {
    Seq::new(
        units.len(),
        |i: int| target_job(pkg, target, units[i], start + i),
    )
}

/// What is planned for the targets of a package: the questions so far, the jobs for the libraries
/// and for the others, and why the plan goes no further.
pub struct TargetsPlan {
    pub questions: Seq<Prepare>,
    pub libs: Seq<JobPlan>,
    pub bins: Seq<JobPlan>,
    pub error: Option<ErrorView>,
}

/// What is planned for `targets`, after `asked`.
pub open spec fn plan_targets(
    cx: Context,
    pkg: usize,
    targets: Seq<usize>,
    asked: Seq<Prepare>,
) -> TargetsPlan
    decreases targets.len(),
{
    if targets.len() == 0 {
        TargetsPlan { questions: asked, libs: Seq::empty(), bins: Seq::empty(), error: None }
    } else {
        let before = plan_targets(cx, pkg, targets.drop_last(), asked);
        let target = targets.last();
        if before.error is Some {
            before
        } else {
            match target_units(cx, pkg as int, target as int) {
                Err(error) => TargetsPlan { error: Some(error), ..before },
                Ok(units) => {
                    let jobs = target_jobs(pkg, target, units, before.questions.len() as int);
                    let questions = before.questions + target_questions(pkg, target, units);
                    if cx.target(pkg as int, target as int).lib {
                        TargetsPlan { questions, libs: before.libs + jobs, ..before }
                    } else {
                        TargetsPlan { questions, bins: before.bins + jobs, ..before }
                    }
                },
            }
        }
    }
}

/// The script of a build after the given targets of a package were added, and why it goes no
/// further. The stages of a script that goes no further do not count.
pub open spec fn plan_package(
    cx: Context,
    pkg: usize,
    targets: Seq<usize>,
    script: ScriptView,
) -> (ScriptView, Option<ErrorView>) {
    let count = cx.package(pkg as int).build@.len() as int;
    let started = script.asking(init_questions(cx, pkg)).enqueue(
        pkg,
        Stage::StageStart,
        init_jobs(cx, pkg),
    );
    if targets.len() == 0 {
        (script, None)
    } else {
        match custom_works(cx, pkg as int, count) {
            Err(error) => (started, Some(error)),
            Ok(works) => {
                let job = custom_job(cx, pkg, works, started.questions.len() as int);
                let built = started.asking(seq![Prepare::BuildCmd { pkg }]).enqueue(
                    pkg,
                    Stage::StageCustomBuild,
                    seq![job],
                );
                let plan = plan_targets(cx, pkg, targets, built.questions);
                let asked = ScriptView { questions: plan.questions, ..built };
                match plan.error {
                    Some(error) => (asked, Some(error)),
                    None => (
                        asked.enqueue(pkg, Stage::StageLibraries, plan.libs).enqueue(
                            pkg,
                            Stage::StageBinaries,
                            plan.bins,
                        ).enqueue(pkg, Stage::StageEnd, Seq::empty()),
                        None,
                    ),
                }
            },
        }
    }
}

/// `targets` are targets of a package.
pub open spec fn are_targets(cx: Context, pkg: usize, targets: Seq<usize>) -> bool {
    &&& cx.has_package(pkg as int)
    &&& forall|i: int| 0 <= i < targets.len() ==> cx.has_target(pkg as int, #[trigger] targets[i] as int)
}

/// The job of making the directory for the fingerprints of a kind.
fn start_job(pkg: usize, kind: Kind) -> (job: PendingJob)
    ensures
        job@ == init_job(pkg, kind),
{
    let prepare = Prepare::Init { pkg, kind };
    let mut dirty: Vec<Work> = Vec::new();
    dirty.push(Work::Fingerprint(prepare));
    let job = PendingJob {
        dirty,
        fresh: prepare,
        desc: Description::Text(String::new()),
        question: None,
    };
    assert(job@ =~= init_job(pkg, kind));
    job
}

/// The work of running all build commands of a package.
fn all_custom_works(pkg: usize, cx: &Context) -> (works: Result<Vec<Work>, CargoError>)
    requires
        cx.wf(),
        cx.has_package(pkg as int),
    ensures
        match (works, custom_works(*cx, pkg as int, cx.package(pkg as int).build@.len() as int)) {
            (Ok(works), Ok(expected)) => views(works@) == expected,
            (Err(error), Err(why)) => error@ == why,
            _ => false,
        },
{
    broadcast use lemma_views_push;

    let build = &cx.ws.packages[pkg].build;
    let mut works: Vec<Work> = Vec::new();
    assert(views(works@) =~= Seq::empty());
    for i in 0..build.len()
        invariant
            cx.wf(),
            cx.has_package(pkg as int),
            build@ == cx.package(pkg as int).build@,
            custom_works(*cx, pkg as int, i as int) == Ok::<Seq<WorkView>, ErrorView>(
                views(works@),
            ),
    {
        match compile_custom(pkg, build[i].as_str(), cx, i == 0) {
            Ok(work) => {
                proof {
                    lemma_views_push(works@, work);
                }
                works.push(work);
            },
            Err(error) => {
                proof {
                    lemma_custom_works_fail(*cx, pkg as int, i + 1, build@.len() as int);
                }
                return Err(error);
            },
        }
    }
    Ok(works)
}

proof fn lemma_custom_works_fail(cx: Context, pkg: int, fewer: int, more: int)
    requires
        0 <= fewer <= more,
        custom_works(cx, pkg, fewer) is Err,
    ensures
        custom_works(cx, pkg, more) == custom_works(cx, pkg, fewer),
    decreases more,
{
    if fewer < more {
        lemma_custom_works_fail(cx, pkg, fewer, more - 1);
    }
}

/// The runs of tools for a target.
fn all_units(pkg: usize, target: usize, cx: &Context) -> (units: Result<Vec<Unit>, CargoError>)
    requires
        cx.wf(),
        cx.has_target(pkg as int, target as int),
    ensures
        match (units, target_units(*cx, pkg as int, target as int)) {
            (Ok(units), Ok(expected)) => views(units@) == expected,
            (Err(error), Err(why)) => error@ == why,
            _ => false,
        },
{
    assert(cx.data.package_fits(*cx.ws, pkg as int));
    if cx.ws.packages[pkg].targets[target].profile.doc {
        match rustdoc(pkg, target, cx) {
            Ok(unit) => {
                let mut units: Vec<Unit> = Vec::new();
                units.push(unit);
                assert(views(units@) =~= seq![unit@]);
                Ok(units)
            },
            Err(error) => Err(error),
        }
    } else {
        let req = cx.data.packages[pkg].targets[target].requirement;
        rustc(pkg, target, cx, req)
    }
}

/// Adds the questions and the jobs for a target.
fn add_units(pkg: usize, target: usize, units: Vec<Unit>, script: &mut Script, jobs: &mut Vec<PendingJob>)
    ensures
        final(script)@ == old(script)@.asking(target_questions(pkg, target, views(units@))),
        views(final(jobs)@) == views(old(jobs)@) + target_jobs(
            pkg,
            target,
            views(units@),
            old(script)@.questions.len() as int,
        ),
{
    let mut rest = units;
    let ghost all = views(units@);
    let ghost start = script@;
    let ghost first = script@.questions.len() as int;
    let ghost had = views(jobs@);
    let ghost asked = target_questions(pkg, target, all);
    let ghost planned = target_jobs(pkg, target, all, first);
    let ghost mut done: int = 0;
    assert(script@ =~= start.asking(asked.take(0)));
    assert(views(jobs@) =~= had + planned.take(0));
    while rest.len() > 0
        invariant
            0 <= done,
            done + rest@.len() == all.len(),
            views(rest@) == all.skip(done),
            first == start.questions.len(),
            asked == target_questions(pkg, target, all),
            planned == target_jobs(pkg, target, all, first),
            script@ == start.asking(asked.take(done)),
            views(jobs@) == had + planned.take(done),
        decreases rest@.len(),
    {
        let ghost before = rest@;
        let unit = rest.remove(0);
        proof {
            assert(views(before)[0] == all[done]);
            assert(rest@ =~= before.drop_first());
            assert(views(rest@) =~= views(before).drop_first());
            assert(all.skip(done).drop_first() =~= all.skip(done + 1));
        }
        let prepare = Prepare::Target { pkg, target, kind: unit.kind };
        let question = script.ask(prepare);
        assert(question == first + done);
        let mut dirty: Vec<Work> = Vec::new();
        dirty.push(unit.work);
        dirty.push(Work::Fingerprint(prepare));
        let job = PendingJob { dirty, fresh: prepare, desc: unit.desc, question: Some(question) };
        proof {
            assert(job@ =~= planned[done]);
            lemma_views_push(jobs@, job);
            assert(asked.take(done + 1) =~= asked.take(done).push(asked[done]));
            assert(script@ =~= start.asking(asked.take(done + 1)));
            assert(had + planned.take(done + 1) =~= (had + planned.take(done)).push(planned[done]));
            done = done + 1;
        }
        jobs.push(job);
    }
    assert(asked.take(asked.len() as int) =~= asked);
    assert(planned.take(planned.len() as int) =~= planned);
}

/// Adds what is to be done for the given targets of a package to a script.
pub fn compile(targets: &Vec<usize>, pkg: usize, cx: &Context, script: &mut Script) -> (done: Result<
    (),
    CargoError,
>)
    requires
        cx.wf(),
        are_targets(*cx, pkg, targets@),
    ensures
        match (done, plan_package(*cx, pkg, targets@, old(script)@).1) {
            (Ok(_), None) => true,
            (Err(error), Some(why)) => error@ == why,
            _ => false,
        },
        final(script)@ == plan_package(*cx, pkg, targets@, old(script)@).0,
{
    if targets.len() == 0 {
        return Ok(());
    }
    let ghost given = script@;
    // The directories for the fingerprints come first.
    let mut init: Vec<PendingJob> = Vec::new();
    script.ask(Prepare::Init { pkg, kind: Kind::KindTarget });
    init.push(start_job(pkg, Kind::KindTarget));
    if cx.ws.config.target.is_some() {
        script.ask(Prepare::Init { pkg, kind: Kind::KindPlugin });
        init.push(start_job(pkg, Kind::KindPlugin));
    }
    proof {
        assert(views(init@) =~= init_jobs(*cx, pkg));
        assert(script@ =~= given.asking(init_questions(*cx, pkg)));
    }
    script.enqueue(pkg, Stage::StageStart, init);
    // Then all build commands are run.
    let mut dirty = match all_custom_works(pkg, cx) {
        Ok(works) => works,
        Err(error) => return Err(error),
    };
    let ghost works = dirty@;
    let prepare = Prepare::BuildCmd { pkg };
    let question = script.ask(prepare);
    let build = &cx.ws.packages[pkg].build;
    let desc = if build.len() == 0 {
        String::new()
    } else if build.len() == 1 {
        build[0].clone()
    } else {
        "custom build commands".to_owned()
    };
    dirty.push(Work::Fingerprint(prepare));
    let job = PendingJob { dirty, fresh: prepare, desc: Description::Text(desc), question: Some(question) };
    proof {
        lemma_views_push(works, Work::Fingerprint(prepare));
        assert(job@ =~= custom_job(*cx, pkg, views(works), question as int));
    }
    let mut custom: Vec<PendingJob> = Vec::new();
    custom.push(job);
    assert(views(custom@) =~= seq![job@]);
    script.enqueue(pkg, Stage::StageCustomBuild, custom);
    let ghost built = script@;
    // Then the tools are run for all targets. Each target has its own fingerprint, so that what has
    // to be built anew is decided target by target.
    let mut libs: Vec<PendingJob> = Vec::new();
    let mut bins: Vec<PendingJob> = Vec::new();
    let ghost mut plan = plan_targets(*cx, pkg, targets@.take(0), built.questions);
    assert(views(libs@) =~= plan.libs);
    assert(views(bins@) =~= plan.bins);
    for i in 0..targets.len()
        invariant
            cx.wf(),
            are_targets(*cx, pkg, targets@),
            plan == plan_targets(*cx, pkg, targets@.take(i as int), built.questions),
            plan.error is None,
            views(libs@) == plan.libs,
            views(bins@) == plan.bins,
            script@ == (ScriptView { questions: plan.questions, ..built }),
            targets@.len() > 0,
            given == old(script)@,
            plan_package(*cx, pkg, targets@, given) == ({
                let whole = plan_targets(*cx, pkg, targets@, built.questions);
                let asked = ScriptView { questions: whole.questions, ..built };
                match whole.error {
                    Some(error) => (asked, Some(error)),
                    None => (
                        asked.enqueue(pkg, Stage::StageLibraries, whole.libs).enqueue(
                            pkg,
                            Stage::StageBinaries,
                            whole.bins,
                        ).enqueue(pkg, Stage::StageEnd, Seq::empty()),
                        None,
                    ),
                }
            }),
    {
        let target = targets[i];
        assert(cx.has_target(pkg as int, targets@[i as int] as int));
        assert(targets@.take(i + 1).drop_last() =~= targets@.take(i as int));
        let units = match all_units(pkg, target, cx) {
            Ok(units) => units,
            Err(error) => {
                proof {
                    lemma_plan_targets_fail(
                        *cx,
                        pkg,
                        targets@.take(i + 1),
                        targets@.skip(i + 1),
                        built.questions,
                    );
                    assert(targets@.take(i + 1) + targets@.skip(i + 1) =~= targets@);
                }
                return Err(error);
            },
        };
        if cx.ws.packages[pkg].targets[target].lib {
            add_units(pkg, target, units, script, &mut libs);
        } else {
            add_units(pkg, target, units, script, &mut bins);
        }
        proof {
            plan = plan_targets(*cx, pkg, targets@.take(i + 1), built.questions);
            assert(script@ =~= (ScriptView { questions: plan.questions, ..built }));
        }
    }
    assert(targets@.take(targets@.len() as int) =~= targets@);
    script.enqueue(pkg, Stage::StageLibraries, libs);
    script.enqueue(pkg, Stage::StageBinaries, bins);
    let end: Vec<PendingJob> = Vec::new();
    assert(views(end@) =~= Seq::empty());
    script.enqueue(pkg, Stage::StageEnd, end);
    Ok(())
}

/// The build commands of a package are run in the order in which they are given, and of them only
/// the first one prepares the directory for their results.
pub proof fn law_build_commands_in_order(cx: Context, pkg: int, count: int)
    requires
        0 <= count,
        custom_works(cx, pkg, count) is Ok,
    ensures
        custom_works(cx, pkg, count)->Ok_0.len() == count,
        forall|i: int|
            0 <= i < count ==> Ok::<WorkView, ErrorView>(
                #[trigger] custom_works(cx, pkg, count)->Ok_0[i],
            ) == custom_work(cx, pkg, cx.package(pkg).build@[i]@, i == 0),
    decreases count,
{
    if count > 0 {
        law_build_commands_in_order(cx, pkg, count - 1);
    }
}

proof fn lemma_plan_targets_fail(
    cx: Context,
    pkg: usize,
    a: Seq<usize>,
    b: Seq<usize>,
    asked: Seq<Prepare>,
)
    requires
        plan_targets(cx, pkg, a, asked).error is Some,
    ensures
        plan_targets(cx, pkg, a + b, asked) == plan_targets(cx, pkg, a, asked),
    decreases b.len(),
{
    if b.len() == 0 {
        assert(a + b =~= a);
    } else {
        assert((a + b).drop_last() =~= a + b.drop_last());
        lemma_plan_targets_fail(cx, pkg, a, b.drop_last(), asked);
    }
}

} // verus!
