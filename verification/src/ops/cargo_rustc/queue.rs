//! The jobs of a build once it is known which of them have to be done.

use crate::ops::cargo_rustc::plan::{job_sound, sound, stage_sound};
use crate::ops::cargo_rustc::script::{JobPlan, PendingStage, Script, ScriptView, Stage, StagePlan};
use crate::ops::cargo_rustc::work::{
    Description, DescriptionView, Freshness, Prepare, Work, WorkView,
};
use crate::text::{lemma_views_push, views};
use vstd::prelude::*;

verus! {

/// A job.
#[derive(Debug, PartialEq, Eq)]
pub struct Job {
    /// What is done if the job has to be done, in order.
    pub dirty: Vec<Work>,
    /// The fingerprint that is touched if it has not.
    pub fresh: Prepare,
    pub desc: Description,
    /// Whether the job has to be done, as far as the job itself goes.
    pub freshness: Freshness,
}

/// What a `Job` is.
#[verifier::ext_equal]
pub struct JobView {
    pub dirty: Seq<WorkView>,
    pub fresh: Prepare,
    pub desc: DescriptionView,
    pub freshness: Freshness,
}

impl View for Job {
    type V = JobView;

    open spec fn view(&self) -> JobView {
        JobView {
            dirty: views(self.dirty@),
            fresh: self.fresh,
            desc: self.desc@,
            freshness: self.freshness,
        }
    }
}

/// The jobs of a stage of a package.
#[derive(Debug, PartialEq, Eq)]
pub struct QueuedStage {
    pub pkg: usize,
    pub stage: Stage,
    pub jobs: Vec<Job>,
}

/// What a `QueuedStage` is.
#[verifier::ext_equal]
pub struct QueuedView {
    pub pkg: usize,
    pub stage: Stage,
    pub jobs: Seq<JobView>,
}

impl View for QueuedStage {
    type V = QueuedView;

    open spec fn view(&self) -> QueuedView {
        QueuedView { pkg: self.pkg, stage: self.stage, jobs: views(self.jobs@) }
    }
}

/// The jobs of a build.
#[derive(Debug, PartialEq, Eq)]
pub struct JobQueue {
    pub stages: Vec<QueuedStage>,
}

impl View for JobQueue {
    type V = Seq<QueuedView>;

    open spec fn view(&self) -> Seq<QueuedView> {
        views(self.stages@)
    }
}

/// A job, decided by the answer to its question.
pub open spec fn decided_job(job: JobPlan, answers: Seq<Freshness>) -> JobView {
    JobView {
        dirty: job.dirty,
        fresh: job.fresh,
        desc: job.desc,
        freshness: match job.question {
            Some(question) => answers[question],
            None => Freshness::Fresh,
        },
    }
}

/// A stage, decided by the answers.
pub open spec fn decided_stage(stage: StagePlan, answers: Seq<Freshness>) -> QueuedView {
    QueuedView {
        pkg: stage.pkg,
        stage: stage.stage,
        jobs: stage.jobs.map_values(|job: JobPlan| decided_job(job, answers)),
    }
}

/// The jobs of a script, decided by the answers.
pub open spec fn decided(script: ScriptView, answers: Seq<Freshness>) -> Seq<QueuedView> {
    script.stages.map_values(|stage: StagePlan| decided_stage(stage, answers))
}

/// Decides the jobs of a stage.
fn decide_stage(stage: PendingStage, answers: &Vec<Freshness>) -> (queued: QueuedStage)
    requires
        forall|j: int|
            0 <= j < stage@.jobs.len() ==> ((#[trigger] stage@.jobs[j]).question matches Some(q)
                ==> 0 <= q < answers@.len()),
    ensures
        queued@ == decided_stage(stage@, answers@),
{
    let ghost all = stage@.jobs;
    let ghost expected = decided_stage(stage@, answers@).jobs;
    let mut rest = stage.jobs;
    let mut jobs: Vec<Job> = Vec::new();
    let ghost mut done: int = 0;
    assert(views(jobs@) =~= expected.take(0));
    assert(views(rest@) =~= all.skip(0));
    while rest.len() > 0
        invariant
            0 <= done,
            done + rest@.len() == all.len(),
            views(rest@) == all.skip(done),
            expected == all.map_values(|job: JobPlan| decided_job(job, answers@)),
            views(jobs@) == expected.take(done),
            forall|j: int|
                0 <= j < all.len() ==> ((#[trigger] all[j]).question matches Some(q) ==> 0 <= q
                    < answers@.len()),
        decreases rest@.len(),
    {
        let ghost before = rest@;
        let pending = rest.remove(0);
        proof {
            assert(views(before)[0] == all[done]);
            assert(rest@ =~= before.drop_first());
            assert(views(rest@) =~= views(before).drop_first());
            assert(all.skip(done).drop_first() =~= all.skip(done + 1));
        }
        let freshness = match pending.question {
            Some(question) => answers[question],
            None => Freshness::Fresh,
        };
        let job = Job { dirty: pending.dirty, fresh: pending.fresh, desc: pending.desc, freshness };
        proof {
            assert(job@ =~= expected[done]);
            lemma_views_push(jobs@, job);
            assert(expected.take(done + 1) =~= expected.take(done).push(expected[done]));
            done = done + 1;
        }
        jobs.push(job);
    }
    assert(expected.take(expected.len() as int) =~= expected);
    QueuedStage { pkg: stage.pkg, stage: stage.stage, jobs }
}

/// Decides the jobs of a script by the answers to its questions.
pub fn decide(script: Script, answers: &Vec<Freshness>) -> (queue: JobQueue)
    requires
        sound(script@),
        answers@.len() == script@.questions.len(),
    ensures
        queue@ == decided(script@, answers@),
{
    let ghost all = script@.stages;
    let ghost expected = decided(script@, answers@);
    let ghost questions = script@.questions;
    let mut rest = script.stages;
    let mut stages: Vec<QueuedStage> = Vec::new();
    let ghost mut done: int = 0;
    assert(views(stages@) =~= expected.take(0));
    assert(views(rest@) =~= all.skip(0));
    while rest.len() > 0
        invariant
            0 <= done,
            done + rest@.len() == all.len(),
            views(rest@) == all.skip(done),
            expected == all.map_values(|stage: StagePlan| decided_stage(stage, answers@)),
            views(stages@) == expected.take(done),
            answers@.len() == questions.len(),
            forall|i: int| 0 <= i < all.len() ==> stage_sound(questions, #[trigger] all[i]),
        decreases rest@.len(),
    {
        let ghost before = rest@;
        let pending = rest.remove(0);
        proof {
            assert(views(before)[0] == all[done]);
            assert(rest@ =~= before.drop_first());
            assert(views(rest@) =~= views(before).drop_first());
            assert(all.skip(done).drop_first() =~= all.skip(done + 1));
            assert(stage_sound(questions, all[done]));
            assert forall|j: int| 0 <= j < pending@.jobs.len() implies ((
            #[trigger] pending@.jobs[j]).question matches Some(q) ==> 0 <= q < answers@.len()) by {
                assert(job_sound(questions, pending@.jobs[j]));
            }
        }
        let stage = decide_stage(pending, answers);
        proof {
            assert(stage@ == expected[done]);
            lemma_views_push(stages@, stage);
            assert(expected.take(done + 1) =~= expected.take(done).push(expected[done]));
            done = done + 1;
        }
        stages.push(stage);
    }
    assert(expected.take(expected.len() as int) =~= expected);
    JobQueue { stages }
}

/// Deciding a script leaves its stages and their jobs as they are: a job with a question is as fresh
/// as the answer says, and one without has nothing to be done.
pub proof fn law_answers_decide(script: ScriptView, answers: Seq<Freshness>, i: int, j: int)
    requires
        0 <= i < script.stages.len(),
    ensures
        decided(script, answers).len() == script.stages.len(),
        decided(script, answers)[i].pkg == script.stages[i].pkg,
        decided(script, answers)[i].stage == script.stages[i].stage,
        decided(script, answers)[i].jobs.len() == script.stages[i].jobs.len(),
        0 <= j < script.stages[i].jobs.len() ==> {
            let pending = script.stages[i].jobs[j];
            let job = decided(script, answers)[i].jobs[j];
            &&& job.dirty == pending.dirty
            &&& job.fresh == pending.fresh
            &&& job.desc == pending.desc
            &&& pending.question is Some ==> job.freshness == answers[pending.question->0]
            &&& pending.question is None ==> job.freshness == Freshness::Fresh
        },
{
}

/// What is told of the jobs of a build is what they hold.
pub proof fn law_queue_tells_what_it_holds(queue: JobQueue, stage: QueuedStage, job: Job)
    ensures
        queue@ == views(queue.stages@),
        stage@.pkg == stage.pkg,
        stage@.stage == stage.stage,
        stage@.jobs == views(stage.jobs@),
        job@.dirty == views(job.dirty@),
        job@.fresh == job.fresh,
        job@.desc == job.desc@,
        job@.freshness == job.freshness,
{
}

} // verus!
