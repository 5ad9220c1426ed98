//! The jobs of a build, and the questions that have to be answered before they can be run.

use crate::ops::cargo_rustc::work::{Description, DescriptionView, Prepare, Work, WorkView};
use crate::text::views;
use vstd::prelude::*;

verus! {

/// The stages that a package goes through.
#[derive(Debug, Clone, Copy, PartialEq, Eq, Structural)]
pub enum Stage {
    StageStart,
    StageCustomBuild,
    StageLibraries,
    StageBinaries,
    StageEnd,
}

/// A job of which it is not known yet whether it has to be done.
#[derive(Debug, PartialEq, Eq)]
pub struct PendingJob {
    /// What is done if it has to be done, in order.
    pub dirty: Vec<Work>,
    /// The fingerprint that is touched if it has not.
    pub fresh: Prepare,
    pub desc: Description,
    /// The question that tells whether it has to be done, by its place in the script; a job without
    /// one never has to.
    pub question: Option<usize>,
}

/// What a `PendingJob` is.
#[verifier::ext_equal]
pub struct JobPlan {
    pub dirty: Seq<WorkView>,
    pub fresh: Prepare,
    pub desc: DescriptionView,
    pub question: Option<int>,
}

impl View for PendingJob {
    type V = JobPlan;

    open spec fn view(&self) -> JobPlan {
        JobPlan {
            dirty: views(self.dirty@),
            fresh: self.fresh,
            desc: self.desc@,
            question: match self.question {
                Some(question) => Some(question as int),
                None => None,
            },
        }
    }
}

/// The jobs of a stage of a package.
#[derive(Debug, PartialEq, Eq)]
pub struct PendingStage {
    pub pkg: usize,
    pub stage: Stage,
    pub jobs: Vec<PendingJob>,
}

/// What a `PendingStage` is.
#[verifier::ext_equal]
pub struct StagePlan {
    pub pkg: usize,
    pub stage: Stage,
    pub jobs: Seq<JobPlan>,
}

impl View for PendingStage {
    type V = StagePlan;

    open spec fn view(&self) -> StagePlan {
        StagePlan { pkg: self.pkg, stage: self.stage, jobs: views(self.jobs@) }
    }
}

/// The questions of a build about fingerprints, in the order in which they are asked, and the jobs
/// that follow once they are answered.
#[derive(Debug, PartialEq, Eq)]
pub struct Script {
    pub questions: Vec<Prepare>,
    pub stages: Vec<PendingStage>,
}

/// What a `Script` is.
#[verifier::ext_equal]
pub struct ScriptView {
    pub questions: Seq<Prepare>,
    pub stages: Seq<StagePlan>,
}

impl View for Script {
    type V = ScriptView;

    open spec fn view(&self) -> ScriptView {
        ScriptView { questions: self.questions@, stages: views(self.stages@) }
    }
}

impl ScriptView {
    /// A script of a build that does nothing.
    pub open spec fn empty() -> ScriptView {
        ScriptView { questions: Seq::empty(), stages: Seq::empty() }
    }

    /// The script with further questions.
    pub open spec fn asking(self, questions: Seq<Prepare>) -> ScriptView {
        ScriptView { questions: self.questions + questions, ..self }
    }

    /// The script with a further stage.
    pub open spec fn enqueue(self, pkg: usize, stage: Stage, jobs: Seq<JobPlan>) -> ScriptView {
        ScriptView { stages: self.stages.push(StagePlan { pkg, stage, jobs }), ..self }
    }
}

impl Script {
    /// A script of a build that does nothing.
    pub fn new() -> (script: Script)
        ensures
            script@ == ScriptView::empty(),
    {
        let script = Script { questions: Vec::new(), stages: Vec::new() };
        assert(script@ =~= ScriptView::empty());
        script
    }

    /// Adds a question and tells its place.
    pub fn ask(&mut self, question: Prepare) -> (at: usize)
        ensures
            final(self)@ == old(self)@.asking(seq![question]),
            at == old(self)@.questions.len(),
    {
        let at = self.questions.len();
        self.questions.push(question);
        assert(self@ =~= old(self)@.asking(seq![question]));
        at
    }

    /// Adds a stage of a package.
    pub fn enqueue(&mut self, pkg: usize, stage: Stage, jobs: Vec<PendingJob>)
        ensures
            final(self)@ == old(self)@.enqueue(pkg, stage, views(jobs@)),
    {
        self.stages.push(PendingStage { pkg, stage, jobs });
        assert(self@ =~= old(self)@.enqueue(pkg, stage, views(jobs@)));
    }
}

/// What is told of a script is what it holds.
pub proof fn law_script_tells_what_it_holds(script: Script, stage: PendingStage, job: PendingJob)
    ensures
        script@.questions == script.questions@,
        script@.stages == views(script.stages@),
        stage@.pkg == stage.pkg,
        stage@.stage == stage.stage,
        stage@.jobs == views(stage.jobs@),
        job@.dirty == views(job.dirty@),
        job@.fresh == job.fresh,
        job@.desc == job.desc@,
        job.question is Some ==> job@.question == Some(job.question->0 as int),
        job.question is None ==> job@.question is None,
{
}

/// Further questions and stages come behind those that are there.
pub proof fn law_scripts_grow(
    script: ScriptView,
    questions: Seq<Prepare>,
    pkg: usize,
    stage: Stage,
    jobs: Seq<JobPlan>,
)
    ensures
        ScriptView::empty().questions.len() == 0,
        ScriptView::empty().stages.len() == 0,
        script.asking(questions).questions == script.questions + questions,
        script.asking(questions).stages == script.stages,
        script.enqueue(pkg, stage, jobs).questions == script.questions,
        script.enqueue(pkg, stage, jobs).stages.len() == script.stages.len() + 1,
        script.enqueue(pkg, stage, jobs).stages.drop_last() == script.stages,
        script.enqueue(pkg, stage, jobs).stages.last().pkg == pkg,
        script.enqueue(pkg, stage, jobs).stages.last().stage == stage,
        script.enqueue(pkg, stage, jobs).stages.last().jobs == jobs,
{
    assert(script.enqueue(pkg, stage, jobs).stages.drop_last() =~= script.stages);
}

} // verus!
