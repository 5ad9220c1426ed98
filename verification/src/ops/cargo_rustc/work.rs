//! The work that a build consists of.

use crate::context::Kind;
use crate::path::Path;
use crate::process_builder::{Command, ProcessBuilder};
use vstd::prelude::*;

verus! {

/// What a fingerprint is kept of: it tells whether something has to be built anew.
#[derive(Debug, Clone, Copy, PartialEq, Eq, Structural)]
pub enum Prepare {
    /// The directory for the fingerprints of a package.
    Init { pkg: usize, kind: Kind },
    /// The build commands of a package.
    BuildCmd { pkg: usize },
    /// A target of a package, given by its place in it.
    Target { pkg: usize, target: usize, kind: Kind },
}

/// Whether something has to be built anew.
#[derive(Debug, Clone, Copy, PartialEq, Eq, Structural)]
pub enum Freshness {
    Fresh,
    Dirty,
}

/// A build command of a package.
#[derive(Debug, PartialEq, Eq)]
pub struct CustomBuild {
    /// Whether it is the first of its package.
    pub first: bool,
    /// The directory for its results.
    pub output: Path,
    /// Where earlier results were put aside.
    pub old_output: Path,
    pub command: ProcessBuilder,
    /// The package as it is shown to the user.
    pub package: String,
}

/// What a `CustomBuild` is.
pub struct CustomView {
    pub first: bool,
    pub output: Seq<u8>,
    pub old_output: Seq<u8>,
    pub command: Command,
    pub package: Seq<char>,
}

impl View for CustomBuild {
    type V = CustomView;

    open spec fn view(&self) -> CustomView {
        CustomView {
            first: self.first,
            output: self.output@,
            old_output: self.old_output@,
            command: self.command@,
            package: self.package@,
        }
    }
}

/// A run of the compiler or of the documentation tool.
#[derive(Debug, PartialEq, Eq)]
pub struct ToolRun {
    pub command: ProcessBuilder,
    /// Whether the package is the one that was asked for, not a dependency.
    pub primary: bool,
    /// The name of the package.
    pub name: String,
}

/// What a `ToolRun` is.
pub struct ToolView {
    pub command: Command,
    pub primary: bool,
    pub name: Seq<char>,
}

impl View for ToolRun {
    type V = ToolView;

    open spec fn view(&self) -> ToolView {
        ToolView { command: self.command@, primary: self.primary, name: self.name@ }
    }
}

/// Something to be done.
#[derive(Debug, PartialEq, Eq)]
pub enum Work {
    /// Run a build command.
    Custom(CustomBuild),
    /// Run the compiler.
    Rustc(ToolRun),
    /// Run the documentation tool.
    Rustdoc(ToolRun),
    /// Record that something was built, or that a directory is there.
    Fingerprint(Prepare),
}

/// What a `Work` is.
pub enum WorkView {
    Custom(CustomView),
    Rustc(ToolView),
    Rustdoc(ToolView),
    Fingerprint(Prepare),
}

impl View for Work {
    type V = WorkView;

    open spec fn view(&self) -> WorkView {
        match self {
            Work::Custom(custom) => WorkView::Custom(custom@),
            Work::Rustc(run) => WorkView::Rustc(run@),
            Work::Rustdoc(run) => WorkView::Rustdoc(run@),
            Work::Fingerprint(prepare) => WorkView::Fingerprint(*prepare),
        }
    }
}

/// How a job is shown to the user.
#[derive(Debug, PartialEq, Eq)]
pub enum Description {
    /// By a text.
    Text(String),
    /// By the command line of a process.
    Command(ProcessBuilder),
}

/// What a `Description` is.
pub enum DescriptionView {
    Text(Seq<char>),
    Command(Command),
}

impl View for Description {
    type V = DescriptionView;

    open spec fn view(&self) -> DescriptionView {
        match self {
            Description::Text(text) => DescriptionView::Text(text@),
            Description::Command(command) => DescriptionView::Command(command@),
        }
    }
}

/// A run of a tool that leads to results of a kind.
#[derive(Debug, PartialEq, Eq)]
pub struct Unit {
    pub work: Work,
    pub kind: Kind,
    pub desc: Description,
}

/// What a `Unit` is.
pub struct UnitView {
    pub work: WorkView,
    pub kind: Kind,
    pub desc: DescriptionView,
}

impl View for Unit {
    type V = UnitView;

    open spec fn view(&self) -> UnitView {
        UnitView { work: self.work@, kind: self.kind, desc: self.desc@ }
    }
}

/// What is told of a piece of work, and of how it is shown, is what they hold.
pub proof fn law_work_tells_what_it_holds(work: Work, desc: Description, unit: Unit)
    ensures
        work matches Work::Custom(custom) ==> {
            &&& work@ is Custom
            &&& work@->Custom_0.first == custom.first
            &&& work@->Custom_0.output == custom.output.repr@
            &&& work@->Custom_0.old_output == custom.old_output.repr@
            &&& work@->Custom_0.command == custom.command@
            &&& work@->Custom_0.package == custom.package@
        },
        work matches Work::Rustc(run) ==> work@ == WorkView::Rustc(
            ToolView { command: run.command@, primary: run.primary, name: run.name@ },
        ),
        work matches Work::Rustdoc(run) ==> work@ == WorkView::Rustdoc(
            ToolView { command: run.command@, primary: run.primary, name: run.name@ },
        ),
        work matches Work::Fingerprint(prepare) ==> work@ == WorkView::Fingerprint(prepare),
        desc matches Description::Text(text) ==> desc@ == DescriptionView::Text(text@),
        desc matches Description::Command(command) ==> desc@ == DescriptionView::Command(command@),
        unit@.work == unit.work@,
        unit@.kind == unit.kind,
        unit@.desc == unit.desc@,
{
}

} // verus!
