//! What a build is asked to do.

use crate::text::opt_view;
use vstd::prelude::*;

verus! {

/// What a build is asked to do.
#[derive(Debug, PartialEq, Eq)]
pub struct CompileOptions {
    /// Whether what is known of remote packages is brought up to date first.
    pub update: bool,
    /// What is built for.
    pub env: String,
    /// How many jobs run at the same time.
    pub jobs: Option<usize>,
    /// The platform to build for, if it is not the host.
    pub target: Option<String>,
    /// Whether dependencies that only development needs are built.
    pub dev_deps: bool,
}

/// What a `CompileOptions` asks for.
pub struct OptionsView {
    pub update: bool,
    pub env: Seq<char>,
    pub jobs: Option<usize>,
    pub target: Option<Seq<char>>,
    pub dev_deps: bool,
}

impl View for CompileOptions {
    type V = OptionsView;

    open spec fn view(&self) -> OptionsView {
        OptionsView {
            update: self.update,
            env: self.env@,
            jobs: self.jobs,
            target: opt_view(self.target),
            dev_deps: self.dev_deps,
        }
    }
}

/// What is asked for is what is held.
pub proof fn law_options_ask_for_what_they_hold(options: CompileOptions)
    ensures
        options@.update == options.update,
        options@.env == options.env@,
        options@.jobs == options.jobs,
        options.target is Some ==> options@.target == Some(options.target->0@),
        options.target is None ==> options@.target is None,
        options@.dev_deps == options.dev_deps,
{
}

} // verus!
