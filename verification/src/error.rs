//! Errors.

use crate::text::opt_view;
use vstd::prelude::*;

verus! {

/// How a process ended.
#[derive(Debug, Clone, Copy, PartialEq, Eq)]
pub enum ProcessExit {
    /// It ended by itself, with this status.
    ExitStatus(isize),
    /// It was ended by this signal.
    ExitSignal(isize),
}

/// A process that could not be run, or that failed.
#[derive(Debug, PartialEq, Eq)]
pub struct ProcessError {
    /// What went wrong.
    pub msg: String,
    /// How the process ended, if it was started.
    pub exit: Option<ProcessExit>,
    /// What the process wrote, if that was collected.
    pub output: Option<String>,
}

/// What a `ProcessError` says.
pub struct ProcessErrorView {
    pub msg: Seq<char>,
    pub exit: Option<ProcessExit>,
    pub output: Option<Seq<char>>,
}

impl View for ProcessError {
    type V = ProcessErrorView;

    open spec fn view(&self) -> ProcessErrorView {
        ProcessErrorView { msg: self.msg@, exit: self.exit, output: opt_view(self.output) }
    }
}

impl Clone for ProcessError {
    fn clone(&self) -> (copy: ProcessError)
        ensures
            copy == *self,
    {
        let output = match &self.output {
            Some(output) => Some(output.clone()),
            None => None,
        };
        ProcessError { msg: self.msg.clone(), exit: self.exit, output }
    }
}

/// An error of a build. One that is marked as human is meant to be shown to the user.
#[derive(Debug, PartialEq, Eq)]
pub enum CargoError {
    /// A message, with the error that led to it.
    Message { description: String, is_human: bool, cause: Option<Box<CargoError>> },
    /// A failed process.
    Process { error: ProcessError, is_human: bool },
}

/// What a `CargoError` says.
pub enum ErrorView {
    Message { description: Seq<char>, is_human: bool, cause: Option<Box<ErrorView>> },
    Process { error: ProcessErrorView, is_human: bool },
}

impl CargoError {
    /// What the error says.
    pub open spec fn says(self) -> ErrorView
        decreases self,
    {
        match self {
            CargoError::Message { description, is_human, cause } => ErrorView::Message {
                description: description@,
                is_human,
                cause: match cause {
                    Some(cause) => Some(Box::new((*cause).says())),
                    None => None,
                },
            },
            CargoError::Process { error, is_human } => ErrorView::Process { error: error@, is_human },
        }
    }
}

impl View for CargoError {
    type V = ErrorView;

    open spec fn view(&self) -> ErrorView {
        self.says()
    }
}

impl Clone for CargoError {
    fn clone(&self) -> (copy: CargoError)
        ensures
            copy == *self,
        decreases self,
    {
        match self {
            CargoError::Message { description, is_human, cause } => {
                let cause = match cause {
                    Some(cause) => Some(Box::new((&**cause).clone())),
                    None => None,
                };
                CargoError::Message { description: description.clone(), is_human: *is_human, cause }
            },
            CargoError::Process { error, is_human } => CargoError::Process {
                error: error.clone(),
                is_human: *is_human,
            },
        }
    }
}

/// A message for the user, with no cause.
pub open spec fn human_view(description: Seq<char>) -> ErrorView {
    ErrorView::Message { description, is_human: true, cause: None }
}

/// A message that is not for the user, with no cause.
pub open spec fn internal_view(description: Seq<char>) -> ErrorView {
    ErrorView::Message { description, is_human: false, cause: None }
}

/// A message for the user that a failed process led to.
pub open spec fn caused_human_view(description: Seq<char>, error: ProcessErrorView) -> ErrorView {
    ErrorView::Message {
        description,
        is_human: true,
        cause: Some(Box::new(ErrorView::Process { error, is_human: false })),
    }
}

/// A message for the user.
pub fn human(description: String) -> (error: CargoError)
    ensures
        error@ == human_view(description@),
{
    CargoError::Message { description, is_human: true, cause: None }
}

/// A message that is not for the user.
pub fn internal(description: String) -> (error: CargoError)
    ensures
        error@ == internal_view(description@),
{
    CargoError::Message { description, is_human: false, cause: None }
}

/// A message for the user that a failed process led to.
pub fn caused_human(description: String, error: ProcessError) -> (caused: CargoError)
    ensures
        caused@ == caused_human_view(description@, error@),
{
    let cause = CargoError::Process { error, is_human: false };
    assert(cause@ == ErrorView::Process { error: error@, is_human: false });
    CargoError::Message { description, is_human: true, cause: Some(Box::new(cause)) }
}

/// A message that is not for the user and that another error led to.
pub fn caused_internal(description: String, error: CargoError) -> (caused: CargoError)
    ensures
        caused@ == (ErrorView::Message {
            description: description@,
            is_human: false,
            cause: Some(Box::new(error@)),
        }),
{
    CargoError::Message { description, is_human: false, cause: Some(Box::new(error)) }
}

impl ProcessError {
    /// Marks the error as one to be shown to the user.
    pub fn mark_human(self) -> (error: CargoError)
        ensures
            error@ == (ErrorView::Process { error: self@, is_human: true }),
    {
        CargoError::Process { error: self, is_human: true }
    }

    /// The error as it stands, not marked as one to be shown to the user.
    pub fn boxed(self) -> (error: CargoError)
        ensures
            error@ == (ErrorView::Process { error: self@, is_human: false }),
    {
        CargoError::Process { error: self, is_human: false }
    }
}

/// Errors keep what they are made of: two that say the same have the same message, are both for the
/// user or both not, and come with causes that say the same.
pub proof fn law_errors_say_all(a: CargoError, b: CargoError)
    requires
        a@ == b@,
    ensures
        a is Message <==> b is Message,
        a is Message ==> a->description@ == b->description@ && a->Message_is_human
            == b->Message_is_human && (a->cause is Some <==> b->cause is Some) && (a->cause is Some
            ==> (*a->cause->0)@ == (*b->cause->0)@),
        a is Process ==> a->Process_is_human == b->Process_is_human && a->error.msg@
            == b->error.msg@ && a->error.exit == b->error.exit && opt_view(a->error.output)
            == opt_view(b->error.output),
{
    reveal_with_fuel(CargoError::says, 2);
}

/// Messages are for the user or not as they are made, and have a cause only if they are given one.
pub proof fn law_messages(description: Seq<char>, error: ProcessErrorView)
    ensures
        human_view(description) == (ErrorView::Message { description, is_human: true, cause: None }),
        internal_view(description) == (ErrorView::Message {
            description,
            is_human: false,
            cause: None,
        }),
        caused_human_view(description, error) == (ErrorView::Message {
            description,
            is_human: true,
            cause: Some(Box::new(ErrorView::Process { error, is_human: false })),
        }),
{
}

/// What an error says is what it holds.
pub proof fn law_error_says_what_it_holds(error: CargoError)
    ensures
        error matches CargoError::Message { description, is_human, cause } ==> {
            &&& error@ is Message
            &&& error@->description == description@
            &&& error@->Message_is_human == is_human
            &&& cause is None ==> error@->cause is None
            &&& cause is Some ==> error@->cause is Some && *error@->cause->0 == (*cause->0)@
        },
        error matches CargoError::Process { error: failed, is_human } ==> {
            &&& error@ is Process
            &&& error@->error.msg == failed.msg@
            &&& error@->error.exit == failed.exit
            &&& failed.output is Some ==> error@->error.output == Some(failed.output->0@)
            &&& failed.output is None ==> error@->error.output is None
            &&& error@->Process_is_human == is_human
        },
{
    reveal_with_fuel(CargoError::says, 2);
}

} // verus!
