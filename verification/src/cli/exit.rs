//! How a command ends.

use crate::cli::run::run_failure;
use crate::cli::test::test_failure;
use crate::error::{CargoError, ErrorView, ProcessErrorView, ProcessExit};
use vstd::prelude::*;

verus! {

/// The exit code of a command that failed by itself.
pub const FAILURE: usize = 101;

/// A command that failed.
#[derive(Debug, PartialEq, Eq)]
pub enum CliError {
    /// With a message.
    Message { message: String, exit_code: usize },
    /// With an error.
    Error { error: CargoError, exit_code: usize },
}

/// What a `CliError` is.
pub enum CliErrorView {
    Message { message: Seq<char>, exit_code: usize },
    Error { error: ErrorView, exit_code: usize },
}

impl View for CliError {
    type V = CliErrorView;

    open spec fn view(&self) -> CliErrorView {
        match self {
            CliError::Message { message, exit_code } => CliErrorView::Message {
                message: message@,
                exit_code: *exit_code,
            },
            CliError::Error { error, exit_code } => CliErrorView::Error {
                error: error@,
                exit_code: *exit_code,
            },
        }
    }
}

impl CliError {
    /// A command that failed with a message.
    pub fn new(message: &str, exit_code: usize) -> (failed: CliError)
        ensures
            failed@ == (CliErrorView::Message { message: message@, exit_code }),
    {
        CliError::Message { message: message.to_owned(), exit_code }
    }

    /// A command that failed with an error.
    pub fn from_boxed(error: CargoError, exit_code: usize) -> (failed: CliError)
        ensures
            failed@ == (CliErrorView::Error { error: error@, exit_code }),
    {
        CliError::Error { error, exit_code }
    }
}

/// The exit code for the status of a process: a negative status is counted from the end of the
/// range.
pub open spec fn exit_code_of(status: isize) -> int {
    if status >= 0 {
        status as int
    } else {
        status + usize::MAX + 1
    }
}

/// The exit code for the status of a process.
pub fn to_exit_code(status: isize) -> (code: usize)
    ensures
        code == exit_code_of(status),
{
    if status >= 0 {
        status as usize
    } else {
        let below: isize = -(status + 1);
        usize::MAX - below as usize
    }
}

/// The exit code of a command that failed.
pub open spec fn code_of(failed: CliErrorView) -> usize {
    match failed {
        CliErrorView::Message { message, exit_code } => exit_code,
        CliErrorView::Error { error, exit_code } => exit_code,
    }
}

/// Different statuses lead to different exit codes, and each of them fits.
pub proof fn law_exit_codes_differ(a: isize, b: isize)
    ensures
        0 <= exit_code_of(a) <= usize::MAX,
        exit_code_of(a) == exit_code_of(b) ==> a == b,
{
    assert(a <= isize::MAX <= usize::MAX);
    assert(isize::MAX + isize::MAX + 1 <= usize::MAX);
}

/// Running a program and running tests end with the same exit code for the same failure: the status
/// of the failed process if it has one, and else the one of a command that failed by itself.
pub proof fn law_exit_codes_agree(error: ProcessErrorView)
    ensures
        code_of(run_failure(error)) == code_of(test_failure(error)),
        error.exit matches Some(ProcessExit::ExitStatus(status)) ==> code_of(run_failure(error))
            == exit_code_of(status),
        !(error.exit matches Some(ProcessExit::ExitStatus(_))) ==> code_of(run_failure(error))
            == FAILURE,
{
    if let Some(ProcessExit::ExitStatus(status)) = error.exit {
        law_exit_codes_differ(status, status);
    }
}

/// A status that is not negative is the exit code itself, and any other is less than it by the number
/// of exit codes.
pub proof fn law_exit_code_is_the_status(status: isize)
    ensures
        status >= 0 ==> exit_code_of(status) == status,
        status < 0 ==> exit_code_of(status) - status == usize::MAX + 1,
{
}

/// What is told of a failed command is what it holds.
pub proof fn law_failed_command_tells_what_it_holds(failed: CliError)
    ensures
        failed matches CliError::Message { message, exit_code } ==> failed@ == (
        CliErrorView::Message { message: message@, exit_code }),
        failed matches CliError::Error { error, exit_code } ==> failed@ == (CliErrorView::Error {
            error: error@,
            exit_code,
        }),
{
}

} // verus!
