//! The decision made from the command line: the flags recognized and the
//! precedence between them. Reading the actual arguments is I/O and happens
//! outside the library; only the booleans and the count of leftover
//! arguments come in.
use vstd::prelude::*;

verus! {

/// What an invocation does, decided from its command-line flags.
#[derive(Debug, PartialEq, Eq, Structural)]
pub enum CliAction {
    /// Print the usage text and exit successfully.
    ShowHelp,
    /// Print the version and exit successfully.
    ShowVersion,
    /// Run the interactive session.
    Run,
    /// Unrecognized arguments remain: print the usage text and fail.
    UsageError,
}

/// The decision: help wins over version, version over everything else, and
/// any leftover argument is a usage error.
pub open spec fn cli_action_spec(has_help: bool, has_version: bool, leftover: nat) -> CliAction {
    if has_help {
        CliAction::ShowHelp
    } else if has_version {
        CliAction::ShowVersion
    } else if leftover > 0 {
        CliAction::UsageError
    } else {
        CliAction::Run
    }
}

/// Decides what an invocation does from its flags and the number of
/// arguments that no flag consumed.
pub fn cli_action(has_help: bool, has_version: bool, leftover: usize) -> (a: CliAction)
    ensures
        a == cli_action_spec(has_help, has_version, leftover as nat),
{
    if has_help {
        CliAction::ShowHelp
    } else if has_version {
        CliAction::ShowVersion
    } else if leftover > 0 {
        CliAction::UsageError
    } else {
        CliAction::Run
    }
}

} // verus!
