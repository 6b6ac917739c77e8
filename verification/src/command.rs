//! What to make of a finished `winget` command.

use vstd::prelude::*;
use vstd::string::StringExecFns;
use crate::package::WingetPackage;
use crate::parser::{parse, parse_winget_output};

verus! {

/// A command that failed and printed nothing to parse.
#[derive(Debug, Clone, PartialEq, Eq)]
pub struct CommandFailure {
    /// What the command wrote to its standard output.
    pub stdout: String,
    /// What the command wrote to its standard error.
    pub stderr: String,
}

/// The message for a failed command with these outputs.
pub open spec fn failure_message(stdout: Seq<char>, stderr: Seq<char>) -> Seq<char> {
    "Winget command failed: "@ + stdout + " "@ + stderr
}

impl CommandFailure {
    /// The failure as one line of text.
    pub fn message(&self) -> (text: String)
        ensures
            text@ == failure_message(self.stdout@, self.stderr@),
    {
        let mut text = String::from_str("Winget command failed: ");
        text.append(self.stdout.as_str());
        text.append(" ");
        text.append(self.stderr.as_str());
        text
    }
}

/// Reads the outcome of a listing command. Whatever it printed is parsed
/// where it exited with success, and also where it failed but printed
/// something; a command that failed and printed nothing is a failure that
/// carries both outputs.
pub fn interpret_output(succeeded: bool, stdout: &str, stderr: &str) -> (out: Result<
    Vec<WingetPackage>,
    CommandFailure,
>)
    ensures
        succeeded || stdout@.len() > 0 ==> out is Ok && out.unwrap().deep_view() == parse(stdout@),
        !succeeded && stdout@.len() == 0 ==> out is Err && out.unwrap_err().stdout@ == stdout@
            && out.unwrap_err().stderr@ == stderr@,
{
    if succeeded || !stdout.is_empty() {
        Ok(parse_winget_output(stdout))
    } else {
        Err(CommandFailure { stdout: String::from_str(stdout), stderr: String::from_str(stderr) })
    }
}

} // verus!
