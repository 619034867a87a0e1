//! The changelog of a package, from what the system's changelog command
//! printed.

use crate::text::{joined, lines_of, split_lines};
use crate::types::texts;
use vstd::prelude::*;
use vstd::string::*;

verus! {

/// The changelog for what the command printed: its output line by line
/// where it succeeded, with a notice in place of an empty output; what it
/// printed as its error where it failed.
pub open spec fn changelog_of(success: bool, stdout: Seq<char>, stderr: Seq<char>) -> Result<
    Seq<Seq<char>>,
    Seq<char>,
> {
    if success {
        if lines_of(stdout).len() == 0 {
            Ok(seq!["No changelog available."@])
        } else {
            Ok(lines_of(stdout))
        }
    } else {
        Err("Error: "@ + stderr)
    }
}

/// The message for a changelog command that could not be run.
pub open spec fn not_run(reason: Seq<char>) -> Seq<char> {
    "Failed to run apt changelog: "@ + reason
}

/// The changelog for what the command printed.
pub fn changelog_lines(success: bool, stdout: &str, stderr: &str) -> (r: Result<Vec<String>, String>)
    ensures
        match r {
            Ok(lines) => changelog_of(success, stdout@, stderr@) == Ok::<Seq<Seq<char>>, Seq<char>>(
                texts(lines@),
            ),
            Err(message) => changelog_of(success, stdout@, stderr@) == Err::<
                Seq<Seq<char>>,
                Seq<char>,
            >(message@),
        },
{
    if success {
        let mut lines = split_lines(stdout);
        if lines.len() == 0 {
            let notice = String::from_str("No changelog available.");
            lines.push(notice);
            proof {
                assert(texts(lines@) =~= seq!["No changelog available."@]);
            }
        }
        Ok(lines)
    } else {
        Err(joined("Error: ", stderr))
    }
}

/// The message for a changelog command that could not be run.
pub fn changelog_failure(reason: &str) -> (message: String)
    ensures
        message@ == not_run(reason@),
{
    joined("Failed to run apt changelog: ", reason)
}

} // verus!
