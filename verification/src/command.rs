//! Command-line tokenization for spawned processes, with shell-style
//! quoting rather than naive whitespace splitting.

use vstd::prelude::*;
use vstd::string::StringExecFns;

verus! {

/// The shell-style tokenization of a command line; `None` when the line
/// cannot be tokenized (an unclosed quote, for one).
pub uninterp spec fn shell_tokens(s: Seq<char>) -> Option<Seq<Seq<char>>>;

/// Relies on shlex::split: tokenizes a line with shell-style quoting, a
/// function of the characters alone, and returns None exactly when the
/// input is erroneous.
#[verifier::external_body]
fn shell_split(s: &str) -> (r: Option<Vec<String>>)
    ensures
        match r {
            Some(v) => shell_tokens(s@) == Some(v@.map_values(|t: String| t@)),
            None => shell_tokens(s@) is None,
        },
{
    shlex::split(s)
}

/// Why a command line was rejected.
#[derive(Clone, Copy, Debug, PartialEq, Eq, Structural)]
pub enum CommandError {
    /// The line cannot be tokenized.
    Invalid,
    /// The line tokenizes to no tokens at all.
    Empty,
}

impl CommandError {
    /// The diagnostic for a rejected command line.
    pub fn message(&self, command: &str) -> (m: String)
        ensures
            *self is Invalid ==> m@ == "Invalid command: "@ + command@,
            *self is Empty ==> m@ == "Empty command provided"@,
    {
        match self {
            CommandError::Invalid => {
                let mut m = String::new();
                m.append("Invalid command: ");
                m.append(command);
                proof {
                    assert(m@ =~= "Invalid command: "@ + command@);
                }
                m
            },
            CommandError::Empty => String::from_str("Empty command provided"),
        }
    }
}

/// Splits a command line into its program and argument tokens: a line
/// that cannot be tokenized is Invalid, one that tokenizes to nothing is
/// Empty; any other line yields its tokens, program first.
pub fn parse_command(command: &str) -> (r: Result<Vec<String>, CommandError>)
    ensures
        match r {
            Ok(tokens) => {
                &&& shell_tokens(command@) == Some(tokens@.map_values(|t: String| t@))
                &&& tokens@.len() > 0
            },
            Err(CommandError::Invalid) => shell_tokens(command@) is None,
            Err(CommandError::Empty) => shell_tokens(command@) == Some(
                Seq::<Seq<char>>::empty(),
            ),
        },
{
    match shell_split(command) {
        None => Err(CommandError::Invalid),
        Some(tokens) => {
            if tokens.len() == 0 {
                proof {
                    assert(tokens@.map_values(|t: String| t@) =~= Seq::<Seq<char>>::empty());
                }
                Err(CommandError::Empty)
            } else {
                Ok(tokens)
            }
        },
    }
}

} // verus!
