//! The task runner's part that computes: a command line becomes a program and
//! its arguments.

use vstd::prelude::*;
use crate::text::split_words;
use crate::text::texts;
use crate::text::words;

verus! {

/// Why a command did not run.
#[derive(Debug)]
pub enum RunError {
    /// The command line holds no word.
    EmptyCommand,
    /// The program could not be launched; the text says why.
    SpawnFailure(String),
}

impl RunError {
    /// The text shown in the log.
    pub fn message(&self) -> (text: String)
        ensures
            text@ == match *self {
                RunError::EmptyCommand => "Empty command"@,
                RunError::SpawnFailure(reason) => reason@,
            },
    {
        match self {
            RunError::EmptyCommand => "Empty command".to_owned(),
            RunError::SpawnFailure(reason) => reason.clone(),
        }
    }
}

/// A program and the arguments to hand to it.
#[derive(Debug)]
pub struct Invocation {
    pub program: String,
    pub args: Vec<String>,
}

impl Invocation {
    /// Takes the first word as the program and the others as its arguments.
    /// Without a word there is nothing to run.
    pub fn from_words(parts: Vec<String>) -> (r: Result<Invocation, RunError>)
        ensures
            match r {
                Ok(invocation) => {
                    &&& parts@.len() > 0
                    &&& invocation.program@ == parts@[0]@
                    &&& texts(invocation.args@) == texts(parts@).skip(1)
                },
                Err(RunError::EmptyCommand) => parts@.len() == 0,
                Err(_) => false,
            },
    {
        let mut parts = parts;
        if parts.len() == 0 {
            return Err(RunError::EmptyCommand);
        }
        let ghost all = parts@;
        let program = parts.remove(0);
        proof {
            assert(texts(parts@) =~= texts(all).skip(1));
        }
        Ok(Invocation { program, args: parts })
    }
}

/// Splits a command line at white space into the program and its arguments.
/// There is no quoting: every word is an argument of its own.
pub fn plan(command: &str) -> (r: Result<Invocation, RunError>)
    ensures
        match r {
            Ok(invocation) => {
                &&& words(command@).len() > 0
                &&& invocation.program@ == words(command@)[0]
                &&& texts(invocation.args@) == words(command@).skip(1)
            },
            Err(RunError::EmptyCommand) => words(command@).len() == 0,
            Err(_) => false,
        },
{
    let parts = split_words(command);
    proof {
        if parts@.len() > 0 {
            assert(texts(parts@)[0] == parts@[0]@);
        }
    }
    Invocation::from_words(parts)
}

} // verus!
