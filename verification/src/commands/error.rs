use vstd::prelude::*;

use super::argument::ArgType;

verus! {

/// Why a command line could not be turned into a command instance.
#[derive(Debug, Clone, PartialEq)]
pub enum CommandError {
    /// The command's name, how many arguments it takes, how many it was given.
    TooManyArguments(String, usize, usize),
    /// The command's name, how many arguments it takes, how many it was given.
    TooFewArguments(String, usize, usize),
    /// The token that could not be read, and the type it was read as.
    InvalidArgument(String, ArgType),
}

} // verus!
