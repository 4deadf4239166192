use vstd::prelude::*;

verus! {

/// What one prompt of the shell gives back.
#[allow(non_camel_case_types)]
#[derive(Debug, Clone, PartialEq)]
pub enum InputResult {
    /// A line as the user typed it.
    CMD(String),
}

/// Reads the lines of the control shell from the terminal.
#[derive(Debug, Clone, Copy)]
pub struct InputReader;

} // verus!
