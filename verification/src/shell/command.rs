use vstd::prelude::*;

verus! {

/// A command of the control shell: what it runs, and its help text.
pub struct Command<F> {
    pub command: F,
    pub help: String,
}

impl<F> Command<F> {
    pub fn new(help: String, command: F) -> (res: Self)
        ensures
            res.help == help,
            res.command == command,
    {
        Self { command, help }
    }
}

} // verus!
