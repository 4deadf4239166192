use vstd::prelude::*;

use super::argument::EvaluatedArg;

verus! {

/// A command ready to run: the shell it runs in, its evaluated arguments
/// and its callback.
pub struct CommandInstance<'a, S, C> {
    shell: &'a S,
    arg_list: Vec<EvaluatedArg>,
    callback: Option<C>,
}

impl<'a, S, C> CommandInstance<'a, S, C> {
    pub fn new(shell: &'a S, arg_list: Vec<EvaluatedArg>, callback: Option<C>) -> (res: Self)
        ensures
            res.shell() == shell,
            res.arg_list() == arg_list,
            res.callback() == callback,
    {
        CommandInstance { shell, arg_list, callback }
    }

    pub closed spec fn shell(&self) -> &'a S {
        self.shell
    }

    pub closed spec fn arg_list(&self) -> Vec<EvaluatedArg> {
        self.arg_list
    }

    pub closed spec fn callback(&self) -> Option<C> {
        self.callback
    }

    /// The shell the command runs in.
    pub fn get_shell(&self) -> (shell: &'a S)
        ensures
            shell == self.shell(),
    {
        self.shell
    }

    /// The evaluated arguments.
    pub fn get_arg_list(&self) -> (args: &Vec<EvaluatedArg>)
        ensures
            *args == self.arg_list(),
    {
        &self.arg_list
    }

    /// The callback, if the command has one.
    pub fn get_callback(&self) -> (callback: &Option<C>)
        ensures
            *callback == self.callback(),
    {
        &self.callback
    }
}

} // verus!
