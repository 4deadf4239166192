use vstd::prelude::*;
use vstd::string::StringExecFns;

use super::argument::{ArgToken, ArgType, EvaluatedArg, spec_evaluate};
use super::error::CommandError;
use super::instance::CommandInstance;

verus! {

/// The abstract content of a command definition.
pub struct DefinitionView<C> {
    pub name: Seq<char>,
    pub arg_list: Seq<ArgType>,
    pub callback: Option<C>,
    pub description: Seq<char>,
}

/// One call of a builder method of a command definition.
pub enum DefinitionEdit<C> {
    AddArg(ArgType),
    SetDescription(Seq<char>),
    SetCallback(C),
}

impl<C> DefinitionView<C> {
    /// The definition after one builder call.
    pub open spec fn edit(self, e: DefinitionEdit<C>) -> Self {
        match e {
            DefinitionEdit::AddArg(t) => DefinitionView { arg_list: self.arg_list.push(t), ..self },
            DefinitionEdit::SetDescription(d) => DefinitionView { description: d, ..self },
            DefinitionEdit::SetCallback(c) => DefinitionView { callback: Some(c), ..self },
        }
    }

    /// The definition after a sequence of builder calls, in order.
    pub open spec fn edits(self, es: Seq<DefinitionEdit<C>>) -> Self
        decreases es.len(),
    {
        if es.len() == 0 {
            self
        } else {
            self.edits(es.drop_last()).edit(es.last())
        }
    }
}

/// The name of a definition is the one it was built with: no sequence of
/// builder calls changes it (and `build` copies it).
pub proof fn law_builder_keeps_name<C>(start: DefinitionView<C>, es: Seq<DefinitionEdit<C>>)
    ensures
        start.edits(es).name == start.name,
    decreases es.len(),
{
    if es.len() > 0 {
        law_builder_keeps_name(start, es.drop_last());
    }
}

/// A command of the shell: its name, the types of its arguments, what it
/// does and how it is described.
#[derive(Debug, Clone)]
pub struct CommandDefinition<C> {
    name: &'static str,
    arg_list: Vec<ArgType>,
    callback: Option<C>,
    description: &'static str,
}

impl<C> View for CommandDefinition<C> {
    type V = DefinitionView<C>;

    closed spec fn view(&self) -> DefinitionView<C> {
        DefinitionView {
            name: self.name@,
            arg_list: self.arg_list@,
            callback: self.callback,
            description: self.description@,
        }
    }
}

/// The position of the first token that does not read as the argument type
/// in the same position, if there is one.
pub open spec fn first_invalid(types: Seq<ArgType>, tokens: Seq<ArgToken>, i: int) -> bool {
    &&& 0 <= i < types.len()
    &&& spec_evaluate(types[i], tokens[i]@) is None
    &&& forall|j: int| 0 <= j < i ==> spec_evaluate(types[j], tokens[j]@) is Some
}

impl<C: Copy> CommandDefinition<C> {
    /// A command with this name, no argument, no callback and an empty description.
    pub fn new(name: &'static str) -> (def: Self)
        ensures
            def@.name == name@,
            def@.arg_list == Seq::<ArgType>::empty(),
            def@.callback == None::<C>,
            def@.description == ""@,
    {
        CommandDefinition { name: name, arg_list: Vec::new(), callback: None, description: "" }
    }

    /// A copy of the definition, ready to be registered.
    pub fn build(&self) -> (def: CommandDefinition<C>)
        ensures
            def@ == self@,
    {
        let mut args: Vec<ArgType> = Vec::new();
        let mut i: usize = 0;
        while i < self.arg_list.len()
            invariant
                i <= self.arg_list@.len(),
                args@ == self.arg_list@.take(i as int),
            decreases self.arg_list.len() - i,
        {
            args.push(self.arg_list[i]);
            i = i + 1;
            assert(args@ =~= self.arg_list@.take(i as int));
        }
        assert(self.arg_list@.take(i as int) =~= self.arg_list@);
        CommandDefinition {
            name: self.name,
            arg_list: args,
            callback: self.callback,
            description: self.description,
        }
    }

    /// Adds an argument of type `arg_type` after the others.
    pub fn add_arg(&mut self, arg_type: ArgType) -> (def: &mut Self)
        ensures
            def@ == old(self)@.edit(DefinitionEdit::AddArg(arg_type)),
            *final(self) == *final(def),
    {
        self.arg_list.push(arg_type);
        self
    }

    pub fn set_description(&mut self, description: &'static str) -> (def: &mut Self)
        ensures
            def@ == old(self)@.edit(DefinitionEdit::SetDescription(description@)),
            *final(self) == *final(def),
    {
        self.description = description;
        self
    }

    pub fn set_callback(&mut self, callback: C) -> (def: &mut Self)
        ensures
            def@ == old(self)@.edit(DefinitionEdit::SetCallback(callback)),
            *final(self) == *final(def),
    {
        self.callback = Some(callback);
        self
    }

    pub fn name(&self) -> (name: &str)
        ensures
            name@ == self@.name,
    {
        self.name
    }

    pub fn arg_list(&self) -> (args: &Vec<ArgType>)
        ensures
            args@ == self@.arg_list,
    {
        &self.arg_list
    }

    pub fn description(&self) -> (description: &'static str)
        ensures
            description@ == self@.description,
    {
        self.description
    }

    /// Reads the tokens of a command line as the arguments of this command:
    /// there must be exactly one token for each argument, and each token must
    /// read as the type of its argument; the first one that does not is
    /// reported.
    pub fn instantiate<'a, S>(&'a self, shell: &'a S, arg_list: Vec<ArgToken>) -> (res: Result<
        CommandInstance<'a, S, C>,
        CommandError,
    >)
        ensures
            arg_list@.len() > self@.arg_list.len() ==> (res matches Err(
                CommandError::TooManyArguments(name, expected, given),
            ) && name@ == self@.name && expected == self@.arg_list.len() && given
                == arg_list@.len()),
            arg_list@.len() < self@.arg_list.len() ==> (res matches Err(
                CommandError::TooFewArguments(name, expected, given),
            ) && name@ == self@.name && expected == self@.arg_list.len() && given
                == arg_list@.len()),
            arg_list@.len() == self@.arg_list.len() ==> match res {
                Ok(instance) => {
                    &&& forall|i: int|
                        0 <= i < self@.arg_list.len() ==> spec_evaluate(
                            self@.arg_list[i],
                            arg_list@[i]@,
                        ) is Some
                    &&& instance.shell() == shell
                    &&& instance.callback() == self@.callback
                    &&& instance.arg_list()@.len() == arg_list@.len()
                    &&& forall|i: int|
                        0 <= i < arg_list@.len() ==> Some(#[trigger] instance.arg_list()@[i]@)
                            == spec_evaluate(self@.arg_list[i], arg_list@[i]@)
                },
                Err(e) => exists|i: int|
                    #[trigger] first_invalid(self@.arg_list, arg_list@, i) && (e matches CommandError::InvalidArgument(text, t) && text@
                        == arg_list@[i]@ && t == self@.arg_list[i]),
            },
    {
        if arg_list.len() > self.arg_list.len() {
            return Err(
                CommandError::TooManyArguments(
                    String::from_str(self.name),
                    self.arg_list.len(),
                    arg_list.len(),
                ),
            );
        } else if arg_list.len() < self.arg_list.len() {
            return Err(
                CommandError::TooFewArguments(
                    String::from_str(self.name),
                    self.arg_list.len(),
                    arg_list.len(),
                ),
            );
        }
        let mut inst_arg_list: Vec<EvaluatedArg> = Vec::new();
        let mut i: usize = 0;
        while i < self.arg_list.len()
            invariant
                arg_list@.len() == self.arg_list@.len(),
                i <= self.arg_list@.len(),
                inst_arg_list@.len() == i,
                forall|j: int|
                    0 <= j < i ==> #[trigger] spec_evaluate(self.arg_list@[j], arg_list@[j]@) is Some,
                forall|j: int|
                    0 <= j < i ==> Some(#[trigger] inst_arg_list@[j]@) == spec_evaluate(
                        self.arg_list@[j],
                        arg_list@[j]@,
                    ),
            decreases self.arg_list.len() - i,
        {
            match self.arg_list[i].evaluate(&arg_list[i]) {
                Ok(eval) => inst_arg_list.push(eval),
                Err(e) => {
                    assert(first_invalid(self@.arg_list, arg_list@, i as int));
                    return Err(e);
                },
            }
            i = i + 1;
        }
        Ok(CommandInstance::new(shell, inst_arg_list, self.callback))
    }
}

/// Finds the definition registered under `name`, the first one if there
/// are several.
pub fn find_definition<C: Copy>(definitions: &Vec<CommandDefinition<C>>, name: &str) -> (pos: Option<usize>)
    ensures
        match pos {
            Some(i) => i < definitions@.len() && definitions@[i as int]@.name == name@
                && forall|j: int| 0 <= j < i ==> definitions@[j]@.name != name@,
            None => forall|j: int| 0 <= j < definitions@.len() ==> definitions@[j]@.name != name@,
        },
{
    let mut i: usize = 0;
    while i < definitions.len()
        invariant
            i <= definitions@.len(),
            forall|j: int| 0 <= j < i ==> definitions@[j]@.name != name@,
        decreases definitions.len() - i,
    {
        if crate::text::text_equals(definitions[i].name(), name) {
            return Some(i);
        }
        i = i + 1;
    }
    None
}

} // verus!
