use vstd::prelude::*;

use crate::commands::argument::{ArgToken, ArgType, ArgValue, EvaluatedArg, spec_evaluate, spec_parse_int};
use crate::commands::definition::CommandDefinition;
use crate::server::message::SyncMessageType;

verus! {

/// The commands of the server's control shell.
#[derive(Debug, Clone, Copy, PartialEq, Eq)]
pub enum ShellCommand {
    Stop,
    Start,
    Snap,
    Fence,
    NoFence,
    Terminate,
}

/// The budget that `fence n` sets: the magnitude of `n`, cut to 32 bits.
pub open spec fn spec_fence_budget(value: i64) -> u32 {
    (if value < 0 {
        -value
    } else {
        value as int
    } % 4294967296) as u32
}

/// Computes `value.abs() as u32`.
pub fn fence_budget(value: i64) -> (budget: u32)
    requires
        value != i64::MIN,
    ensures
        budget == spec_fence_budget(value),
{
    let magnitude: i64 = if value < 0 {
        -value
    } else {
        value
    };
    (magnitude % 4294967296) as u32
}

/// The argument types of each command.
pub open spec fn spec_arg_types(command: ShellCommand) -> Seq<ArgType> {
    match command {
        ShellCommand::Snap => seq![ArgType::Str],
        ShellCommand::Fence => seq![ArgType::Int],
        _ => Seq::empty(),
    }
}

/// The arguments of a command are of the types it declares, and a fence
/// budget has a magnitude that an `i64` can hold.
pub open spec fn args_fit(command: ShellCommand, args: Seq<EvaluatedArg>) -> bool {
    match command {
        ShellCommand::Snap => args.len() >= 1 && args[0]@ is Str,
        ShellCommand::Fence => args.len() >= 1 && (args[0]@ matches ArgValue::Int(v) && v
            != i64::MIN),
        _ => true,
    }
}

/// `message` is what `command` sends to the server, given its arguments.
pub open spec fn is_message_of(command: ShellCommand, args: Seq<EvaluatedArg>, message: SyncMessageType) -> bool {
    match command {
        ShellCommand::Stop => message == SyncMessageType::Stop,
        ShellCommand::Start => message == SyncMessageType::Start,
        ShellCommand::NoFence => message == SyncMessageType::NoFence,
        ShellCommand::Terminate => message == SyncMessageType::Terminate,
        ShellCommand::Fence => args[0]@ matches ArgValue::Int(v) && message == SyncMessageType::Fence(
            spec_fence_budget(v),
        ),
        ShellCommand::Snap => args[0]@ matches ArgValue::Str(text) && message matches SyncMessageType::Snap(
            s,
        ) && s@ == text,
    }
}

/// The name under which each command is typed.
pub open spec fn spec_name(command: ShellCommand) -> Seq<char> {
    match command {
        ShellCommand::Stop => "stop"@,
        ShellCommand::Start => "start"@,
        ShellCommand::Snap => "snap"@,
        ShellCommand::Fence => "fence"@,
        ShellCommand::NoFence => "nofence"@,
        ShellCommand::Terminate => "terminate"@,
    }
}

/// The help text of each command.
pub open spec fn spec_description(command: ShellCommand) -> Seq<char> {
    match command {
        ShellCommand::Stop => "Send stop message"@,
        ShellCommand::Start => "Send stop message"@,
        ShellCommand::Snap => "txt:str - Make a snapshot with filename"@,
        ShellCommand::Fence => "Set guest budget"@,
        ShellCommand::NoFence => "Remove budget on guests"@,
        ShellCommand::Terminate => "text:str - Send terminate message"@,
    }
}

/// The arguments that a command's definition is instantiated with are the
/// ones its message needs, except a fence budget of `i64::MIN`, whose
/// magnitude no `i64` holds.
pub proof fn law_instantiated_args_fit(
    command: ShellCommand,
    tokens: Seq<ArgToken>,
    args: Seq<EvaluatedArg>,
)
    requires
        tokens.len() == spec_arg_types(command).len(),
        args.len() == tokens.len(),
        forall|i: int|
            0 <= i < args.len() ==> Some(#[trigger] args[i]@) == spec_evaluate(
                spec_arg_types(command)[i],
                tokens[i]@,
            ),
        command == ShellCommand::Fence ==> spec_parse_int(tokens[0]@) != Some(i64::MIN),
    ensures
        args_fit(command, args),
{
    if command == ShellCommand::Snap || command == ShellCommand::Fence {
        assert(Some(args[0]@) == spec_evaluate(spec_arg_types(command)[0], tokens[0]@));
    }
}

/// The word that the user types to ask the server for each message.
pub open spec fn request_word(message: SyncMessageType) -> Seq<char> {
    match message {
        SyncMessageType::Null => Seq::empty(),
        SyncMessageType::Stop => "stop"@,
        SyncMessageType::Start => "start"@,
        SyncMessageType::Snap(_) => "snap"@,
        SyncMessageType::NoFence => "nofence"@,
        SyncMessageType::Fence(_) => "fence"@,
        SyncMessageType::Terminate => "terminate"@,
    }
}

/// Each command is registered under its own name: the six names are
/// pairwise distinct, each is one word (non-empty, without whitespace), and
/// the command typed under a name sends the message of that name (`start`
/// sends `Start`, `fence` a `Fence`, and so on).
pub proof fn law_commands_answer_to_their_names(
    c1: ShellCommand,
    c2: ShellCommand,
    args: Seq<EvaluatedArg>,
    message: SyncMessageType,
)
    ensures
        c1 != c2 ==> spec_name(c1) != spec_name(c2),
        spec_name(c1).len() > 0,
        crate::text::no_whitespace(spec_name(c1)),
        is_message_of(c1, args, message) ==> request_word(message) == spec_name(c1),
{
    reveal_strlit("stop");
    reveal_strlit("start");
    reveal_strlit("snap");
    reveal_strlit("fence");
    reveal_strlit("nofence");
    reveal_strlit("terminate");
    if c1 != c2 {
        assert(spec_name(c1) != spec_name(c2)) by {
            if spec_name(c1).len() == spec_name(c2).len() {
                if spec_name(c1)[0] == spec_name(c2)[0] {
                    assert(spec_name(c1)[1] != spec_name(c2)[1]);
                } else {
                    assert(spec_name(c1)[0] != spec_name(c2)[0]);
                }
            }
        }
    }
}

impl ShellCommand {
    /// The name under which the command is typed.
    pub fn name(self) -> (name: &'static str)
        ensures
            name@ == spec_name(self),
    {
        match self {
            ShellCommand::Stop => "stop",
            ShellCommand::Start => "start",
            ShellCommand::Snap => "snap",
            ShellCommand::Fence => "fence",
            ShellCommand::NoFence => "nofence",
            ShellCommand::Terminate => "terminate",
        }
    }

    /// The help text of the command.
    pub fn description(self) -> (description: &'static str)
        ensures
            description@ == spec_description(self),
    {
        match self {
            ShellCommand::Stop => "Send stop message",
            ShellCommand::Start => "Send stop message",
            ShellCommand::Snap => "txt:str - Make a snapshot with filename",
            ShellCommand::Fence => "Set guest budget",
            ShellCommand::NoFence => "Remove budget on guests",
            ShellCommand::Terminate => "text:str - Send terminate message",
        }
    }

    /// The definition of the command, with `callback` as what it runs.
    pub fn definition<C: Copy>(self, callback: C) -> (def: CommandDefinition<C>)
        ensures
            def@.name == spec_name(self),
            def@.description == spec_description(self),
            def@.arg_list == spec_arg_types(self),
            def@.callback == Some(callback),
    {
        let mut def = CommandDefinition::new(self.name());
        def.set_description(self.description());
        match self {
            ShellCommand::Snap => {
                def.add_arg(ArgType::Str);
            },
            ShellCommand::Fence => {
                def.add_arg(ArgType::Int);
            },
            _ => {},
        }
        def.set_callback(callback);
        let built = def.build();
        assert(built@.arg_list =~= spec_arg_types(self));
        built
    }

    /// The message that the command sends, given its evaluated arguments.
    pub fn message(self, args: &Vec<EvaluatedArg>) -> (message: SyncMessageType)
        requires
            args_fit(self, args@),
        ensures
            is_message_of(self, args@, message),
    {
        match self {
            ShellCommand::Stop => SyncMessageType::Stop,
            ShellCommand::Start => SyncMessageType::Start,
            ShellCommand::NoFence => SyncMessageType::NoFence,
            ShellCommand::Terminate => SyncMessageType::Terminate,
            ShellCommand::Fence => match args[0].get_int() {
                Some(v) => SyncMessageType::Fence(fence_budget(v)),
                None => SyncMessageType::Fence(0),
            },
            ShellCommand::Snap => match args[0].get_str() {
                Some(text) => SyncMessageType::Snap(text),
                None => SyncMessageType::Snap(String::new()),
            },
        }
    }
}

} // verus!
