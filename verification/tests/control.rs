use sync_server::commands::argument::{ArgToken, ArgType, EvaluatedArg};
use sync_server::control::{fence_budget, ShellCommand};
use sync_server::server::message::SyncMessageType;

type Callback = fn(&u8, &Vec<EvaluatedArg>);

fn noop(_shell: &u8, _args: &Vec<EvaluatedArg>) {}

#[test]
fn names_and_descriptions() {
    assert_eq!(ShellCommand::Stop.name(), "stop");
    assert_eq!(ShellCommand::NoFence.name(), "nofence");
    assert_eq!(ShellCommand::Start.description(), "Send stop message");
    assert_eq!(ShellCommand::Snap.description(), "txt:str - Make a snapshot with filename");
}

#[test]
fn definitions_declare_the_arguments() {
    let fence = ShellCommand::Fence.definition::<Callback>(noop);
    assert_eq!(fence.name(), "fence");
    assert_eq!(fence.description(), "Set guest budget");
    assert_eq!(fence.arg_list(), &vec![ArgType::Int]);
    assert_eq!(ShellCommand::Snap.definition::<Callback>(noop).arg_list(), &vec![ArgType::Str]);
    assert!(ShellCommand::Terminate.definition::<Callback>(noop).arg_list().is_empty());
}

#[test]
fn fence_budget_is_the_magnitude_cut_to_32_bits() {
    assert_eq!(fence_budget(100), 100);
    assert_eq!(fence_budget(-100), 100);
    assert_eq!(fence_budget(4294967296 + 3), 3);
    assert_eq!(fence_budget(-(4294967296 + 3)), 3);
    assert_eq!(fence_budget(i64::MAX), u32::MAX);
}

#[test]
fn messages_of_the_commands() {
    let none: Vec<EvaluatedArg> = Vec::new();
    assert_eq!(ShellCommand::Stop.message(&none), SyncMessageType::Stop);
    assert_eq!(ShellCommand::Start.message(&none), SyncMessageType::Start);
    assert_eq!(ShellCommand::NoFence.message(&none), SyncMessageType::NoFence);
    assert_eq!(ShellCommand::Terminate.message(&none), SyncMessageType::Terminate);
    assert_eq!(ShellCommand::Fence.message(&vec![EvaluatedArg::Int(-7)]), SyncMessageType::Fence(7));
    assert_eq!(
        ShellCommand::Snap.message(&vec![EvaluatedArg::Str(String::from("dir"))]),
        SyncMessageType::Snap(String::from("dir"))
    );
}

#[test]
fn typed_command_line_to_message() {
    let def = ShellCommand::Fence.definition::<Callback>(noop);
    let shell: u8 = 0;
    let instance = def.instantiate(&shell, vec![ArgToken::new(String::from("-250"))]).unwrap();
    assert_eq!(ShellCommand::Fence.message(instance.get_arg_list()), SyncMessageType::Fence(250));
}
