use sync_server::shell::command::Command;
use sync_server::shell::input_reader::{InputReader, InputResult};
use sync_server::shell::Shell;

#[test]
fn command_keeps_its_parts() {
    let command = Command::new(String::from("help text"), 3u8);
    assert_eq!(command.help, "help text");
    assert_eq!(command.command, 3);
}

#[test]
fn lookup_trims_the_line() {
    let mut shell: Shell<u8, u32> = Shell::new(String::from("(SS) > "), 9);
    assert_eq!(shell.prompt(), "(SS) > ");
    assert_eq!(*shell.channel_2_server(), 9);
    assert!(shell.insert_command(String::from("stop"), Command::new(String::from("s"), 1)).is_none());
    assert!(shell.insert_command(String::from("start"), Command::new(String::from("g"), 2)).is_none());
    assert_eq!(shell.lookup("  stop\n").map(|c| c.command), Some(1));
    assert_eq!(shell.lookup("start").map(|c| c.command), Some(2));
    assert!(shell.lookup("st op").is_none());
    assert!(shell.lookup("").is_none());
}

#[test]
fn insert_replaces_and_returns_the_previous_command() {
    let mut shell: Shell<(), u32> = Shell::new(String::new(), ());
    assert!(shell.insert_command(String::from("fence"), Command::new(String::from("a"), 1)).is_none());
    let previous = shell.insert_command(String::from("fence"), Command::new(String::from("b"), 2));
    assert_eq!(previous.map(|c| c.command), Some(1));
    assert_eq!(shell.lookup("fence").map(|c| c.help.clone()), Some(String::from("b")));
}

#[test]
fn input_result_holds_the_line() {
    let InputResult::CMD(line) = InputResult::CMD(String::from("stop\n"));
    assert_eq!(line, "stop\n");
    let _reader = InputReader;
}
