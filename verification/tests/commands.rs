use sync_server::commands::argument::{parse_bool, parse_int, ArgToken, ArgType, EvaluatedArg};
use sync_server::commands::definition::{find_definition, CommandDefinition};
use sync_server::commands::error::CommandError;

fn tokens(words: &[&str]) -> Vec<ArgToken> {
    words.iter().map(|w| ArgToken::new(w.to_string())).collect()
}

#[test]
fn parse_int_accepts_signed_decimals() {
    assert_eq!(parse_int("42"), Some(42));
    assert_eq!(parse_int("-42"), Some(-42));
    assert_eq!(parse_int("+7"), Some(7));
    assert_eq!(parse_int("00012"), Some(12));
    assert_eq!(parse_int("9223372036854775807"), Some(i64::MAX));
    assert_eq!(parse_int("-9223372036854775808"), Some(i64::MIN));
}

#[test]
fn parse_int_refuses_what_std_refuses() {
    for text in ["", "-", "+", "12a", " 1", "1 ", "--1", "9223372036854775808", "-9223372036854775809", "99999999999999999999999"] {
        assert_eq!(parse_int(text), None, "{text}");
        assert_eq!(parse_int(text), text.parse::<i64>().ok(), "{text}");
    }
    for text in ["0", "-0", "+0", "123456789", "-77"] {
        assert_eq!(parse_int(text), text.parse::<i64>().ok(), "{text}");
    }
}

#[test]
fn parse_bool_accepts_true_and_false() {
    assert_eq!(parse_bool("true"), Some(true));
    assert_eq!(parse_bool("false"), Some(false));
    assert_eq!(parse_bool("True"), None);
    assert_eq!(parse_bool(""), None);
}

#[test]
fn evaluate_each_type() {
    let token = ArgToken::new(String::from("12"));
    assert_eq!(ArgType::Int.evaluate(&token), Ok(EvaluatedArg::Int(12)));
    assert_eq!(ArgType::Str.evaluate(&token), Ok(EvaluatedArg::Str(String::from("12"))));
    assert_eq!(
        ArgType::Bool.evaluate(&token),
        Err(CommandError::InvalidArgument(String::from("12"), ArgType::Bool))
    );
    assert_eq!(ArgType::Bool.evaluate(&ArgToken::new(String::from("true"))), Ok(EvaluatedArg::Bool(true)));
}

#[test]
fn getters_of_evaluated_args() {
    assert_eq!(EvaluatedArg::Int(3).get_int(), Some(3));
    assert_eq!(EvaluatedArg::Int(3).get_str(), None);
    assert_eq!(EvaluatedArg::Str(String::from("s")).get_str(), Some(String::from("s")));
    assert_eq!(EvaluatedArg::Bool(false).get_bool(), Some(false));
    assert_eq!(EvaluatedArg::Bool(false).get_int(), None);
}

fn noop(_shell: &u8, _args: &Vec<EvaluatedArg>) {}

type Callback = fn(&u8, &Vec<EvaluatedArg>);

#[test]
fn builder_sets_every_part() {
    let mut def: CommandDefinition<Callback> = CommandDefinition::new("fence");
    assert_eq!(def.name(), "fence");
    assert_eq!(def.description(), "");
    assert!(def.arg_list().is_empty());
    def.set_description("Set guest budget").add_arg(ArgType::Int).add_arg(ArgType::Str).set_callback(noop);
    let built = def.build();
    assert_eq!(built.name(), "fence");
    assert_eq!(built.description(), "Set guest budget");
    assert_eq!(built.arg_list(), &vec![ArgType::Int, ArgType::Str]);
}

#[test]
fn instantiate_checks_the_arity() {
    let mut def: CommandDefinition<Callback> = CommandDefinition::new("snap");
    def.add_arg(ArgType::Str);
    let shell: u8 = 0;
    match def.instantiate(&shell, tokens(&["a", "b"])) {
        Err(e) => assert_eq!(e, CommandError::TooManyArguments(String::from("snap"), 1, 2)),
        Ok(_) => panic!("two tokens for one argument"),
    }
    match def.instantiate(&shell, tokens(&[])) {
        Err(e) => assert_eq!(e, CommandError::TooFewArguments(String::from("snap"), 1, 0)),
        Ok(_) => panic!("no token for one argument"),
    }
}

#[test]
fn instantiate_reports_the_first_bad_token() {
    let mut def: CommandDefinition<Callback> = CommandDefinition::new("three");
    def.add_arg(ArgType::Int).add_arg(ArgType::Bool).add_arg(ArgType::Int);
    let shell: u8 = 0;
    match def.instantiate(&shell, tokens(&["1", "maybe", "x"])) {
        Err(e) => assert_eq!(e, CommandError::InvalidArgument(String::from("maybe"), ArgType::Bool)),
        Ok(_) => panic!("bad tokens"),
    }
}

#[test]
fn instantiate_evaluates_the_arguments() {
    let mut def: CommandDefinition<Callback> = CommandDefinition::new("three");
    def.add_arg(ArgType::Int).add_arg(ArgType::Bool).add_arg(ArgType::Str).set_callback(noop);
    let shell: u8 = 7;
    match def.instantiate(&shell, tokens(&["-5", "true", "dir"])) {
        Ok(instance) => {
            assert_eq!(*instance.get_shell(), 7);
            assert_eq!(
                instance.get_arg_list(),
                &vec![EvaluatedArg::Int(-5), EvaluatedArg::Bool(true), EvaluatedArg::Str(String::from("dir"))]
            );
            assert!(instance.get_callback().is_some());
        }
        Err(e) => panic!("{e:?}"),
    }
}

#[test]
fn instance_without_callback() {
    let def: CommandDefinition<Callback> = CommandDefinition::new("exit");
    let shell: u8 = 0;
    let instance = def.instantiate(&shell, Vec::new()).unwrap();
    assert!(instance.get_callback().is_none());
    assert!(instance.get_arg_list().is_empty());
}

#[test]
fn find_definition_by_name() {
    let defs: Vec<CommandDefinition<Callback>> =
        vec![CommandDefinition::new("stop"), CommandDefinition::new("start"), CommandDefinition::new("stop")];
    assert_eq!(find_definition(&defs, "start"), Some(1));
    assert_eq!(find_definition(&defs, "stop"), Some(0));
    assert_eq!(find_definition(&defs, "snap"), None);
}

#[test]
fn builder_calls_keep_the_name() {
    let mut def: CommandDefinition<Callback> = CommandDefinition::new("snap");
    def.add_arg(ArgType::Str).set_description("d").set_callback(noop).add_arg(ArgType::Int);
    assert_eq!(def.name(), "snap");
    assert_eq!(def.build().name(), "snap");
}
