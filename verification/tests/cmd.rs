use kvs2::cmd::{Command, Error};

fn tokens(words: &[&str]) -> Vec<String> {
    words.iter().map(|w| w.to_string()).collect()
}

#[test]
fn test_read_init() {
    let cmd = Command::from_str("init").unwrap();

    assert_eq!(cmd, Command::Init);
}

#[test]
fn test_put_string() {
    let cmd = Command::from_str("put bla gna").unwrap();

    assert_eq!(cmd, Command::PutString("bla".to_string(), "gna".to_string()));
}

#[test]
fn test_empty() {
    let err = Command::from_strings(Vec::new()).err().unwrap();

    if let Error::NoCommand = err {
    } else {
        assert!(false);
    }
}

#[test]
fn test_put_string_wrong_fmt() {
    let err = Command::from_str("put bla,gna").err().unwrap();

    if let Error::TooFewArguments(_, expected, actual) = err {
        assert_eq!(expected, 3);
        assert_eq!(actual, 2);
    } else {
        assert!(false);
    }
}

#[test]
fn test_invalid_command() {
    let err = Command::from_str("invalid test").err().unwrap();

    if let Error::InvalidCommand(cmd) = err {
        assert_eq!(cmd, "invalid".to_string());
    } else {
        assert!(false);
    }
}

#[test]
fn test_from_vec() {
    let strings = "put bla gna".split(' ').map(|x| x.to_string()).collect();
    let cmd = Command::from_strings(strings).unwrap();

    assert_eq!(cmd, Command::PutString("bla".to_string(), "gna".to_string()));
}

#[test]
#[should_panic]
fn test_fail() {
    Command::from_str("invalid test").unwrap();
}

#[test]
fn parse_too_few_arguments_names_the_verb() {
    assert_eq!(
        Command::from_str("put k"),
        Err(Error::TooFewArguments("put".to_string(), 3, 2))
    );
}

#[test]
fn parse_empty_line_is_no_command() {
    assert_eq!(Command::from_str(""), Err(Error::NoCommand));
    assert_eq!(Command::from_str("   "), Err(Error::NoCommand));
}

#[test]
fn parse_unknown_verb() {
    assert_eq!(
        Command::from_str("bogus x"),
        Err(Error::InvalidCommand("bogus".to_string()))
    );
}

#[test]
fn parse_every_verb() {
    assert_eq!(Command::from_strings(tokens(&["init"])), Ok(Command::Init));
    assert_eq!(Command::from_strings(tokens(&["listKeys"])), Ok(Command::ListKeys));
    assert_eq!(
        Command::from_strings(tokens(&["put", "k", "v"])),
        Ok(Command::PutString("k".to_string(), "v".to_string()))
    );
    assert_eq!(
        Command::from_strings(tokens(&["drop", "k"])),
        Ok(Command::Drop("k".to_string()))
    );
    assert_eq!(
        Command::from_strings(tokens(&["createEmptyList", "k"])),
        Ok(Command::CreateEmptyList("k".to_string()))
    );
    assert_eq!(
        Command::from_strings(tokens(&["pushListValue", "k", "v"])),
        Ok(Command::PushListValue("k".to_string(), "v".to_string()))
    );
    assert_eq!(
        Command::from_strings(tokens(&["popListValue", "k"])),
        Ok(Command::PopListValue("k".to_string()))
    );
    assert_eq!(
        Command::from_strings(tokens(&["clearList", "k"])),
        Ok(Command::ClearList("k".to_string()))
    );
    assert_eq!(
        Command::from_strings(tokens(&["get", "k"])),
        Ok(Command::Get("k".to_string()))
    );
}

#[test]
fn parse_least_token_counts() {
    for (verb, least) in [
        ("put", 3),
        ("drop", 2),
        ("createEmptyList", 2),
        ("pushListValue", 3),
        ("popListValue", 2),
        ("clearList", 2),
        ("get", 2),
    ] {
        assert_eq!(
            Command::from_strings(tokens(&[verb])),
            Err(Error::TooFewArguments(verb.to_string(), least, 1))
        );
    }
    assert_eq!(
        Command::from_strings(tokens(&["pushListValue", "k"])),
        Err(Error::TooFewArguments("pushListValue".to_string(), 3, 2))
    );
}

#[test]
fn parse_joins_the_words_of_a_value() {
    assert_eq!(
        Command::from_str("put k several words here"),
        Ok(Command::PutString("k".to_string(), "several words here".to_string()))
    );
    assert_eq!(
        Command::from_strings(tokens(&["pushListValue", "k", "a", "b"])),
        Ok(Command::PushListValue("k".to_string(), "a b".to_string()))
    );
}

#[test]
fn parse_ignores_tokens_after_the_key() {
    assert_eq!(
        Command::from_strings(tokens(&["get", "k", "more"])),
        Ok(Command::Get("k".to_string()))
    );
    assert_eq!(Command::from_strings(tokens(&["init", "more"])), Ok(Command::Init));
}

#[test]
fn from_str_skips_runs_of_spaces() {
    assert_eq!(
        Command::from_str("  put   k  v w "),
        Ok(Command::PutString("k".to_string(), "v w".to_string()))
    );
}

#[test]
fn from_str_keeps_other_characters_in_a_word() {
    assert_eq!(
        Command::from_str("put k\u{e9}y v\tw"),
        Ok(Command::PutString("k\u{e9}y".to_string(), "v\tw".to_string()))
    );
}

#[test]
fn from_strings_takes_tokens_as_they_are() {
    assert_eq!(
        Command::from_strings(tokens(&["put", "", "a b"])),
        Ok(Command::PutString("".to_string(), "a b".to_string()))
    );
    assert_eq!(
        Command::from_strings(tokens(&[""])),
        Err(Error::InvalidCommand("".to_string()))
    );
}

#[test]
fn is_mutating_by_command() {
    let k = || "k".to_string();
    assert!(!Command::Init.is_mutating());
    assert!(!Command::ListKeys.is_mutating());
    assert!(!Command::Get(k()).is_mutating());
    assert!(Command::PutString(k(), k()).is_mutating());
    assert!(Command::Drop(k()).is_mutating());
    assert!(Command::CreateEmptyList(k()).is_mutating());
    assert!(Command::PushListValue(k(), k()).is_mutating());
    assert!(Command::PopListValue(k()).is_mutating());
    assert!(Command::ClearList(k()).is_mutating());
}

#[test]
fn error_messages() {
    assert_eq!(
        Error::InvalidCommand("bogus".to_string()).to_string(),
        "invalid command: bogus"
    );
    assert_eq!(
        Error::TooFewArguments("put".to_string(), 3, 2).to_string(),
        "command put expects 3 arguments, got 2"
    );
    assert_eq!(
        Error::TooFewArguments("put".to_string(), 120, 10).to_string(),
        "command put expects 120 arguments, got 10"
    );
    assert_eq!(Error::NoCommand.to_string(), "no command given");
    assert_eq!(Error::unknown("odd").to_string(), "unexpected error: odd");
    assert_eq!(Error::unknown("odd"), Error::UnknownError("odd".to_string()));
}
