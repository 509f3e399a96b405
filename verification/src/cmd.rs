//! The command model: what one invocation asks for, and how a sequence of
//! tokens is read as a command.

use vstd::prelude::*;
use crate::text::{decimal, decimal_spec, join_from, join_spec, same_text, split_words, words};

verus! {

/// Why a sequence of tokens is no command.
#[derive(Debug, PartialEq, Eq)]
pub enum Error {
    /// The first token names no command.
    InvalidCommand(String),
    /// The command named needs more tokens: its name, how many it needs
    /// (the name included), how many there were.
    TooFewArguments(String, usize, usize),
    /// There was no token at all.
    NoCommand,
    UnknownError(String),
}

/// The mathematical value of an [`Error`].
pub enum ErrorView {
    InvalidCommand(Seq<char>),
    TooFewArguments(Seq<char>, nat, nat),
    NoCommand,
    UnknownError(Seq<char>),
}

impl View for Error {
    type V = ErrorView;

    open spec fn view(&self) -> ErrorView {
        match self {
            Error::InvalidCommand(verb) => ErrorView::InvalidCommand(verb@),
            Error::TooFewArguments(verb, expected, actual) => ErrorView::TooFewArguments(
                verb@,
                *expected as nat,
                *actual as nat,
            ),
            Error::NoCommand => ErrorView::NoCommand,
            Error::UnknownError(msg) => ErrorView::UnknownError(msg@),
        }
    }
}

/// The message that goes with an error of the command model.
pub open spec fn error_message(e: ErrorView) -> Seq<char> {
    match e {
        ErrorView::InvalidCommand(verb) => "invalid command: "@ + verb,
        ErrorView::TooFewArguments(verb, expected, actual) => "command "@ + verb + " expects "@
            + decimal_spec(expected) + " arguments, got "@ + decimal_spec(actual),
        ErrorView::NoCommand => "no command given"@,
        ErrorView::UnknownError(msg) => "unexpected error: "@ + msg,
    }
}

impl Error {
    /// An error that is none of the named kinds, with its message.
    pub fn unknown(msg: &str) -> (e: Error)
        ensures
            e@ == ErrorView::UnknownError(msg@),
    {
        Error::UnknownError(String::from_str(msg))
    }

    /// The message for the user.
    pub fn to_string(&self) -> (text: String)
        ensures
            text@ == error_message(self@),
    {
        match self {
            Error::InvalidCommand(verb) => {
                let mut text = String::from_str("invalid command: ");
                text.append(verb.as_str());
                text
            },
            Error::TooFewArguments(verb, expected, actual) => {
                let mut text = String::from_str("command ");
                text.append(verb.as_str());
                text.append(" expects ");
                text.append(decimal(*expected).as_str());
                text.append(" arguments, got ");
                text.append(decimal(*actual).as_str());
                text
            },
            Error::NoCommand => String::from_str("no command given"),
            Error::UnknownError(msg) => {
                let mut text = String::from_str("unexpected error: ");
                text.append(msg.as_str());
                text
            },
        }
    }
}

/// One requested operation. A command is checked for the number of its
/// arguments when it is read, and against the store only when it is applied.
#[derive(Debug, PartialEq, Eq)]
pub enum Command {
    Init,
    ListKeys,
    PutString(String, String),
    Drop(String),
    CreateEmptyList(String),
    PushListValue(String, String),
    PopListValue(String),
    ClearList(String),
    Get(String),
}

/// The mathematical value of a [`Command`].
pub enum CommandView {
    Init,
    ListKeys,
    PutString(Seq<char>, Seq<char>),
    Drop(Seq<char>),
    CreateEmptyList(Seq<char>),
    PushListValue(Seq<char>, Seq<char>),
    PopListValue(Seq<char>),
    ClearList(Seq<char>),
    Get(Seq<char>),
}

impl View for Command {
    type V = CommandView;

    open spec fn view(&self) -> CommandView {
        match self {
            Command::Init => CommandView::Init,
            Command::ListKeys => CommandView::ListKeys,
            Command::PutString(key, value) => CommandView::PutString(key@, value@),
            Command::Drop(key) => CommandView::Drop(key@),
            Command::CreateEmptyList(key) => CommandView::CreateEmptyList(key@),
            Command::PushListValue(key, value) => CommandView::PushListValue(key@, value@),
            Command::PopListValue(key) => CommandView::PopListValue(key@),
            Command::ClearList(key) => CommandView::ClearList(key@),
            Command::Get(key) => CommandView::Get(key@),
        }
    }
}

impl CommandView {
    /// Whether applying the command can change the store.
    pub open spec fn is_mutating(self) -> bool {
        match self {
            CommandView::Init | CommandView::ListKeys | CommandView::Get(_) => false,
            _ => true,
        }
    }
}

/// The least number of tokens, the verb included, that the command named
/// `verb` takes; `None` where `verb` names no command.
pub open spec fn min_tokens(verb: Seq<char>) -> Option<nat> {
    if verb == "init"@ {
        Some(1)
    } else if verb == "listKeys"@ {
        Some(1)
    } else if verb == "put"@ {
        Some(3)
    } else if verb == "drop"@ {
        Some(2)
    } else if verb == "createEmptyList"@ {
        Some(2)
    } else if verb == "pushListValue"@ {
        Some(3)
    } else if verb == "popListValue"@ {
        Some(2)
    } else if verb == "clearList"@ {
        Some(2)
    } else if verb == "get"@ {
        Some(2)
    } else {
        None
    }
}

/// The table of verbs: the nine names are nine different texts, so each has
/// the least number of tokens that stands beside it in [`min_tokens`].
pub proof fn lemma_verb_table()
    ensures
        min_tokens("init"@) == Some(1nat),
        min_tokens("listKeys"@) == Some(1nat),
        min_tokens("put"@) == Some(3nat),
        min_tokens("drop"@) == Some(2nat),
        min_tokens("createEmptyList"@) == Some(2nat),
        min_tokens("pushListValue"@) == Some(3nat),
        min_tokens("popListValue"@) == Some(2nat),
        min_tokens("clearList"@) == Some(2nat),
        min_tokens("get"@) == Some(2nat),
{
    reveal_strlit("init");
    reveal_strlit("listKeys");
    reveal_strlit("put");
    reveal_strlit("drop");
    reveal_strlit("createEmptyList");
    reveal_strlit("pushListValue");
    reveal_strlit("popListValue");
    reveal_strlit("clearList");
    reveal_strlit("get");
    assert("init"@[0] == 'i' && "drop"@[0] == 'd');
    assert("put"@[0] == 'p' && "get"@[0] == 'g');
    assert("popListValue"@.len() == 12 && "pushListValue"@.len() == 13);
    assert("listKeys"@.len() == 8 && "clearList"@.len() == 9 && "createEmptyList"@.len() == 15);
}

/// The command that `tokens` spell, given that their first names a command
/// and that there are enough of them. The value of `put` and of
/// `pushListValue` is made of all tokens from the third on, with one space
/// between each two.
pub open spec fn command_of(tokens: Seq<Seq<char>>) -> CommandView {
    let verb = tokens[0];
    if verb == "init"@ {
        CommandView::Init
    } else if verb == "listKeys"@ {
        CommandView::ListKeys
    } else if verb == "put"@ {
        CommandView::PutString(tokens[1], join_spec(tokens.skip(2), " "@))
    } else if verb == "drop"@ {
        CommandView::Drop(tokens[1])
    } else if verb == "createEmptyList"@ {
        CommandView::CreateEmptyList(tokens[1])
    } else if verb == "pushListValue"@ {
        CommandView::PushListValue(tokens[1], join_spec(tokens.skip(2), " "@))
    } else if verb == "popListValue"@ {
        CommandView::PopListValue(tokens[1])
    } else if verb == "clearList"@ {
        CommandView::ClearList(tokens[1])
    } else {
        CommandView::Get(tokens[1])
    }
}

/// What reading `tokens` as a command gives.
pub open spec fn parse(tokens: Seq<Seq<char>>) -> Result<CommandView, ErrorView> {
    if tokens.len() == 0 {
        Err(ErrorView::NoCommand)
    } else {
        match min_tokens(tokens[0]) {
            None => Err(ErrorView::InvalidCommand(tokens[0])),
            Some(least) => if tokens.len() < least {
                Err(ErrorView::TooFewArguments(tokens[0], least, tokens.len()))
            } else {
                Ok(command_of(tokens))
            },
        }
    }
}

/// The view of what a parser returns.
pub open spec fn parsed_view(r: Result<Command, Error>) -> Result<CommandView, ErrorView> {
    match r {
        Ok(command) => Ok(command@),
        Err(e) => Err(e@),
    }
}

/// Checks that `v`, which starts with a verb, has at least `l` tokens.
pub fn assert_length(v: &Vec<String>, l: usize) -> (r: Result<(), Error>)
    requires
        v.len() > 0,
    ensures
        v.len() >= l ==> r is Ok,
        v.len() < l ==> r is Err && r->Err_0@ == ErrorView::TooFewArguments(
            v[0]@,
            l as nat,
            v.len() as nat,
        ),
{
    if v.len() >= l {
        Ok(())
    } else {
        Err(Error::TooFewArguments(v[0].clone(), l, v.len()))
    }
}

impl Command {
    /// Reads a command from a line of text: its words are the tokens.
    pub fn from_str(s: &str) -> (r: Result<Command, Error>)
        ensures
            parsed_view(r) == parse(words(s@)),
    {
        Command::from_strings(split_words(s))
    }

    /// Reads a command from its tokens, the verb first.
    pub fn from_strings(strings: Vec<String>) -> (r: Result<Command, Error>)
        ensures
            parsed_view(r) == parse(strings.deep_view()),
    {
        if strings.len() == 0 {
            return Err(Error::NoCommand);
        }
        let ghost tokens = strings.deep_view();
        let verb = strings[0].as_str();
        assert(verb@ == tokens[0]);
        if same_text(verb, "init") {
            Ok(Command::Init)
        } else if same_text(verb, "listKeys") {
            Ok(Command::ListKeys)
        } else if same_text(verb, "put") {
            match assert_length(&strings, 3) {
                Ok(()) => {
                    assert(strings[1]@ == tokens[1]);
                    Ok(Command::PutString(strings[1].clone(), join_from(&strings, 2, " ")))
                },
                Err(e) => Err(e),
            }
        } else if same_text(verb, "drop") {
            match assert_length(&strings, 2) {
                Ok(()) => {
                    assert(strings[1]@ == tokens[1]);
                    Ok(Command::Drop(strings[1].clone()))
                },
                Err(e) => Err(e),
            }
        } else if same_text(verb, "createEmptyList") {
            match assert_length(&strings, 2) {
                Ok(()) => {
                    assert(strings[1]@ == tokens[1]);
                    Ok(Command::CreateEmptyList(strings[1].clone()))
                },
                Err(e) => Err(e),
            }
        } else if same_text(verb, "pushListValue") {
            match assert_length(&strings, 3) {
                Ok(()) => {
                    assert(strings[1]@ == tokens[1]);
                    Ok(Command::PushListValue(strings[1].clone(), join_from(&strings, 2, " ")))
                },
                Err(e) => Err(e),
            }
        } else if same_text(verb, "popListValue") {
            match assert_length(&strings, 2) {
                Ok(()) => {
                    assert(strings[1]@ == tokens[1]);
                    Ok(Command::PopListValue(strings[1].clone()))
                },
                Err(e) => Err(e),
            }
        } else if same_text(verb, "clearList") {
            match assert_length(&strings, 2) {
                Ok(()) => {
                    assert(strings[1]@ == tokens[1]);
                    Ok(Command::ClearList(strings[1].clone()))
                },
                Err(e) => Err(e),
            }
        } else if same_text(verb, "get") {
            match assert_length(&strings, 2) {
                Ok(()) => {
                    assert(strings[1]@ == tokens[1]);
                    Ok(Command::Get(strings[1].clone()))
                },
                Err(e) => Err(e),
            }
        } else {
            Err(Error::InvalidCommand(strings[0].clone()))
        }
    }

    /// Whether applying the command can change the store.
    pub fn is_mutating(&self) -> (mutating: bool)
        ensures
            mutating == self@.is_mutating(),
    {
        match self {
            Command::Init | Command::ListKeys | Command::Get(_) => false,
            _ => true,
        }
    }
}

} // verus!
