//! The hook protocol: after a command that can change the store, one
//! program, if there is one, is told which command it was and what it gave.
//! This module decides whether the program is called, with which arguments
//! and with what on its standard input; making the call is left to the
//! caller.

use vstd::prelude::*;
use crate::cmd::{Command, CommandView};
use crate::text::collect_chars;
use crate::ui::{result_text, UiResult, UiResultView};

verus! {

/// The name by which a hook knows the command; `None` for the commands of
/// which no hook is told.
pub open spec fn hook_action(c: CommandView) -> Option<Seq<char>> {
    match c {
        CommandView::Init => Some("init"@),
        CommandView::PutString(_, _) => Some("put"@),
        CommandView::Drop(_) => Some("drop"@),
        CommandView::CreateEmptyList(_) => Some("emptyList"@),
        CommandView::PushListValue(_, _) => Some("push"@),
        CommandView::PopListValue(_) => Some("pop"@),
        CommandView::ClearList(_) => Some("clear"@),
        CommandView::ListKeys => None,
        CommandView::Get(_) => None,
    }
}

/// The key that the command carries, if it carries one.
pub open spec fn hook_key(c: CommandView) -> Option<Seq<char>> {
    match c {
        CommandView::PutString(key, _) => Some(key),
        CommandView::Drop(key) => Some(key),
        CommandView::CreateEmptyList(key) => Some(key),
        CommandView::PushListValue(key, _) => Some(key),
        CommandView::PopListValue(key) => Some(key),
        CommandView::ClearList(key) => Some(key),
        CommandView::Get(key) => Some(key),
        CommandView::Init => None,
        CommandView::ListKeys => None,
    }
}

/// The value that the command carries, if it carries one.
pub open spec fn hook_value(c: CommandView) -> Option<Seq<char>> {
    match c {
        CommandView::PutString(_, value) => Some(value),
        CommandView::PushListValue(_, value) => Some(value),
        _ => None,
    }
}

/// The one element of `part`, or none.
pub open spec fn optional(part: Option<Seq<char>>) -> Seq<Seq<char>> {
    match part {
        Some(text) => seq![text],
        None => Seq::empty(),
    }
}

/// The arguments with which the hook is called for a command that has an
/// action name: the name, then the key and the value as far as the command
/// carries them.
pub open spec fn hook_args(c: CommandView) -> Seq<Seq<char>> {
    seq![hook_action(c)->Some_0] + optional(hook_key(c)) + optional(hook_value(c))
}

/// What the hook reads on its standard input: the text of the result and a
/// line end.
pub open spec fn hook_input(r: UiResultView) -> Seq<char> {
    result_text(r) + "\n"@
}

/// The file in a directory that is that directory's hook after a change:
/// the file named `.postChange` in it.
pub open spec fn hook_path(dir: Seq<char>) -> Seq<char> {
    if dir.len() == 0 {
        ".postChange"@
    } else if dir.last() == '/' {
        dir + ".postChange"@
    } else {
        dir + "/"@ + ".postChange"@
    }
}

/// The view of a borrowed string that may be absent.
pub open spec fn str_view(s: Option<&str>) -> Option<Seq<char>> {
    match s {
        Some(text) => Some(text@),
        None => None,
    }
}

/// The action name, the key and the value that a hook is told of `command`.
pub fn get_hook_str<'a>(command: &'a Command) -> (r: (&'a str, Option<&'a str>, Option<&'a str>))
    requires
        hook_action(command@) is Some,
    ensures
        Some(r.0@) == hook_action(command@),
        str_view(r.1) == hook_key(command@),
        str_view(r.2) == hook_value(command@),
{
    match command {
        Command::Init => ("init", None, None),
        Command::PutString(key, val) => ("put", Some(key.as_str()), Some(val.as_str())),
        Command::Drop(key) => ("drop", Some(key.as_str()), None),
        Command::CreateEmptyList(key) => ("emptyList", Some(key.as_str()), None),
        Command::PushListValue(key, val) => ("push", Some(key.as_str()), Some(val.as_str())),
        Command::PopListValue(key) => ("pop", Some(key.as_str()), None),
        Command::ClearList(key) => ("clear", Some(key.as_str()), None),
        _ => vstd::pervasive::unreached(),
    }
}

/// One call of a hook: the program, its arguments, and what it reads on its
/// standard input.
#[derive(Debug, PartialEq, Eq)]
pub struct HookCall {
    pub program: String,
    pub args: Vec<String>,
    pub input: String,
}

/// The mathematical value of a [`HookCall`].
pub struct HookCallView {
    pub program: Seq<char>,
    pub args: Seq<Seq<char>>,
    pub input: Seq<char>,
}

impl View for HookCall {
    type V = HookCallView;

    open spec fn view(&self) -> HookCallView {
        HookCallView { program: self.program@, args: self.args.deep_view(), input: self.input@ }
    }
}

/// The view of a call that may be absent.
pub open spec fn call_view(call: Option<HookCall>) -> Option<HookCallView> {
    match call {
        Some(c) => Some(c@),
        None => None,
    }
}

/// The call that a hook set-up makes for `command` with the result
/// `result`, as far as the command is one of which a hook is told.
pub open spec fn post_change_call(
    post_change: Option<Seq<char>>,
    result: UiResultView,
    command: CommandView,
) -> Option<HookCallView> {
    match post_change {
        Some(program) => Some(
            HookCallView { program, args: hook_args(command), input: hook_input(result) },
        ),
        None => None,
    }
}

/// The call that a hook set-up makes after `command` gave `result`: none
/// unless the command can change the store.
pub open spec fn post_call(
    post_change: Option<Seq<char>>,
    result: UiResultView,
    command: CommandView,
) -> Option<HookCallView> {
    if command.is_mutating() {
        post_change_call(post_change, result, command)
    } else {
        None
    }
}

/// The hooks of one store: at most one program, called after a change.
#[derive(Debug)]
pub struct Hooks {
    post_change: Option<String>,
}

impl View for Hooks {
    type V = Option<Seq<char>>;

    /// The program called after a change, if there is one.
    closed spec fn view(&self) -> Option<Seq<char>> {
        match self.post_change {
            Some(path) => Some(path@),
            None => None,
        }
    }
}

impl Hooks {
    /// No hook at all.
    pub fn none() -> (hooks: Hooks)
        ensures
            hooks@ is None,
    {
        Hooks { post_change: None }
    }

    /// The file that is looked at for the hook of the directory `dir`.
    pub fn hook_file(dir: &str) -> (path: String)
        ensures
            path@ == hook_path(dir@),
    {
        let chars = collect_chars(dir);
        let mut path = String::from_str(dir);
        if chars.len() > 0 && chars[chars.len() - 1] != '/' {
            path.append("/");
        }
        path.append(".postChange");
        proof {
            if chars.len() == 0 {
                assert(path@ =~= ".postChange"@);
            }
        }
        path
    }

    /// The hooks of the directory `dir`, where `is_file` says whether
    /// [`Hooks::hook_file`] of `dir` is there and is a regular file.
    pub fn load_from_dir(dir: &str, is_file: bool) -> (hooks: Hooks)
        ensures
            hooks@ == (if is_file {
                Some(hook_path(dir@))
            } else {
                None
            }),
    {
        let post_change = Hooks::get_hook(Hooks::hook_file(dir), is_file);
        Hooks { post_change }
    }

    /// `path` as a hook, where `is_file` says whether it is there and is a
    /// regular file; no hook otherwise.
    pub fn get_hook(path: String, is_file: bool) -> (hook: Option<String>)
        ensures
            is_file ==> hook == Some(path),
            !is_file ==> hook is None,
    {
        if !is_file {
            return None;
        }
        Some(path)
    }

    /// The program called after a change, if there is one.
    pub fn post_change(&self) -> (path: Option<&String>)
        ensures
            match path {
                Some(p) => self@ == Some(p@),
                None => self@ is None,
            },
    {
        self.post_change.as_ref()
    }

    /// The call to make after `command` gave `result`: none where the
    /// command cannot change the store, or where there is no hook.
    pub fn run_post_hooks(&self, result: &UiResult, command: &Command) -> (call: Option<HookCall>)
        ensures
            call_view(call) == post_call(self@, result@, command@),
            !command@.is_mutating() ==> call is None,
    {
        if command.is_mutating() {
            return self.run_post_change_hook(result, command);
        }
        None
    }

    /// The call of the hook for `command`, which gave `result`: the program,
    /// the action name with the key and the value that the command carries,
    /// and the text of the result, ended by a line end, as input. None where
    /// there is no hook.
    pub fn run_post_change_hook(&self, result: &UiResult, command: &Command) -> (call: Option<
        HookCall,
    >)
        requires
            hook_action(command@) is Some,
        ensures
            call_view(call) == post_change_call(self@, result@, command@),
    {
        match &self.post_change {
            Some(post_change_hook) => {
                let (action, key_opt, val_opt) = get_hook_str(command);
                let mut args: Vec<String> = Vec::new();
                args.push(String::from_str(action));
                if let Some(key) = key_opt {
                    args.push(String::from_str(key));
                }
                if let Some(val) = val_opt {
                    args.push(String::from_str(val));
                }
                let mut input = result.to_string();
                input.append("\n");
                assert(args.deep_view() =~= hook_args(command@));
                Some(HookCall { program: post_change_hook.clone(), args, input })
            },
            None => None,
        }
    }
}

} // verus!
