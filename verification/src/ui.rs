//! The interpreter: it loads or creates the store, applies one command to
//! it, and says what the user is shown, which hook is to be called, and
//! what store is to be kept.

use vstd::prelude::*;
use crate::cmd::{error_message, parse, Command, CommandView, Error, ErrorView};
use crate::hooks::{call_view, post_call, HookCall, HookCallView, Hooks};
use crate::text::{clone_strings, decimal, decimal_spec, join_from, join_spec};
use crate::{
    kv_error_message, popped, pushed, sorted_keys, KVError, KVErrorView, KVStore, Value,
    ValueType, ValueView,
};

verus! {

/// Why a command could not be carried out.
#[derive(Debug, PartialEq, Eq)]
pub enum UiError {
    /// There is no store yet: where it was looked for, and the program's
    /// name.
    KvStoreNotExisting(String, String),
    /// A store is to be made where there is one already.
    InitWithExistingKvStore(String),
    /// The store holds nothing under the key.
    NoValueForKey(String),
    /// The store holds a value under the key that the command may not
    /// replace.
    AlreadyValuePresent(String),
    /// The store, or the file that holds it, refused.
    KvError(KVError),
    /// The tokens are no command.
    CmdError(Error),
}

/// The mathematical value of a [`UiError`].
pub enum UiErrorView {
    KvStoreNotExisting(Seq<char>, Seq<char>),
    InitWithExistingKvStore(Seq<char>),
    NoValueForKey(Seq<char>),
    AlreadyValuePresent(Seq<char>),
    KvError(KVErrorView),
    CmdError(ErrorView),
}

impl View for UiError {
    type V = UiErrorView;

    open spec fn view(&self) -> UiErrorView {
        match self {
            UiError::KvStoreNotExisting(path, program) => UiErrorView::KvStoreNotExisting(
                path@,
                program@,
            ),
            UiError::InitWithExistingKvStore(path) => UiErrorView::InitWithExistingKvStore(path@),
            UiError::NoValueForKey(key) => UiErrorView::NoValueForKey(key@),
            UiError::AlreadyValuePresent(key) => UiErrorView::AlreadyValuePresent(key@),
            UiError::KvError(e) => UiErrorView::KvError(e@),
            UiError::CmdError(e) => UiErrorView::CmdError(e@),
        }
    }
}

/// The message that goes with an error of the interpreter.
pub open spec fn ui_error_message(e: UiErrorView) -> Seq<char> {
    match e {
        UiErrorView::KvStoreNotExisting(path, program) => "kv store at "@ + path
            + " not existing. Create with '"@ + program + " init' command"@,
        UiErrorView::InitWithExistingKvStore(path) => "kv store at "@ + path
            + " already initialized"@,
        UiErrorView::NoValueForKey(key) => "no value for key "@ + key,
        UiErrorView::AlreadyValuePresent(key) => "there is already a value at "@ + key,
        UiErrorView::KvError(e) => kv_error_message(e),
        UiErrorView::CmdError(e) => error_message(e),
    }
}

impl UiError {
    /// The message for the user.
    pub fn to_string(&self) -> (text: String)
        ensures
            text@ == ui_error_message(self@),
    {
        match self {
            UiError::KvStoreNotExisting(path, program) => {
                let mut text = String::from_str("kv store at ");
                text.append(path.as_str());
                text.append(" not existing. Create with '");
                text.append(program.as_str());
                text.append(" init' command");
                text
            },
            UiError::InitWithExistingKvStore(path) => {
                let mut text = String::from_str("kv store at ");
                text.append(path.as_str());
                text.append(" already initialized");
                text
            },
            UiError::NoValueForKey(key) => {
                let mut text = String::from_str("no value for key ");
                text.append(key.as_str());
                text
            },
            UiError::AlreadyValuePresent(key) => {
                let mut text = String::from_str("there is already a value at ");
                text.append(key.as_str());
                text
            },
            UiError::KvError(e) => e.to_string(),
            UiError::CmdError(e) => e.to_string(),
        }
    }
}

impl From<Error> for UiError {
    fn from(e: Error) -> (r: UiError) {
        UiError::CmdError(e)
    }
}

impl vstd::std_specs::convert::FromSpecImpl<Error> for UiError {
    open spec fn obeys_from_spec() -> bool {
        true
    }

    open spec fn from_spec(e: Error) -> UiError {
        UiError::CmdError(e)
    }
}

impl From<KVError> for UiError {
    fn from(e: KVError) -> (r: UiError) {
        UiError::KvError(e)
    }
}

impl vstd::std_specs::convert::FromSpecImpl<KVError> for UiError {
    open spec fn obeys_from_spec() -> bool {
        true
    }

    open spec fn from_spec(e: KVError) -> UiError {
        UiError::KvError(e)
    }
}

/// What a command gave.
#[derive(Debug, PartialEq, Eq)]
pub enum UiResult {
    StringValueResult(String),
    StringListResult(Vec<String>),
    /// The command was carried out and has nothing to show.
    OkResult,
}

/// The mathematical value of a [`UiResult`].
pub enum UiResultView {
    StringValueResult(Seq<char>),
    StringListResult(Seq<Seq<char>>),
    OkResult,
}

impl View for UiResult {
    type V = UiResultView;

    open spec fn view(&self) -> UiResultView {
        match self {
            UiResult::StringValueResult(text) => UiResultView::StringValueResult(text@),
            UiResult::StringListResult(lines) => UiResultView::StringListResult(
                lines.deep_view(),
            ),
            UiResult::OkResult => UiResultView::OkResult,
        }
    }
}

/// The text of a result: a scalar as it is, the lines of a list with a line
/// end between each two, a marker for a list without lines, and `ok`.
pub open spec fn result_text(r: UiResultView) -> Seq<char> {
    match r {
        UiResultView::StringValueResult(text) => text,
        UiResultView::StringListResult(lines) => if lines.len() == 0 {
            "(empty list)"@
        } else {
            join_spec(lines, "\n"@)
        },
        UiResultView::OkResult => "ok"@,
    }
}

impl UiResult {
    /// The result of a command that has nothing to show.
    pub fn ok(_unit: ()) -> (r: Result<UiResult, UiError>)
        ensures
            r == Ok::<UiResult, UiError>(UiResult::OkResult),
    {
        Ok(UiResult::OkResult)
    }

    /// The text of the result.
    pub fn to_string(&self) -> (text: String)
        ensures
            text@ == result_text(self@),
    {
        match self {
            UiResult::StringValueResult(value) => value.clone(),
            UiResult::StringListResult(strings) => {
                if strings.len() == 0 {
                    String::from_str("(empty list)")
                } else {
                    assert(strings.deep_view().skip(0) =~= strings.deep_view());
                    join_from(strings, 0, "\n")
                }
            },
            UiResult::OkResult => String::from_str("ok"),
        }
    }

    /// A copy of the result.
    pub fn duplicate(&self) -> (copy: UiResult)
        ensures
            copy@ == self@,
    {
        match self {
            UiResult::StringValueResult(value) => UiResult::StringValueResult(value.clone()),
            UiResult::StringListResult(strings) => UiResult::StringListResult(
                clone_strings(strings),
            ),
            UiResult::OkResult => UiResult::OkResult,
        }
    }
}

/// The elements of a list, each behind its place in the list, counted from
/// one, a colon and a space.
pub open spec fn numbered(items: Seq<Seq<char>>) -> Seq<Seq<char>> {
    Seq::new(items.len(), |i: int| decimal_spec((i + 1) as nat) + ": "@ + items[i])
}

/// A stored value as a result: a scalar as it is, a list with its elements
/// numbered where `enumerate` says so.
pub open spec fn rendered(v: ValueView, enumerate: bool) -> UiResultView {
    match v {
        ValueView::StringValue(text) => UiResultView::StringValueResult(text),
        ValueView::ListValue(items) => UiResultView::StringListResult(
            if enumerate {
                numbered(items)
            } else {
                items
            },
        ),
    }
}

/// What applying `c` to the store `m` gives: the result and the store
/// afterwards, or the reason why the command is refused, in which case the
/// store stays as it is. `enumerate` says whether the elements of a list
/// value are numbered in the result.
pub open spec fn applied(m: Map<Seq<char>, ValueView>, c: CommandView, enumerate: bool) -> Result<
    (UiResultView, Map<Seq<char>, ValueView>),
    UiErrorView,
> {
    match c {
        CommandView::Init => Ok((UiResultView::OkResult, m)),
        CommandView::PutString(key, value) => if m.contains_key(key) && m[key] is ListValue {
            Err(UiErrorView::AlreadyValuePresent(key))
        } else {
            Ok((UiResultView::OkResult, m.insert(key, ValueView::StringValue(value))))
        },
        CommandView::Get(key) => if m.contains_key(key) {
            Ok((rendered(m[key], enumerate), m))
        } else {
            Err(UiErrorView::NoValueForKey(key))
        },
        CommandView::ListKeys => Ok((UiResultView::StringListResult(sorted_keys(m)), m)),
        CommandView::CreateEmptyList(key) => if m.contains_key(key) {
            Err(UiErrorView::AlreadyValuePresent(key))
        } else {
            Ok(
                (
                    UiResultView::OkResult,
                    m.insert(key, ValueView::ListValue(Seq::<Seq<char>>::empty())),
                ),
            )
        },
        CommandView::PushListValue(key, value) => match pushed(m, key, seq![value]) {
            Ok(after) => Ok((UiResultView::OkResult, after)),
            Err(e) => Err(UiErrorView::KvError(e)),
        },
        CommandView::PopListValue(key) => match popped(m, key) {
            Ok((last, after)) => Ok((UiResultView::StringValueResult(last), after)),
            Err(e) => Err(UiErrorView::KvError(e)),
        },
        CommandView::Drop(key) => if m.contains_key(key) {
            Ok((rendered(m[key], enumerate), m.remove(key)))
        } else {
            Err(UiErrorView::NoValueForKey(key))
        },
        CommandView::ClearList(key) => Ok(
            (
                if m.contains_key(key) {
                    rendered(m[key], enumerate)
                } else {
                    UiResultView::OkResult
                },
                m.insert(key, ValueView::ListValue(Seq::<Seq<char>>::empty())),
            ),
        ),
    }
}

/// What a command gave, twice: as the user is shown it, and as a hook is
/// told it. The two differ only where the elements of a list are numbered
/// for the user: a hook is told them as they are stored.
#[derive(Debug, PartialEq, Eq)]
pub struct Answer {
    pub result: UiResult,
    pub payload: UiResult,
}

impl Answer {
    /// The answer that tells the hook what it shows the user.
    pub fn plain(result: UiResult) -> (answer: Answer)
        ensures
            answer.result == result,
            answer.payload@ == result@,
    {
        let payload = result.duplicate();
        Answer { result, payload }
    }
}

/// `r` is what applying `c` to the store `before` gives, and `after` is the
/// store afterwards.
pub open spec fn answers(
    r: Result<Answer, UiError>,
    before: Map<Seq<char>, ValueView>,
    after: Map<Seq<char>, ValueView>,
    c: CommandView,
    enumerate: bool,
) -> bool {
    match r {
        Ok(answer) => {
            &&& applied(before, c, enumerate) == Ok::<
                (UiResultView, Map<Seq<char>, ValueView>),
                UiErrorView,
            >((answer.result@, after))
            &&& applied(before, c, false) == Ok::<
                (UiResultView, Map<Seq<char>, ValueView>),
                UiErrorView,
            >((answer.payload@, after))
        },
        Err(e) => {
            &&& applied(before, c, enumerate) == Err::<
                (UiResultView, Map<Seq<char>, ValueView>),
                UiErrorView,
            >(e@)
            &&& after == before
        },
    }
}

/// `put` on a key that holds a list is refused with `AlreadyValuePresent`,
/// whatever the value and the settings.
pub proof fn lemma_put_on_list_refused(
    m: Map<Seq<char>, ValueView>,
    key: Seq<char>,
    value: Seq<char>,
    enumerate: bool,
)
    requires
        m.contains_key(key),
        m[key] is ListValue,
    ensures
        applied(m, CommandView::PutString(key, value), enumerate) == Err::<
            (UiResultView, Map<Seq<char>, ValueView>),
            UiErrorView,
        >(UiErrorView::AlreadyValuePresent(key)),
{
}

/// `createEmptyList` on a key that holds a value of either shape is refused
/// with `AlreadyValuePresent`; on a key that holds none it succeeds, and
/// the key then holds a list without elements.
pub proof fn lemma_create_empty_list(m: Map<Seq<char>, ValueView>, key: Seq<char>, enumerate: bool)
    ensures
        m.contains_key(key) ==> applied(m, CommandView::CreateEmptyList(key), enumerate) == Err::<
            (UiResultView, Map<Seq<char>, ValueView>),
            UiErrorView,
        >(UiErrorView::AlreadyValuePresent(key)),
        !m.contains_key(key) ==> {
            let r = applied(m, CommandView::CreateEmptyList(key), enumerate);
            &&& r is Ok
            &&& r->Ok_0.0 == UiResultView::OkResult
            &&& r->Ok_0.1.contains_key(key)
            &&& r->Ok_0.1[key].get_type() == ValueType::List
            &&& r->Ok_0.1[key]->ListValue_0.len() == 0
        },
{
}

/// A command that is refused leaves the store as it is: where [`answers`]
/// holds of an error, the store afterwards is the store before.
pub proof fn lemma_refusal_keeps_store(
    r: Result<Answer, UiError>,
    before: Map<Seq<char>, ValueView>,
    after: Map<Seq<char>, ValueView>,
    c: CommandView,
    enumerate: bool,
)
    requires
        answers(r, before, after, c, enumerate),
        r is Err,
    ensures
        after == before,
{
}

/// A command that cannot change the store leaves it as it is.
pub proof fn lemma_reading_keeps_store(
    m: Map<Seq<char>, ValueView>,
    c: CommandView,
    enumerate: bool,
)
    requires
        !c.is_mutating(),
        applied(m, c, enumerate) is Ok,
    ensures
        applied(m, c, enumerate)->Ok_0.1 == m,
{
}

/// A command changes nothing but what its own key holds: every other key
/// holds afterwards what it held before.
pub proof fn lemma_other_keys_untouched(
    m: Map<Seq<char>, ValueView>,
    c: CommandView,
    enumerate: bool,
    other: Seq<char>,
)
    requires
        applied(m, c, enumerate) is Ok,
        crate::hooks::hook_key(c) != Some(other),
    ensures
        applied(m, c, enumerate)->Ok_0.1.contains_key(other) == m.contains_key(other),
        m.contains_key(other) ==> applied(m, c, enumerate)->Ok_0.1[other] == m[other],
{
}

/// No command turns a scalar into a list or a list into a scalar, but for
/// `clearList`, which is asked to: a key that holds a value before and
/// after any other command holds one of the same shape.
pub proof fn lemma_shape_is_kept(
    m: Map<Seq<char>, ValueView>,
    c: CommandView,
    enumerate: bool,
    key: Seq<char>,
)
    requires
        applied(m, c, enumerate) is Ok,
        c != CommandView::ClearList(key),
        m.contains_key(key),
        applied(m, c, enumerate)->Ok_0.1.contains_key(key),
    ensures
        applied(m, c, enumerate)->Ok_0.1[key].get_type() == m[key].get_type(),
{
}

/// What was found where the store is kept.
#[derive(Debug)]
pub enum Stored {
    /// Nothing is there.
    Missing,
    /// Something is there, and reading it as a store failed.
    Unreadable(KVError),
    /// The store that is there.
    Loaded(KVStore),
}

/// The mathematical value of a [`Stored`].
pub enum StoredView {
    Missing,
    Unreadable(KVErrorView),
    Loaded(Map<Seq<char>, ValueView>),
}

impl View for Stored {
    type V = StoredView;

    open spec fn view(&self) -> StoredView {
        match self {
            Stored::Missing => StoredView::Missing,
            Stored::Unreadable(e) => StoredView::Unreadable(e@),
            Stored::Loaded(store) => StoredView::Loaded(store@),
        }
    }
}

/// The store that a command starts from. `init` makes an empty store and
/// wants nothing to be there; every other command wants a store that can be
/// read.
pub open spec fn loaded(
    stored: StoredView,
    is_init: bool,
    store_file: Seq<char>,
    program: Seq<char>,
) -> Result<Map<Seq<char>, ValueView>, UiErrorView> {
    match stored {
        StoredView::Missing => if is_init {
            Ok(Map::empty())
        } else {
            Err(UiErrorView::KvStoreNotExisting(store_file, program))
        },
        StoredView::Unreadable(e) => if is_init {
            Err(UiErrorView::InitWithExistingKvStore(store_file))
        } else {
            Err(UiErrorView::KvError(e))
        },
        StoredView::Loaded(m) => if is_init {
            Err(UiErrorView::InitWithExistingKvStore(store_file))
        } else {
            Ok(m)
        },
    }
}

/// What one invocation comes to: what the user is shown, the store to keep,
/// and the hook to call before it is kept, if any.
#[derive(Debug)]
pub struct Outcome {
    pub result: UiResult,
    pub store: KVStore,
    pub hook: Option<HookCall>,
}

/// The mathematical value of an [`Outcome`].
pub struct OutcomeView {
    pub result: UiResultView,
    pub store: Map<Seq<char>, ValueView>,
    pub hook: Option<HookCallView>,
}

impl View for Outcome {
    type V = OutcomeView;

    open spec fn view(&self) -> OutcomeView {
        OutcomeView { result: self.result@, store: self.store@, hook: call_view(self.hook) }
    }
}

/// What one invocation with the tokens `tokens` comes to, given what was
/// found where the store is kept: the tokens are read as a command, the
/// store is loaded or made, the command is applied to it, and the hook is
/// told what the command gave, with the elements of a list as they are
/// stored. The first of these steps that fails gives the error, and then
/// there is no store to keep.
pub open spec fn ran(
    program: Seq<char>,
    store_file: Seq<char>,
    enumerate: bool,
    hooks: Option<Seq<char>>,
    tokens: Seq<Seq<char>>,
    stored: StoredView,
) -> Result<OutcomeView, UiErrorView> {
    match parse(tokens) {
        Err(e) => Err(UiErrorView::CmdError(e)),
        Ok(c) => match loaded(stored, c is Init, store_file, program) {
            Err(e) => Err(e),
            Ok(m) => match applied(m, c, enumerate) {
                Err(e) => Err(e),
                Ok((result, after)) => Ok(
                    OutcomeView {
                        result,
                        store: after,
                        hook: post_call(hooks, applied(m, c, false)->Ok_0.0, c),
                    },
                ),
            },
        },
    }
}

/// The view of what [`Ui::run`] returns.
pub open spec fn run_view(r: Result<Outcome, UiError>) -> Result<OutcomeView, UiErrorView> {
    match r {
        Ok(outcome) => Ok(outcome@),
        Err(e) => Err(e@),
    }
}

/// The interpreter with its settings: the program's name, where the store
/// is kept, whether the elements of a list are numbered when shown, and the
/// hooks.
#[derive(Debug)]
pub struct Ui {
    program: String,
    store_file: String,
    enumerate_list: bool,
    hooks: Hooks,
}

impl Ui {
    /// The program's name.
    pub closed spec fn program(&self) -> Seq<char> {
        self.program@
    }

    /// Where the store is kept.
    pub closed spec fn store_file(&self) -> Seq<char> {
        self.store_file@
    }

    /// Whether the elements of a list are numbered when shown.
    pub closed spec fn enumerates(&self) -> bool {
        self.enumerate_list
    }

    /// The program called after a change, if there is one.
    pub closed spec fn hook(&self) -> Option<Seq<char>> {
        self.hooks@
    }

    /// An interpreter without hooks.
    pub fn new(program: String, store_file: String, enumerate_list: bool) -> (ui: Ui)
        ensures
            ui.program() == program@,
            ui.store_file() == store_file@,
            ui.enumerates() == enumerate_list,
            ui.hook() is None,
    {
        Ui { program, store_file, enumerate_list, hooks: Hooks::none() }
    }

    /// The same interpreter with `hooks` for its hooks.
    pub fn with_hooks(self, hooks: Hooks) -> (ui: Ui)
        ensures
            ui.program() == self.program(),
            ui.store_file() == self.store_file(),
            ui.enumerates() == self.enumerates(),
            ui.hook() == hooks@,
    {
        Ui {
            program: self.program,
            store_file: self.store_file,
            enumerate_list: self.enumerate_list,
            hooks,
        }
    }

    /// The store that a command starts from, given what was found where the
    /// store is kept and whether the command is `init`.
    pub fn load_or_create_kvstore(&self, stored: Stored, is_init: bool) -> (r: Result<
        KVStore,
        UiError,
    >)
        ensures
            match r {
                Ok(store) => loaded(stored@, is_init, self.store_file(), self.program()) == Ok::<
                    Map<Seq<char>, ValueView>,
                    UiErrorView,
                >(store@),
                Err(e) => loaded(stored@, is_init, self.store_file(), self.program()) == Err::<
                    Map<Seq<char>, ValueView>,
                    UiErrorView,
                >(e@),
            },
    {
        match stored {
            Stored::Missing => {
                if !is_init {
                    return Err(
                        UiError::KvStoreNotExisting(self.store_file.clone(), self.program.clone()),
                    );
                }
                Ok(KVStore::new())
            },
            Stored::Unreadable(e) => {
                if is_init {
                    Err(UiError::InitWithExistingKvStore(self.store_file.clone()))
                } else {
                    Err(UiError::KvError(e))
                }
            },
            Stored::Loaded(store) => {
                if is_init {
                    Err(UiError::InitWithExistingKvStore(self.store_file.clone()))
                } else {
                    Ok(store)
                }
            },
        }
    }

    /// Carries out one invocation: reads `args` as a command, takes the
    /// store from `stored`, applies the command and says which hook is to be
    /// called. Where it fails, nothing is to be kept.
    pub fn run(&self, args: Vec<String>, stored: Stored) -> (r: Result<Outcome, UiError>)
        ensures
            run_view(r) == ran(
                self.program(),
                self.store_file(),
                self.enumerates(),
                self.hook(),
                args.deep_view(),
                stored@,
            ),
    {
        let command = match Command::from_strings(args) {
            Ok(command) => command,
            Err(e) => {
                return Err(UiError::CmdError(e));
            },
        };
        let is_init = match &command {
            Command::Init => true,
            _ => false,
        };
        let mut kvs = match self.load_or_create_kvstore(stored, is_init) {
            Ok(kvs) => kvs,
            Err(e) => {
                return Err(e);
            },
        };
        let answer = match self.interpret(&mut kvs, &command) {
            Ok(answer) => answer,
            Err(e) => {
                return Err(e);
            },
        };
        let hook = self.hooks.run_post_hooks(&answer.payload, &command);
        Ok(Outcome { result: answer.result, store: kvs, hook })
    }

    /// Applies `command` to `kvs`.
    pub fn interpret(&self, kvs: &mut KVStore, command: &Command) -> (r: Result<Answer, UiError>)
        ensures
            answers(r, old(kvs)@, final(kvs)@, command@, self.enumerates()),
    {
        match command {
            Command::Init => Ok(Answer::plain(UiResult::OkResult)),
            Command::PutString(key, value) => self.put_string(key, value, kvs),
            Command::Get(key) => self.get(key, kvs),
            Command::ListKeys => self.list_keys(kvs),
            Command::CreateEmptyList(key) => self.create_empty_list(key, kvs),
            Command::PushListValue(key, value) => {
                match kvs.push_value(key.as_str(), value.as_str()) {
                    Ok(()) => Ok(Answer::plain(UiResult::OkResult)),
                    Err(e) => Err(UiError::KvError(e)),
                }
            },
            Command::PopListValue(key) => {
                match kvs.pop_value(key.as_str()) {
                    Ok(last) => Ok(Answer::plain(UiResult::StringValueResult(last))),
                    Err(e) => Err(UiError::KvError(e)),
                }
            },
            Command::Drop(key) => self.drop(key, kvs),
            Command::ClearList(key) => self.clear_list(key, kvs),
        }
    }

    /// Puts a scalar under `key`, unless the store holds a list there.
    pub fn put_string(&self, key: &String, value: &String, kvs: &mut KVStore) -> (r: Result<
        Answer,
        UiError,
    >)
        ensures
            answers(
                r,
                old(kvs)@,
                final(kvs)@,
                CommandView::PutString(key@, value@),
                self.enumerates(),
            ),
            old(kvs)@.contains_key(key@) && old(kvs)@[key@] is ListValue ==> r is Err
                && r->Err_0@ == UiErrorView::AlreadyValuePresent(key@) && final(kvs)@ == old(kvs)@,
    {
        match kvs.get_value_type(key.as_str()) {
            Some(ValueType::List) => Err(UiError::AlreadyValuePresent(key.clone())),
            _ => {
                kvs.put(key.as_str(), value.as_str());
                Ok(Answer::plain(UiResult::OkResult))
            },
        }
    }

    /// Puts an empty list under `key`, unless the store holds a value there.
    pub fn create_empty_list(&self, key: &String, kvs: &mut KVStore) -> (r: Result<
        Answer,
        UiError,
    >)
        ensures
            answers(
                r,
                old(kvs)@,
                final(kvs)@,
                CommandView::CreateEmptyList(key@),
                self.enumerates(),
            ),
            old(kvs)@.contains_key(key@) ==> r is Err && r->Err_0@
                == UiErrorView::AlreadyValuePresent(key@) && final(kvs)@ == old(kvs)@,
            !old(kvs)@.contains_key(key@) ==> r is Ok && final(kvs)@.contains_key(key@) && final(kvs)@[key@] == ValueView::ListValue(Seq::<Seq<char>>::empty()),
    {
        if kvs.has_key(key.as_str()) {
            Err(UiError::AlreadyValuePresent(key.clone()))
        } else {
            kvs.put_empty_list(key.as_str());
            Ok(Answer::plain(UiResult::OkResult))
        }
    }

    /// Puts an empty list under `key`, whatever the store held there, and
    /// shows what it held.
    pub fn clear_list(&self, key: &String, kvs: &mut KVStore) -> (r: Result<Answer, UiError>)
        ensures
            answers(r, old(kvs)@, final(kvs)@, CommandView::ClearList(key@), self.enumerates()),
            r is Ok,
    {
        match kvs.put_empty_list(key.as_str()) {
            Some(v) => Ok(Answer { result: self.to_result(&v), payload: Ui::render(&v, false) }),
            None => Ok(Answer::plain(UiResult::OkResult)),
        }
    }

    /// Removes `key` with its value and shows the value.
    pub fn drop(&self, key: &String, kvs: &mut KVStore) -> (r: Result<Answer, UiError>)
        ensures
            answers(r, old(kvs)@, final(kvs)@, CommandView::Drop(key@), self.enumerates()),
    {
        match kvs.drop(key.as_str()) {
            Some(v) => Ok(Answer { result: self.to_result(&v), payload: Ui::render(&v, false) }),
            None => {
                assert(kvs@ =~= old(kvs)@);
                Err(UiError::NoValueForKey(key.clone()))
            },
        }
    }

    /// Shows the keys of the store, ascending in the order of `str`.
    pub fn list_keys(&self, kvs: &KVStore) -> (r: Result<Answer, UiError>)
        ensures
            answers(r, kvs@, kvs@, CommandView::ListKeys, self.enumerates()),
            r is Ok,
    {
        let keys = kvs.get_keys();
        let mut names: Vec<String> = Vec::new();
        let mut i: usize = 0;
        while i < keys.len()
            invariant
                i <= keys.len(),
                names.len() == i,
                forall|j: int| 0 <= j < i ==> names[j]@ == keys[j]@,
            decreases keys.len() - i,
        {
            names.push(keys[i].clone());
            i += 1;
        }
        assert(names.deep_view() =~= keys.deep_view());
        Ok(Answer::plain(UiResult::StringListResult(names)))
    }

    /// Shows the value under `key`.
    pub fn get(&self, key: &String, kvs: &KVStore) -> (r: Result<Answer, UiError>)
        ensures
            answers(r, kvs@, kvs@, CommandView::Get(key@), self.enumerates()),
    {
        match kvs.get(key.as_str()) {
            Some(value) => Ok(
                Answer { result: self.to_result(value), payload: Ui::render(value, false) },
            ),
            None => Err(UiError::NoValueForKey(key.clone())),
        }
    }

    /// A stored value as the result that the user is shown.
    pub fn to_result(&self, value: &Value) -> (result: UiResult)
        ensures
            result@ == rendered(value@, self.enumerates()),
    {
        match value {
            Value::StringValue(val) => UiResult::StringValueResult(val.clone()),
            Value::ListValue(list) => UiResult::StringListResult(self.prepare_list_result(list)),
        }
    }

    /// A stored value as a result, with the elements of a list numbered
    /// where `enumerate` says so.
    pub fn render(value: &Value, enumerate: bool) -> (result: UiResult)
        ensures
            result@ == rendered(value@, enumerate),
    {
        match value {
            Value::StringValue(val) => UiResult::StringValueResult(val.clone()),
            Value::ListValue(list) => UiResult::StringListResult(
                if enumerate {
                    Ui::enumerated(list)
                } else {
                    clone_strings(list)
                },
            ),
        }
    }

    /// The elements of `list` as the user is shown them: numbered, where the
    /// interpreter is set to number them.
    pub fn prepare_list_result(&self, list: &Vec<String>) -> (lines: Vec<String>)
        ensures
            lines.deep_view() == (if self.enumerates() {
                numbered(list.deep_view())
            } else {
                list.deep_view()
            }),
    {
        if self.enumerate_list {
            Ui::enumerated(list)
        } else {
            clone_strings(list)
        }
    }

    /// The elements of `list`, each behind its number, a colon and a space.
    pub fn enumerated(list: &Vec<String>) -> (lines: Vec<String>)
        ensures
            lines.deep_view() == numbered(list.deep_view()),
    {
        let mut lines: Vec<String> = Vec::new();
        let mut i: usize = 0;
        while i < list.len()
            invariant
                i <= list.len(),
                lines.len() == i,
                forall|j: int|
                    0 <= j < i ==> (#[trigger] lines[j])@ == decimal_spec((j + 1) as nat) + ": "@
                        + list[j]@,
            decreases list.len() - i,
        {
            let mut line = decimal(i + 1);
            line.append(": ");
            line.append(list[i].as_str());
            lines.push(line);
            i += 1;
        }
        assert(lines.deep_view() =~= numbered(list.deep_view()));
        lines
    }
}

} // verus!
