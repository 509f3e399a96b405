use kvs2::cmd::{Command, Error};
use kvs2::hooks::{HookCall, Hooks};
use kvs2::ui::{Answer, Outcome, Stored, Ui, UiError, UiResult};
use kvs2::{KVError, KVStore, Value, ValueType};

fn tokens(line: &str) -> Vec<String> {
    line.split(' ').map(|w| w.to_string()).collect()
}

fn strings(words: &[&str]) -> Vec<String> {
    words.iter().map(|w| w.to_string()).collect()
}

fn plain_ui() -> Ui {
    Ui::new("kvs".to_string(), "store.json".to_string(), false)
}

fn numbering_ui() -> Ui {
    Ui::new("kvs".to_string(), "store.json".to_string(), true)
}

/// Runs one line against the store, as one invocation would.
fn step(ui: &Ui, store: KVStore, line: &str) -> Outcome {
    ui.run(tokens(line), Stored::Loaded(store)).unwrap()
}

#[test]
fn test_construct() {
    Ui::new("program".to_string(), "test".to_string(), false);
}

#[test]
fn ok_is_the_result_without_payload() {
    assert_eq!(UiResult::ok(()), Ok(UiResult::OkResult));
}

#[test]
fn result_texts() {
    assert_eq!(UiResult::OkResult.to_string(), "ok");
    assert_eq!(UiResult::StringValueResult("hello".to_string()).to_string(), "hello");
    assert_eq!(UiResult::StringValueResult("".to_string()).to_string(), "");
    assert_eq!(UiResult::StringListResult(strings(&["x", "y"])).to_string(), "x\ny");
    assert_eq!(UiResult::StringListResult(strings(&["x"])).to_string(), "x");
    assert_eq!(UiResult::StringListResult(vec![]).to_string(), "(empty list)");
}

#[test]
fn rendering_a_list_with_and_without_numbers() {
    let value = Value::ListValue(strings(&["x", "y"]));
    assert_eq!(numbering_ui().to_result(&value).to_string(), "1: x\n2: y");
    assert_eq!(plain_ui().to_result(&value).to_string(), "x\ny");
    let empty = Value::ListValue(vec![]);
    assert_eq!(numbering_ui().to_result(&empty).to_string(), "(empty list)");
    assert_eq!(plain_ui().to_result(&empty).to_string(), "(empty list)");
    let scalar = Value::StringValue("s".to_string());
    assert_eq!(numbering_ui().to_result(&scalar), UiResult::StringValueResult("s".to_string()));
    assert_eq!(Ui::render(&value, true), UiResult::StringListResult(strings(&["1: x", "2: y"])));
    assert_eq!(Ui::render(&value, false), UiResult::StringListResult(strings(&["x", "y"])));
}

#[test]
fn numbering_counts_from_one_in_decimal() {
    let items: Vec<String> = (0..12).map(|i| format!("item{}", i)).collect();
    let lines = Ui::enumerated(&items);
    assert_eq!(lines.len(), 12);
    assert_eq!(lines[0], "1: item0");
    assert_eq!(lines[8], "9: item8");
    assert_eq!(lines[9], "10: item9");
    assert_eq!(lines[11], "12: item11");
    assert_eq!(numbering_ui().prepare_list_result(&items), lines);
    assert_eq!(plain_ui().prepare_list_result(&items), items);
}

#[test]
fn scenario_of_one_store() {
    let ui = plain_ui();

    let made = ui.run(tokens("init"), Stored::Missing).unwrap();
    assert_eq!(made.result, UiResult::OkResult);
    assert_eq!(made.store.entries(), Vec::new());

    let out = step(&ui, made.store, "put a hello");
    assert_eq!(out.result, UiResult::OkResult);
    let out = step(&ui, out.store, "get a");
    assert_eq!(out.result, UiResult::StringValueResult("hello".to_string()));

    let out = step(&ui, out.store, "createEmptyList b");
    assert_eq!(out.result, UiResult::OkResult);
    let out = step(&ui, out.store, "pushListValue b x");
    assert_eq!(out.result, UiResult::OkResult);
    let out = step(&ui, out.store, "pushListValue b y");
    assert_eq!(out.result, UiResult::OkResult);
    let out = step(&ui, out.store, "get b");
    assert_eq!(out.result, UiResult::StringListResult(strings(&["x", "y"])));

    let out = step(&ui, out.store, "popListValue b");
    assert_eq!(out.result, UiResult::StringValueResult("y".to_string()));
    assert_eq!(out.store.get("b"), Some(&Value::ListValue(strings(&["x"]))));

    let out = step(&ui, out.store, "drop a");
    assert_eq!(out.result, UiResult::StringValueResult("hello".to_string()));
    let failed = ui.run(tokens("get a"), Stored::Loaded(out.store));
    assert_eq!(failed.err(), Some(UiError::NoValueForKey("a".to_string())));
}

#[test]
fn init_wants_nothing_to_be_there() {
    let ui = plain_ui();
    let err = ui.run(tokens("init"), Stored::Loaded(KVStore::new())).err();
    assert_eq!(err, Some(UiError::InitWithExistingKvStore("store.json".to_string())));
    let unreadable = Stored::Unreadable(KVError::EncodingError("bad".to_string()));
    let err = ui.run(tokens("init"), unreadable).err();
    assert_eq!(err, Some(UiError::InitWithExistingKvStore("store.json".to_string())));
}

#[test]
fn other_commands_want_a_store() {
    let ui = plain_ui();
    let err = ui.run(tokens("get a"), Stored::Missing).err();
    assert_eq!(
        err,
        Some(UiError::KvStoreNotExisting("store.json".to_string(), "kvs".to_string()))
    );
    let unreadable = Stored::Unreadable(KVError::EncodingError("bad".to_string()));
    let err = ui.run(tokens("listKeys"), unreadable).err();
    assert_eq!(err, Some(UiError::KvError(KVError::EncodingError("bad".to_string()))));
    let unreadable = Stored::Unreadable(KVError::IoError("denied".to_string()));
    let err = ui.run(tokens("get a"), unreadable).err();
    assert_eq!(err, Some(UiError::KvError(KVError::IoError("denied".to_string()))));
}

#[test]
fn a_bad_command_fails_before_the_store_is_looked_at() {
    let ui = plain_ui();
    for stored in [
        Stored::Missing,
        Stored::Unreadable(KVError::IoError("denied".to_string())),
        Stored::Loaded(KVStore::new()),
    ] {
        let err = ui.run(tokens("bogus x"), stored).err();
        assert_eq!(err, Some(UiError::CmdError(Error::InvalidCommand("bogus".to_string()))));
    }
    let err = ui.run(Vec::new(), Stored::Missing).err();
    assert_eq!(err, Some(UiError::CmdError(Error::NoCommand)));
    let err = ui.run(tokens("put k"), Stored::Loaded(KVStore::new())).err();
    assert_eq!(
        err,
        Some(UiError::CmdError(Error::TooFewArguments("put".to_string(), 3, 2)))
    );
}

#[test]
fn load_or_create_by_case() {
    let ui = plain_ui();
    assert_eq!(ui.load_or_create_kvstore(Stored::Missing, true).unwrap().entries(), Vec::new());
    assert_eq!(
        ui.load_or_create_kvstore(Stored::Missing, false).err(),
        Some(UiError::KvStoreNotExisting("store.json".to_string(), "kvs".to_string()))
    );
    let mut kvs = KVStore::new();
    kvs.put("a", "b");
    let loaded = ui.load_or_create_kvstore(Stored::Loaded(kvs), false).unwrap();
    assert_eq!(loaded.get("a"), Some(&Value::StringValue("b".to_string())));
}

#[test]
fn put_on_a_list_is_refused() {
    let ui = plain_ui();
    let mut kvs = KVStore::new();
    kvs.put_empty_list("l");
    kvs.push_value("l", "x").unwrap();
    let before = kvs.entries();
    let command = Command::PutString("l".to_string(), "v".to_string());
    assert_eq!(
        ui.interpret(&mut kvs, &command),
        Err(UiError::AlreadyValuePresent("l".to_string()))
    );
    assert_eq!(kvs.entries(), before);
    assert_eq!(
        ui.put_string(&"l".to_string(), &"v".to_string(), &mut kvs),
        Err(UiError::AlreadyValuePresent("l".to_string()))
    );
    assert_eq!(kvs.entries(), before);
}

#[test]
fn put_replaces_a_scalar() {
    let ui = plain_ui();
    let mut kvs = KVStore::new();
    kvs.put("s", "old");
    let command = Command::PutString("s".to_string(), "new".to_string());
    assert_eq!(ui.interpret(&mut kvs, &command), Ok(Answer::plain(UiResult::OkResult)));
    assert_eq!(kvs.get("s"), Some(&Value::StringValue("new".to_string())));
}

#[test]
fn create_empty_list_on_existing_key_is_refused() {
    let ui = plain_ui();
    let mut kvs = KVStore::new();
    kvs.put("s", "v");
    kvs.put_empty_list("l");
    kvs.push_value("l", "x").unwrap();
    let before = kvs.entries();
    for key in ["s", "l"] {
        let command = Command::CreateEmptyList(key.to_string());
        assert_eq!(
            ui.interpret(&mut kvs, &command),
            Err(UiError::AlreadyValuePresent(key.to_string()))
        );
        assert_eq!(kvs.entries(), before);
    }
}

#[test]
fn create_empty_list_on_new_key() {
    let ui = plain_ui();
    let mut kvs = KVStore::new();
    let command = Command::CreateEmptyList("l".to_string());
    assert_eq!(ui.interpret(&mut kvs, &command), Ok(Answer::plain(UiResult::OkResult)));
    assert_eq!(kvs.get_value_type("l"), Some(ValueType::List));
    assert_eq!(kvs.get("l"), Some(&Value::ListValue(vec![])));
}

#[test]
fn push_and_pop_pass_store_errors_on() {
    let ui = plain_ui();
    let mut kvs = KVStore::new();
    kvs.put("s", "v");
    kvs.put_empty_list("l");
    let push = |key: &str| Command::PushListValue(key.to_string(), "x".to_string());
    let pop = |key: &str| Command::PopListValue(key.to_string());
    assert_eq!(ui.interpret(&mut kvs, &push("none")), Err(UiError::KvError(KVError::NoSuchKey)));
    assert_eq!(
        ui.interpret(&mut kvs, &push("s")),
        Err(UiError::KvError(KVError::NotAList("s".to_string())))
    );
    assert_eq!(ui.interpret(&mut kvs, &pop("none")), Err(UiError::KvError(KVError::NoSuchKey)));
    assert_eq!(
        ui.interpret(&mut kvs, &pop("s")),
        Err(UiError::KvError(KVError::NotAList("s".to_string())))
    );
    assert_eq!(ui.interpret(&mut kvs, &pop("l")), Err(UiError::KvError(KVError::EmptyList)));
}

#[test]
fn drop_shows_what_was_there() {
    let ui = numbering_ui();
    let mut kvs = KVStore::new();
    kvs.put_empty_list("l");
    kvs.push_all_values("l", strings(&["x", "y"])).unwrap();
    let answer = ui.interpret(&mut kvs, &Command::Drop("l".to_string())).unwrap();
    assert_eq!(answer.result, UiResult::StringListResult(strings(&["1: x", "2: y"])));
    assert_eq!(answer.payload, UiResult::StringListResult(strings(&["x", "y"])));
    assert!(!kvs.has_key("l"));
    assert_eq!(
        ui.interpret(&mut kvs, &Command::Drop("l".to_string())),
        Err(UiError::NoValueForKey("l".to_string()))
    );
}

#[test]
fn clear_list_replaces_either_shape() {
    let ui = plain_ui();
    let mut kvs = KVStore::new();
    let clear = |key: &str| Command::ClearList(key.to_string());
    assert_eq!(ui.interpret(&mut kvs, &clear("l")), Ok(Answer::plain(UiResult::OkResult)));
    assert_eq!(kvs.get("l"), Some(&Value::ListValue(vec![])));
    kvs.push_value("l", "x").unwrap();
    let answer = ui.interpret(&mut kvs, &clear("l")).unwrap();
    assert_eq!(answer.result, UiResult::StringListResult(strings(&["x"])));
    assert_eq!(kvs.get("l"), Some(&Value::ListValue(vec![])));
    kvs.put("s", "v");
    let answer = ui.interpret(&mut kvs, &clear("s")).unwrap();
    assert_eq!(answer.result, UiResult::StringValueResult("v".to_string()));
    assert_eq!(kvs.get("s"), Some(&Value::ListValue(vec![])));
}

#[test]
fn list_keys_is_sorted_and_never_numbered() {
    let mut kvs = KVStore::new();
    for key in ["pear", "apple", "fig"] {
        kvs.put(key, "v");
    }
    for ui in [plain_ui(), numbering_ui()] {
        let answer = ui.interpret(&mut kvs, &Command::ListKeys).unwrap();
        assert_eq!(answer.result, UiResult::StringListResult(strings(&["apple", "fig", "pear"])));
    }
    let mut none = KVStore::new();
    let answer = plain_ui().interpret(&mut none, &Command::ListKeys).unwrap();
    assert_eq!(answer.result.to_string(), "(empty list)");
}

#[test]
fn get_numbers_a_list_when_asked_to() {
    let mut kvs = KVStore::new();
    kvs.put_empty_list("l");
    kvs.push_all_values("l", strings(&["x", "y"])).unwrap();
    let out = step(&numbering_ui(), kvs, "get l");
    assert_eq!(out.result.to_string(), "1: x\n2: y");
    assert_eq!(out.hook, None);
    let out = step(&plain_ui(), out.store, "get l");
    assert_eq!(out.result.to_string(), "x\ny");
}

#[test]
fn hook_is_called_after_put_and_not_after_get() {
    let hooks = Hooks::load_from_dir("dir", true);
    let ui = plain_ui().with_hooks(hooks);
    let out = step(&ui, KVStore::new(), "put k v");
    assert_eq!(
        out.hook,
        Some(HookCall {
            program: "dir/.postChange".to_string(),
            args: strings(&["put", "k", "v"]),
            input: "ok\n".to_string(),
        })
    );
    let out = step(&ui, out.store, "get k");
    assert_eq!(out.hook, None);
    let out = step(&ui, out.store, "listKeys");
    assert_eq!(out.hook, None);
    let made = ui.run(tokens("init"), Stored::Missing).unwrap();
    assert_eq!(made.hook, None);
}

#[test]
fn hook_is_told_every_changing_command() {
    let ui = plain_ui().with_hooks(Hooks::load_from_dir("", true));
    let call = |out: &Outcome| {
        let hook = out.hook.as_ref().unwrap();
        assert_eq!(hook.program, ".postChange");
        (hook.args.clone(), hook.input.clone())
    };
    let out = step(&ui, KVStore::new(), "createEmptyList l");
    assert_eq!(call(&out), (strings(&["emptyList", "l"]), "ok\n".to_string()));
    let out = step(&ui, out.store, "pushListValue l a b");
    assert_eq!(call(&out), (strings(&["push", "l", "a b"]), "ok\n".to_string()));
    let out = step(&ui, out.store, "popListValue l");
    assert_eq!(call(&out), (strings(&["pop", "l"]), "a b\n".to_string()));
    let out = step(&ui, out.store, "clearList l");
    assert_eq!(call(&out), (strings(&["clear", "l"]), "(empty list)\n".to_string()));
    let out = step(&ui, out.store, "drop l");
    assert_eq!(call(&out), (strings(&["drop", "l"]), "(empty list)\n".to_string()));
}

#[test]
fn hook_is_told_list_elements_as_they_are_stored() {
    let ui = numbering_ui().with_hooks(Hooks::load_from_dir("dir", true));
    let mut kvs = KVStore::new();
    kvs.put_empty_list("l");
    kvs.push_all_values("l", strings(&["x", "y"])).unwrap();
    let out = step(&ui, kvs, "drop l");
    assert_eq!(out.result.to_string(), "1: x\n2: y");
    assert_eq!(out.hook.unwrap().input, "x\ny\n");
}

#[test]
fn a_refused_command_gives_no_store_to_keep() {
    let ui = plain_ui().with_hooks(Hooks::load_from_dir("dir", true));
    let mut kvs = KVStore::new();
    kvs.put_empty_list("l");
    let r = ui.run(tokens("put l v"), Stored::Loaded(kvs));
    assert_eq!(r.err(), Some(UiError::AlreadyValuePresent("l".to_string())));
}

#[test]
fn ui_error_messages() {
    assert_eq!(
        UiError::KvStoreNotExisting("p".to_string(), "kvs".to_string()).to_string(),
        "kv store at p not existing. Create with 'kvs init' command"
    );
    assert_eq!(
        UiError::InitWithExistingKvStore("p".to_string()).to_string(),
        "kv store at p already initialized"
    );
    assert_eq!(UiError::NoValueForKey("k".to_string()).to_string(), "no value for key k");
    assert_eq!(
        UiError::AlreadyValuePresent("k".to_string()).to_string(),
        "there is already a value at k"
    );
    assert_eq!(UiError::KvError(KVError::EmptyList).to_string(), "list is empty");
    assert_eq!(UiError::CmdError(Error::NoCommand).to_string(), "no command given");
}

#[test]
fn errors_convert_into_ui_errors() {
    assert_eq!(UiError::from(Error::NoCommand), UiError::CmdError(Error::NoCommand));
    assert_eq!(UiError::from(KVError::NoSuchKey), UiError::KvError(KVError::NoSuchKey));
}
