//! A key-value store with two shapes of value, a scalar string and an ordered
//! list of strings, driven by a small command language.
//!
//! The store lives in this file; `cmd` reads commands, `ui` applies them to a
//! store, and `hooks` says which program is told of a change, and what.

use vstd::prelude::*;
use crate::text::{clone_strings, compare, text_lt, Order};

pub mod cmd;
pub mod hooks;
pub mod text;
pub mod ui;

verus! {

/// The two shapes a stored value can have.
#[derive(Clone, Copy, Debug, PartialEq, Eq)]
pub enum ValueType {
    String,
    List,
}

/// A stored value: a scalar string, or a list of strings in the order in
/// which they were pushed.
#[derive(Debug, PartialEq, Eq)]
pub enum Value {
    StringValue(String),
    ListValue(Vec<String>),
}

/// The mathematical value of a [`Value`].
pub enum ValueView {
    StringValue(Seq<char>),
    ListValue(Seq<Seq<char>>),
}

impl View for Value {
    type V = ValueView;

    open spec fn view(&self) -> ValueView {
        match self {
            Value::StringValue(text) => ValueView::StringValue(text@),
            Value::ListValue(items) => ValueView::ListValue(items.deep_view()),
        }
    }
}

impl ValueView {
    /// The shape of the value.
    pub open spec fn get_type(self) -> ValueType {
        match self {
            ValueView::StringValue(_) => ValueType::String,
            ValueView::ListValue(_) => ValueType::List,
        }
    }
}

impl Value {
    /// The shape of the value.
    pub fn get_type(&self) -> (shape: ValueType)
        ensures
            shape == self@.get_type(),
    {
        match self {
            Value::StringValue(_) => ValueType::String,
            Value::ListValue(_) => ValueType::List,
        }
    }

    /// A copy of the value.
    pub fn duplicate(&self) -> (copy: Value)
        ensures
            copy@ == self@,
    {
        match self {
            Value::StringValue(text) => Value::StringValue(text.clone()),
            Value::ListValue(items) => Value::ListValue(clone_strings(items)),
        }
    }
}

/// The view of a value that may be absent.
pub open spec fn value_view(v: Option<Value>) -> Option<ValueView> {
    match v {
        Some(value) => Some(value@),
        None => None,
    }
}

/// Why an operation on the store, or on the file that holds it, failed.
#[derive(Debug, PartialEq, Eq)]
pub enum KVError {
    /// The key holds a scalar where a list is needed; the key.
    NotAList(String),
    /// The store holds nothing under the key.
    NoSuchKey,
    /// The list has no element to give.
    EmptyList,
    /// Reading or writing the file failed; the message.
    IoError(String),
    /// The file does not hold a store, or the store could not be encoded;
    /// the message.
    EncodingError(String),
}

/// The mathematical value of a [`KVError`].
pub enum KVErrorView {
    NotAList(Seq<char>),
    NoSuchKey,
    EmptyList,
    IoError(Seq<char>),
    EncodingError(Seq<char>),
}

impl View for KVError {
    type V = KVErrorView;

    open spec fn view(&self) -> KVErrorView {
        match self {
            KVError::NotAList(key) => KVErrorView::NotAList(key@),
            KVError::NoSuchKey => KVErrorView::NoSuchKey,
            KVError::EmptyList => KVErrorView::EmptyList,
            KVError::IoError(msg) => KVErrorView::IoError(msg@),
            KVError::EncodingError(msg) => KVErrorView::EncodingError(msg@),
        }
    }
}

/// The message that goes with an error of the store.
pub open spec fn kv_error_message(e: KVErrorView) -> Seq<char> {
    match e {
        KVErrorView::NotAList(key) => "value at "@ + key + " not a list"@,
        KVErrorView::NoSuchKey => "no key"@,
        KVErrorView::EmptyList => "list is empty"@,
        KVErrorView::IoError(msg) => msg,
        KVErrorView::EncodingError(msg) => msg,
    }
}

impl KVError {
    /// The message for the user.
    pub fn to_string(&self) -> (text: String)
        ensures
            text@ == kv_error_message(self@),
    {
        match self {
            KVError::NotAList(key) => {
                let mut text = String::from_str("value at ");
                text.append(key.as_str());
                text.append(" not a list");
                text
            },
            KVError::NoSuchKey => String::from_str("no key"),
            KVError::EmptyList => String::from_str("list is empty"),
            KVError::IoError(msg) => msg.clone(),
            KVError::EncodingError(msg) => msg.clone(),
        }
    }
}

/// What appending `items` to the list under `key` gives: the new store, or
/// the reason why the store has no list there.
pub open spec fn pushed(
    m: Map<Seq<char>, ValueView>,
    key: Seq<char>,
    items: Seq<Seq<char>>,
) -> Result<Map<Seq<char>, ValueView>, KVErrorView> {
    if !m.contains_key(key) {
        Err(KVErrorView::NoSuchKey)
    } else {
        match m[key] {
            ValueView::ListValue(list) => Ok(m.insert(key, ValueView::ListValue(list + items))),
            ValueView::StringValue(_) => Err(KVErrorView::NotAList(key)),
        }
    }
}

/// What taking the last element off the list under `key` gives: the element
/// and the new store, or the reason why there is none to take.
pub open spec fn popped(m: Map<Seq<char>, ValueView>, key: Seq<char>) -> Result<
    (Seq<char>, Map<Seq<char>, ValueView>),
    KVErrorView,
> {
    if !m.contains_key(key) {
        Err(KVErrorView::NoSuchKey)
    } else {
        match m[key] {
            ValueView::ListValue(list) => if list.len() == 0 {
                Err(KVErrorView::EmptyList)
            } else {
                Ok((list.last(), m.insert(key, ValueView::ListValue(list.drop_last()))))
            },
            ValueView::StringValue(_) => Err(KVErrorView::NotAList(key)),
        }
    }
}

/// `keys` lists the keys of `m`, each once, ascending in the order of `str`.
pub open spec fn lists_keys(m: Map<Seq<char>, ValueView>, keys: Seq<Seq<char>>) -> bool {
    &&& forall|key: Seq<char>| #[trigger] m.contains_key(key) <==> keys.contains(key)
    &&& crate::text::ascending(keys)
}

/// The keys of `m`, each once, ascending in the order of `str`. A store has
/// exactly one such list.
pub open spec fn sorted_keys(m: Map<Seq<char>, ValueView>) -> Seq<Seq<char>> {
    choose|keys: Seq<Seq<char>>| lists_keys(m, keys)
}

/// A list of the keys of `m` in ascending order is the list of its keys.
pub proof fn lemma_sorted_keys(m: Map<Seq<char>, ValueView>, keys: Seq<Seq<char>>)
    requires
        lists_keys(m, keys),
    ensures
        sorted_keys(m) == keys,
{
    let chosen = sorted_keys(m);
    assert(lists_keys(m, chosen));
    assert forall|x: Seq<char>| chosen.contains(x) <==> keys.contains(x) by {
        assert(m.contains_key(x) <==> chosen.contains(x));
        assert(m.contains_key(x) <==> keys.contains(x));
    }
    crate::text::lemma_ascending_unique(chosen, keys);
}

/// The stack law of lists: where `key` holds a list, pushing a value onto
/// it succeeds, and popping from it then gives that value back and leaves
/// the store as it was before the push.
pub proof fn lemma_push_then_pop(m: Map<Seq<char>, ValueView>, key: Seq<char>, value: Seq<char>)
    requires
        m.contains_key(key),
        m[key] is ListValue,
    ensures
        pushed(m, key, seq![value]) is Ok,
        popped(pushed(m, key, seq![value])->Ok_0, key) == Ok::<
            (Seq<char>, Map<Seq<char>, ValueView>),
            KVErrorView,
        >((value, m)),
{
    let list = m[key]->ListValue_0;
    let longer = list + seq![value];
    let after = m.insert(key, ValueView::ListValue(longer));
    assert(longer.last() == value);
    assert(longer.drop_last() =~= list);
    assert(after.insert(key, ValueView::ListValue(list)) =~= m);
}

/// Popping from a list without elements fails with `EmptyList`, and popping
/// where `key` holds a scalar fails with `NotAList`.
pub proof fn lemma_pop_refused(m: Map<Seq<char>, ValueView>, key: Seq<char>)
    requires
        m.contains_key(key),
    ensures
        m[key] == ValueView::ListValue(Seq::<Seq<char>>::empty()) ==> popped(m, key) == Err::<
            (Seq<char>, Map<Seq<char>, ValueView>),
            KVErrorView,
        >(KVErrorView::EmptyList),
        m[key] is StringValue ==> popped(m, key) == Err::<
            (Seq<char>, Map<Seq<char>, ValueView>),
            KVErrorView,
        >(KVErrorView::NotAList(key)),
{
}

/// The mapping that a list of keys with their values stands for. Where a
/// key comes twice, the later pair counts.
pub open spec fn store_of(pairs: Seq<(Seq<char>, ValueView)>) -> Map<Seq<char>, ValueView>
    decreases pairs.len(),
{
    if pairs.len() == 0 {
        Map::empty()
    } else {
        store_of(pairs.drop_last()).insert(pairs.last().0, pairs.last().1)
    }
}

/// The mathematical value of a list of keys with their values.
pub open spec fn pairs_view(pairs: Seq<(String, Value)>) -> Seq<(Seq<char>, ValueView)> {
    Seq::new(pairs.len(), |i: int| (pairs[i].0@, pairs[i].1@))
}

/// One key with its value.
#[derive(Debug)]
struct Entry {
    key: String,
    value: Value,
}

/// The keys of `entries` ascend strictly in the order of `str`.
spec fn ascending(entries: Seq<Entry>) -> bool {
    forall|i: int, j: int|
        0 <= i < j < entries.len() ==> text_lt(
            (#[trigger] entries[i]).key@,
            (#[trigger] entries[j]).key@,
        )
}

/// Some entry of `entries` has the key `key`.
spec fn holds(entries: Seq<Entry>, key: Seq<char>) -> bool {
    exists|i: int| 0 <= i < entries.len() && (#[trigger] entries[i]).key@ == key
}

/// The place of an entry with the key `key`.
spec fn place(entries: Seq<Entry>, key: Seq<char>) -> int {
    choose|i: int| 0 <= i < entries.len() && (#[trigger] entries[i]).key@ == key
}

/// The mapping that `entries` stand for.
spec fn mapping(entries: Seq<Entry>) -> Map<Seq<char>, ValueView> {
    Map::new(
        |key: Seq<char>| holds(entries, key),
        |key: Seq<char>| entries[place(entries, key)].value@,
    )
}

/// In an ascending sequence the entry at `i` is the one that its key maps to.
proof fn lemma_mapping_at(entries: Seq<Entry>, i: int)
    requires
        ascending(entries),
        0 <= i < entries.len(),
    ensures
        mapping(entries).contains_key(entries[i].key@),
        mapping(entries)[entries[i].key@] == entries[i].value@,
        place(entries, entries[i].key@) == i,
{
    let key = entries[i].key@;
    let p = place(entries, key);
    crate::text::lemma_text_lt_irreflexive(key);
    assert(p == i);
}

/// A key that falls between two neighbours of an ascending sequence is not
/// among its keys.
proof fn lemma_not_held(entries: Seq<Entry>, key: Seq<char>, at: int)
    requires
        ascending(entries),
        0 <= at <= entries.len(),
        forall|j: int| 0 <= j < at ==> text_lt((#[trigger] entries[j]).key@, key),
        at < entries.len() ==> text_lt(key, entries[at].key@),
    ensures
        !holds(entries, key),
        !mapping(entries).contains_key(key),
        forall|j: int| at <= j < entries.len() ==> text_lt(key, (#[trigger] entries[j]).key@),
{
    crate::text::lemma_text_lt_irreflexive(key);
    assert forall|j: int| at <= j < entries.len() implies text_lt(
        key,
        (#[trigger] entries[j]).key@,
    ) by {
        if j > at {
            crate::text::lemma_text_lt_transitive(key, entries[at].key@, entries[j].key@);
        }
    }
}

/// Putting an entry where its key belongs keeps the keys ascending and maps
/// the key to the entry's value.
proof fn lemma_insert(entries: Seq<Entry>, at: int, e: Entry)
    requires
        ascending(entries),
        0 <= at <= entries.len(),
        forall|j: int| 0 <= j < at ==> text_lt((#[trigger] entries[j]).key@, e.key@),
        forall|j: int| at <= j < entries.len() ==> text_lt(e.key@, (#[trigger] entries[j]).key@),
    ensures
        ascending(entries.insert(at, e)),
        mapping(entries.insert(at, e)) == mapping(entries).insert(e.key@, e.value@),
{
    let after = entries.insert(at, e);
    assert forall|i: int, j: int| 0 <= i < j < after.len() implies text_lt(
        (#[trigger] after[i]).key@,
        (#[trigger] after[j]).key@,
    ) by {
        let a = if i < at { entries[i] } else { entries[i - 1] };
        let b = if j < at { entries[j] } else { entries[j - 1] };
        if i != at && j != at {
            assert(after[i] == a && after[j] == b);
        }
    }
    let lhs = mapping(after);
    let rhs = mapping(entries).insert(e.key@, e.value@);
    assert forall|k: Seq<char>| #[trigger] lhs.contains_key(k) == rhs.contains_key(k) && (
    lhs.contains_key(k) ==> lhs[k] == rhs[k]) by {
        if holds(after, k) {
            let p = place(after, k);
            lemma_mapping_at(after, p);
            if p < at {
                lemma_mapping_at(entries, p);
            } else if p > at {
                lemma_mapping_at(entries, p - 1);
            }
        }
        if k == e.key@ {
            assert(after[at].key@ == k);
        } else if holds(entries, k) {
            let q = place(entries, k);
            if q < at {
                assert(after[q].key@ == k);
            } else {
                assert(after[q + 1].key@ == k);
            }
        }
    }
    assert(lhs =~= rhs);
}

/// Giving the entry at `i` another value under the same key keeps the keys
/// ascending and maps the key to the new value.
proof fn lemma_update(entries: Seq<Entry>, i: int, e: Entry)
    requires
        ascending(entries),
        0 <= i < entries.len(),
        e.key@ == entries[i].key@,
    ensures
        ascending(entries.update(i, e)),
        mapping(entries.update(i, e)) == mapping(entries).insert(e.key@, e.value@),
{
    let after = entries.update(i, e);
    assert forall|a: int, b: int| 0 <= a < b < after.len() implies text_lt(
        (#[trigger] after[a]).key@,
        (#[trigger] after[b]).key@,
    ) by {
        assert(after[a].key@ == entries[a].key@);
        assert(after[b].key@ == entries[b].key@);
    }
    let lhs = mapping(after);
    let rhs = mapping(entries).insert(e.key@, e.value@);
    assert forall|k: Seq<char>| #[trigger] lhs.contains_key(k) == rhs.contains_key(k) && (
    lhs.contains_key(k) ==> lhs[k] == rhs[k]) by {
        if holds(after, k) {
            let p = place(after, k);
            assert(entries[p].key@ == k);
            lemma_mapping_at(after, p);
            lemma_mapping_at(entries, p);
        }
        if k == e.key@ {
            assert(after[i].key@ == k);
        } else if holds(entries, k) {
            let q = place(entries, k);
            assert(after[q].key@ == k);
        }
    }
    assert(lhs =~= rhs);
}

/// Taking the entry at `i` away keeps the keys ascending and removes its key
/// from the mapping.
proof fn lemma_remove(entries: Seq<Entry>, i: int)
    requires
        ascending(entries),
        0 <= i < entries.len(),
    ensures
        ascending(entries.remove(i)),
        mapping(entries.remove(i)) == mapping(entries).remove(entries[i].key@),
{
    let after = entries.remove(i);
    let gone = entries[i].key@;
    assert forall|a: int, b: int| 0 <= a < b < after.len() implies text_lt(
        (#[trigger] after[a]).key@,
        (#[trigger] after[b]).key@,
    ) by {
        let x = if a < i { entries[a] } else { entries[a + 1] };
        let y = if b < i { entries[b] } else { entries[b + 1] };
        assert(after[a] == x && after[b] == y);
    }
    let lhs = mapping(after);
    let rhs = mapping(entries).remove(gone);
    assert forall|k: Seq<char>| #[trigger] lhs.contains_key(k) == rhs.contains_key(k) && (
    lhs.contains_key(k) ==> lhs[k] == rhs[k]) by {
        if holds(after, k) {
            let p = place(after, k);
            lemma_mapping_at(after, p);
            if p < i {
                lemma_mapping_at(entries, p);
            } else {
                lemma_mapping_at(entries, p + 1);
            }
        }
        if k != gone && holds(entries, k) {
            let q = place(entries, k);
            if q < i {
                assert(after[q].key@ == k);
            } else {
                assert(after[q - 1].key@ == k);
            }
        }
        if k == gone {
            lemma_mapping_at(entries, i);
        }
    }
    assert(lhs =~= rhs);
}

/// The store: a mapping from keys to values.
#[derive(Debug)]
pub struct KVStore {
    content: Vec<Entry>,
}

impl View for KVStore {
    type V = Map<Seq<char>, ValueView>;

    /// The mapping that the store holds.
    closed spec fn view(&self) -> Map<Seq<char>, ValueView> {
        mapping(self.content@)
    }
}

/// Where `key` stands among `content`: the index of its entry and `true`,
/// or the index at which an entry for it would keep the keys ascending and
/// `false`.
fn locate(content: &Vec<Entry>, key: &str) -> (r: (usize, bool))
    requires
        ascending(content@),
    ensures
        r.0 <= content.len(),
        r.1 ==> r.0 < content.len() && content[r.0 as int].key@ == key@,
        r.1 == mapping(content@).contains_key(key@),
        forall|j: int| 0 <= j < r.0 ==> text_lt((#[trigger] content[j]).key@, key@),
        !r.1 && r.0 < content.len() ==> text_lt(key@, content[r.0 as int].key@),
{
    let mut i: usize = 0;
    while i < content.len()
        invariant
            i <= content.len(),
            ascending(content@),
            forall|j: int| 0 <= j < i ==> text_lt((#[trigger] content[j]).key@, key@),
        decreases content.len() - i,
    {
        match compare(content[i].key.as_str(), key) {
            Order::Less => {
                i += 1;
            },
            Order::Equal => {
                proof {
                    lemma_mapping_at(content@, i as int);
                }
                return (i, true);
            },
            Order::Greater => {
                proof {
                    lemma_not_held(content@, key@, i as int);
                }
                return (i, false);
            },
        }
    }
    proof {
        lemma_not_held(content@, key@, i as int);
    }
    (i, false)
}

/// The index of the list under `key`, or the reason why there is none.
fn list_at(content: &Vec<Entry>, key: &str) -> (r: Result<usize, KVError>)
    requires
        ascending(content@),
    ensures
        match r {
            Ok(at) => {
                &&& at < content.len()
                &&& content[at as int].key@ == key@
                &&& content[at as int].value is ListValue
                &&& mapping(content@).contains_key(key@)
                &&& mapping(content@)[key@] == content[at as int].value@
            },
            Err(e) => {
                &&& !mapping(content@).contains_key(key@) ==> e@ == KVErrorView::NoSuchKey
                &&& mapping(content@).contains_key(key@) ==> mapping(content@)[key@]
                    is StringValue && e@ == KVErrorView::NotAList(key@)
            },
        },
{
    let (at, present) = locate(content, key);
    if !present {
        return Err(KVError::NoSuchKey);
    }
    proof {
        lemma_mapping_at(content@, at as int);
    }
    match &content[at].value {
        Value::ListValue(_) => Ok(at),
        Value::StringValue(_) => Err(KVError::NotAList(String::from_str(key))),
    }
}

impl KVStore {
    /// The entries are kept in the ascending order of their keys, so no key
    /// comes twice.
    #[verifier::type_invariant]
    spec fn well_formed(self) -> bool {
        ascending(self.content@)
    }

    /// The empty store.
    pub fn new() -> (store: KVStore)
        ensures
            store@ == Map::<Seq<char>, ValueView>::empty(),
    {
        let store = KVStore { content: Vec::new() };
        assert(store@ =~= Map::<Seq<char>, ValueView>::empty());
        store
    }

    /// The value under `key`, if the store holds one.
    pub fn get(&self, key: &str) -> (found: Option<&Value>)
        ensures
            !self@.contains_key(key@) ==> found is None,
            self@.contains_key(key@) ==> found is Some && found->Some_0@ == self@[key@],
    {
        proof {
            use_type_invariant(self);
        }
        let (at, present) = locate(&self.content, key);
        if present {
            proof {
                lemma_mapping_at(self.content@, at as int);
            }
            Some(&self.content[at].value)
        } else {
            None
        }
    }

    /// Whether the store holds a value under `key`.
    pub fn has_key(&self, key: &str) -> (present: bool)
        ensures
            present == self@.contains_key(key@),
    {
        proof {
            use_type_invariant(self);
        }
        locate(&self.content, key).1
    }

    /// The shape of the value under `key`, if the store holds one.
    pub fn get_value_type(&self, key: &str) -> (shape: Option<ValueType>)
        ensures
            shape == (if self@.contains_key(key@) {
                Some(self@[key@].get_type())
            } else {
                None
            }),
    {
        match self.get(key) {
            Some(value) => Some(value.get_type()),
            None => None,
        }
    }
    /// Puts `value` under `key`, whatever the store held there.
    fn put_value(&mut self, key: &str, value: Value) -> (prior: Option<Value>)
        ensures
            final(self)@ == old(self)@.insert(key@, value@),
            value_view(prior) == (if old(self)@.contains_key(key@) {
                Some(old(self)@[key@])
            } else {
                None
            }),
    {
        proof {
            use_type_invariant(&*self);
        }
        let (at, present) = locate(&self.content, key);
        let mut entry = Entry { key: String::from_str(key), value };
        if present {
            proof {
                lemma_mapping_at(self.content@, at as int);
                lemma_update(self.content@, at as int, entry);
            }
            let mut content: Vec<Entry> = Vec::new();
            std::mem::swap(&mut content, &mut self.content);
            std::mem::swap(&mut content[at], &mut entry);
            self.content = content;
            Some(entry.value)
        } else {
            proof {
                lemma_not_held(self.content@, key@, at as int);
                lemma_insert(self.content@, at as int, entry);
            }
            let mut content: Vec<Entry> = Vec::new();
            std::mem::swap(&mut content, &mut self.content);
            content.insert(at, entry);
            self.content = content;
            None
        }
    }

    /// Puts the scalar `value` under `key`, whatever the store held there,
    /// and hands back what it held.
    pub fn put(&mut self, key: &str, value: &str) -> (prior: Option<Value>)
        ensures
            final(self)@ == old(self)@.insert(key@, ValueView::StringValue(value@)),
            value_view(prior) == (if old(self)@.contains_key(key@) {
                Some(old(self)@[key@])
            } else {
                None
            }),
    {
        self.put_value(key, Value::StringValue(String::from_str(value)))
    }

    /// Puts an empty list under `key`, whatever the store held there, and
    /// hands back what it held.
    pub fn put_empty_list(&mut self, key: &str) -> (prior: Option<Value>)
        ensures
            final(self)@ == old(self)@.insert(
                key@,
                ValueView::ListValue(Seq::<Seq<char>>::empty()),
            ),
            value_view(prior) == (if old(self)@.contains_key(key@) {
                Some(old(self)@[key@])
            } else {
                None
            }),
    {
        let items: Vec<String> = Vec::new();
        assert(items.deep_view() =~= Seq::<Seq<char>>::empty());
        self.put_value(key, Value::ListValue(items))
    }

    /// Removes `key` with its value, of whatever shape, and hands the value
    /// back.
    pub fn drop(&mut self, key: &str) -> (prior: Option<Value>)
        ensures
            final(self)@ == old(self)@.remove(key@),
            value_view(prior) == (if old(self)@.contains_key(key@) {
                Some(old(self)@[key@])
            } else {
                None
            }),
    {
        proof {
            use_type_invariant(&*self);
        }
        let (at, present) = locate(&self.content, key);
        if present {
            proof {
                lemma_mapping_at(self.content@, at as int);
                lemma_remove(self.content@, at as int);
            }
            let mut content: Vec<Entry> = Vec::new();
            std::mem::swap(&mut content, &mut self.content);
            let entry = content.remove(at);
            self.content = content;
            Some(entry.value)
        } else {
            assert(self@ =~= self@.remove(key@));
            None
        }
    }
    /// Appends `value` to the list under `key`. Fails, and leaves the store
    /// as it was, where the store holds nothing under `key` or a scalar.
    pub fn push_value(&mut self, key: &str, value: &str) -> (r: Result<(), KVError>)
        ensures
            match r {
                Ok(()) => pushed(old(self)@, key@, seq![value@]) == Ok::<
                    Map<Seq<char>, ValueView>,
                    KVErrorView,
                >(final(self)@),
                Err(e) => pushed(old(self)@, key@, seq![value@]) == Err::<
                    Map<Seq<char>, ValueView>,
                    KVErrorView,
                >(e@) && final(self)@ == old(self)@,
            },
    {
        let mut values: Vec<String> = Vec::new();
        values.push(String::from_str(value));
        assert(values.deep_view() =~= seq![value@]);
        self.push_all_values(key, values)
    }

    /// Appends `values`, in their order, to the list under `key`: all of
    /// them, or none where the store holds nothing under `key` or a scalar.
    pub fn push_all_values(&mut self, key: &str, values: Vec<String>) -> (r: Result<(), KVError>)
        ensures
            match r {
                Ok(()) => pushed(old(self)@, key@, values.deep_view()) == Ok::<
                    Map<Seq<char>, ValueView>,
                    KVErrorView,
                >(final(self)@),
                Err(e) => pushed(old(self)@, key@, values.deep_view()) == Err::<
                    Map<Seq<char>, ValueView>,
                    KVErrorView,
                >(e@) && final(self)@ == old(self)@,
            },
    {
        proof {
            use_type_invariant(&*self);
        }
        let at = match list_at(&self.content, key) {
            Ok(at) => at,
            Err(e) => {
                return Err(e);
            },
        };
        let mut values = values;
        let ghost added = values.deep_view();
        let ghost before = self.content@;
        let mut content: Vec<Entry> = Vec::new();
        std::mem::swap(&mut content, &mut self.content);
        match &mut content[at].value {
            Value::ListValue(list) => {
                let ghost was = list.deep_view();
                list.append(&mut values);
                assert(list.deep_view() =~= was + added);
            },
            Value::StringValue(_) => {},
        }
        proof {
            assert(content@ =~= before.update(at as int, content[at as int]));
            lemma_update(before, at as int, content[at as int]);
        }
        self.content = content;
        Ok(())
    }

    /// Takes the last element off the list under `key` and hands it back.
    /// Fails, and leaves the store as it was, where the store holds nothing
    /// under `key`, a scalar, or a list without elements.
    pub fn pop_value(&mut self, key: &str) -> (r: Result<String, KVError>)
        ensures
            match r {
                Ok(last) => popped(old(self)@, key@) == Ok::<
                    (Seq<char>, Map<Seq<char>, ValueView>),
                    KVErrorView,
                >((last@, final(self)@)),
                Err(e) => popped(old(self)@, key@) == Err::<
                    (Seq<char>, Map<Seq<char>, ValueView>),
                    KVErrorView,
                >(e@) && final(self)@ == old(self)@,
            },
    {
        proof {
            use_type_invariant(&*self);
        }
        let at = match list_at(&self.content, key) {
            Ok(at) => at,
            Err(e) => {
                return Err(e);
            },
        };
        let ghost before = self.content@;
        let mut content: Vec<Entry> = Vec::new();
        std::mem::swap(&mut content, &mut self.content);
        let last = match &mut content[at].value {
            Value::ListValue(list) => {
                let ghost was = list.deep_view();
                let last = list.pop();
                assert(last is Some ==> list.deep_view() =~= was.drop_last() && last->Some_0@
                    == was.last());
                last
            },
            Value::StringValue(_) => None,
        };
        proof {
            assert(content@ =~= before.update(at as int, content[at as int]));
            lemma_update(before, at as int, content[at as int]);
            if last is None {
                assert(content[at as int].value@ == before[at as int].value@);
                assert(mapping(content@) =~= mapping(before));
            }
        }
        self.content = content;
        match last {
            Some(last) => Ok(last),
            None => Err(KVError::EmptyList),
        }
    }

    /// The keys of the store, each once, ascending in the order of `str`.
    pub fn get_keys(&self) -> (keys: Vec<&String>)
        ensures
            lists_keys(self@, keys.deep_view()),
            keys.deep_view() == sorted_keys(self@),
    {
        proof {
            use_type_invariant(self);
        }
        let mut keys: Vec<&String> = Vec::new();
        let mut i: usize = 0;
        while i < self.content.len()
            invariant
                i <= self.content.len(),
                keys.len() == i,
                forall|j: int| 0 <= j < i ==> keys[j]@ == (#[trigger] self.content[j]).key@,
            decreases self.content.len() - i,
        {
            keys.push(&self.content[i].key);
            i += 1;
        }
        proof {
            let names = keys.deep_view();
            assert(names.len() == self.content.len());
            assert forall|j: int| 0 <= j < names.len() implies #[trigger] names[j]
                == self.content[j].key@ by {
                assert(names[j] == keys[j]@);
            }
            assert forall|key: Seq<char>| #[trigger]
                self@.contains_key(key) <==> names.contains(key) by {
                if holds(self.content@, key) {
                    let p = place(self.content@, key);
                    assert(names[p] == key);
                }
                if names.contains(key) {
                    let q = choose|q: int| 0 <= q < names.len() && names[q] == key;
                    assert(self.content[q].key@ == key);
                }
            }
            assert forall|i: int, j: int| 0 <= i < j < names.len() implies text_lt(
                #[trigger] names[i],
                #[trigger] names[j],
            ) by {
                assert(text_lt(self.content[i].key@, self.content[j].key@));
            }
            lemma_sorted_keys(self@, names);
        }
        keys
    }
    /// The store as a list of its keys, ascending in the order of `str`,
    /// each with its value. The list stands for the store: a store made
    /// [`from_entries`](KVStore::from_entries) of it is equal to this one.
    pub fn entries(&self) -> (pairs: Vec<(String, Value)>)
        ensures
            store_of(pairs_view(pairs@)) == self@,
            pairs.len() == sorted_keys(self@).len(),
            forall|i: int|
                0 <= i < pairs.len() ==> (#[trigger] pairs[i]).0@ == sorted_keys(self@)[i]
                    && pairs[i].1@ == self@[sorted_keys(self@)[i]],
    {
        proof {
            use_type_invariant(self);
        }
        let mut pairs: Vec<(String, Value)> = Vec::new();
        let mut i: usize = 0;
        assert(self.content@.take(0) =~= Seq::<Entry>::empty());
        assert(mapping(Seq::<Entry>::empty()) =~= Map::<Seq<char>, ValueView>::empty());
        while i < self.content.len()
            invariant
                i <= self.content.len(),
                pairs.len() == i,
                ascending(self.content@),
                forall|j: int|
                    0 <= j < i ==> (#[trigger] pairs[j]).0@ == self.content[j].key@ && pairs[j].1@
                        == self.content[j].value@,
                store_of(pairs_view(pairs@)) == mapping(self.content@.take(i as int)),
            decreases self.content.len() - i,
        {
            let ghost before = pairs_view(pairs@);
            let ghost part = self.content@.take(i as int);
            let entry = &self.content[i];
            pairs.push((entry.key.clone(), entry.value.duplicate()));
            proof {
                assert(pairs_view(pairs@) =~= before.push((entry.key@, entry.value@)));
                assert(pairs_view(pairs@).drop_last() =~= before);
                assert(part.insert(i as int, *entry) =~= self.content@.take(i as int + 1));
                assert forall|a: int, b: int| 0 <= a < b < part.len() implies text_lt(
                    (#[trigger] part[a]).key@,
                    (#[trigger] part[b]).key@,
                ) by {
                    assert(part[a] == self.content[a] && part[b] == self.content[b]);
                }
                assert forall|j: int| 0 <= j < i implies text_lt(
                    (#[trigger] part[j]).key@,
                    entry.key@,
                ) by {
                    assert(part[j] == self.content[j]);
                }
                lemma_insert(part, i as int, *entry);
            }
            i += 1;
        }
        proof {
            assert(self.content@.take(i as int) =~= self.content@);
            let held = Seq::new(self.content.len() as nat, |j: int| self.content[j].key@);
            assert forall|key: Seq<char>| #[trigger]
                self@.contains_key(key) <==> held.contains(key) by {
                if holds(self.content@, key) {
                    let p = place(self.content@, key);
                    assert(held[p] == key);
                }
                if held.contains(key) {
                    let q = choose|q: int| 0 <= q < held.len() && held[q] == key;
                    assert(self.content[q].key@ == key);
                }
            }
            assert forall|a: int, b: int| 0 <= a < b < held.len() implies text_lt(
                #[trigger] held[a],
                #[trigger] held[b],
            ) by {
                assert(text_lt(self.content[a].key@, self.content[b].key@));
            }
            lemma_sorted_keys(self@, held);
            assert forall|j: int| 0 <= j < pairs.len() implies (#[trigger] pairs[j]).0@
                == sorted_keys(self@)[j] && pairs[j].1@ == self@[sorted_keys(self@)[j]] by {
                lemma_mapping_at(self.content@, j);
            }
        }
        pairs
    }

    /// The store that a list of keys with their values stands for. Where a
    /// key comes twice, the later pair counts.
    pub fn from_entries(pairs: Vec<(String, Value)>) -> (store: KVStore)
        ensures
            store@ == store_of(pairs_view(pairs@)),
    {
        let mut store = KVStore::new();
        let ghost all = pairs_view(pairs@);
        assert(all.take(0) =~= Seq::<(Seq<char>, ValueView)>::empty());
        for pair in it: pairs
            invariant
                it.seq() == pairs@,
                all == pairs_view(pairs@),
                store@ == store_of(all.take(it.index() as int)),
        {
            let ghost n = it.index() as int;
            let (key, value) = pair;
            assert(all.take(n + 1).drop_last() =~= all.take(n));
            assert(all.take(n + 1).last() == (key@, value@));
            store.put_value(key.as_str(), value);
        }
        assert(all.take(pairs.len() as int) =~= all);
        store
    }
}

} // verus!
