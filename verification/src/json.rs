//! JSON documents as plain values.
//!
//! [`Json`] is a document that verified code can read and build. Its model is
//! [`JsonTree`]. Text is read and written by `serde_json`.

use crate::clean::{cleans_to, law_cleaning_opens_json_string};
use crate::text::{
    before, comes_before, lemma_before_irreflexive, lemma_before_total, lemma_before_transitive,
    quoted, same_text, text_view,
};
use serde_json::{Number, Value};
use vstd::prelude::*;

verus! {

/// The model of a JSON document. The entries of an object stand in the order in
/// which they are walked.
pub enum JsonTree {
    Null,
    Bool(bool),
    /// A number that is a `u64`.
    Count(u64),
    /// A number that is an `i64` and no `u64`.
    Negative(i64),
    /// Any other number.
    Number(Number),
    Text(Seq<char>),
    Array(Seq<JsonTree>),
    Object(Seq<(Seq<char>, JsonTree)>),
}

/// A JSON document.
#[derive(Debug, PartialEq, Eq)]
pub enum Json {
    Null,
    Bool(bool),
    /// A number that is a `u64`.
    Count(u64),
    /// A number that is an `i64`.
    Integer(i64),
    /// A number as `serde_json` holds it.
    Number(Number),
    Text(String),
    Array(Vec<Json>),
    /// The entries of an object, in the order of their keys.
    Object(Vec<(String, Json)>),
}

/// A number of `serde_json`. What is read of it is named by [`held_count`]
/// and [`held_integer`].
#[verifier::external_type_specification]
#[verifier::external_body]
pub struct ExNumber(serde_json::Number);

/// A document of `serde_json`. What it holds is named by [`value_tree`].
#[verifier::external_type_specification]
#[verifier::external_body]
pub struct ExValue(serde_json::Value);

/// The document that a `serde_json::Value` holds.
pub uninterp spec fn value_tree(value: serde_json::Value) -> JsonTree;

/// What a `serde_json::Number` holds, where that is a `u64`.
pub uninterp spec fn held_count(number: serde_json::Number) -> Option<u64>;

/// What a `serde_json::Number` holds, where that is an `i64`.
pub uninterp spec fn held_integer(number: serde_json::Number) -> Option<i64>;

/// A number in the model.
pub open spec fn number_tree(number: Number) -> JsonTree {
    match held_count(number) {
        Some(count) => JsonTree::Count(count),
        None => match held_integer(number) {
            Some(integer) => JsonTree::Negative(integer),
            None => JsonTree::Number(number),
        },
    }
}

/// A signed integer in the model.
pub open spec fn integer_tree(integer: i64) -> JsonTree {
    if integer >= 0 {
        JsonTree::Count(integer as u64)
    } else {
        JsonTree::Negative(integer)
    }
}

impl Json {
    /// The model of the document.
    pub open spec fn tree(self) -> JsonTree
        decreases self,
    {
        match self {
            Json::Null => JsonTree::Null,
            Json::Bool(b) => JsonTree::Bool(b),
            Json::Count(n) => JsonTree::Count(n),
            Json::Integer(n) => integer_tree(n),
            Json::Number(n) => number_tree(n),
            Json::Text(s) => JsonTree::Text(s@),
            Json::Array(items) => JsonTree::Array(
                Seq::new(
                    items@.len(),
                    |i: int|
                        if 0 <= i < items@.len() {
                            items@[i].tree()
                        } else {
                            JsonTree::Null
                        },
                ),
            ),
            Json::Object(entries) => JsonTree::Object(
                Seq::new(
                    entries@.len(),
                    |i: int|
                        if 0 <= i < entries@.len() {
                            (entries@[i].0@, entries@[i].1.tree())
                        } else {
                            (Seq::empty(), JsonTree::Null)
                        },
                ),
            ),
        }
    }
}

impl View for Json {
    type V = JsonTree;

    open spec fn view(&self) -> JsonTree {
        self.tree()
    }
}

/// The model of a document that may be missing.
pub open spec fn document_view(document: Option<Json>) -> Option<JsonTree> {
    match document {
        Some(json) => Some(json@),
        None => None,
    }
}

/// One level of a `serde_json::Value`.
enum Node {
    Null,
    Bool(bool),
    Number(Number),
    Text(String),
    Array(Vec<Value>),
    Object(Vec<(String, Value)>),
}

/// The document that one level stands for.
spec fn node_tree(node: Node) -> JsonTree {
    match node {
        Node::Null => JsonTree::Null,
        Node::Bool(b) => JsonTree::Bool(b),
        Node::Number(n) => number_tree(n),
        Node::Text(s) => JsonTree::Text(s@),
        Node::Array(items) => JsonTree::Array(items@.map_values(|v: Value| value_tree(v))),
        Node::Object(entries) => JsonTree::Object(
            entries@.map_values(|e: (String, Value)| (e.0@, value_tree(e.1))),
        ),
    }
}

/// The keys stand in ascending order, so none occurs twice.
pub open spec fn ascending(entries: Seq<(Seq<char>, JsonTree)>) -> bool {
    forall|i: int, j: int|
        0 <= i < j < entries.len() ==> before(#[trigger] entries[i].0, #[trigger] entries[j].0)
}

impl JsonTree {
    /// In every object of the document the keys ascend.
    pub open spec fn well_formed(self) -> bool
        decreases self,
    {
        match self {
            JsonTree::Array(items) => forall|i: int|
                0 <= i < items.len() ==> (#[trigger] items[i]).well_formed(),
            JsonTree::Object(entries) => {
                &&& ascending(entries)
                &&& forall|i: int|
                    0 <= i < entries.len() ==> (#[trigger] entries[i]).1.well_formed()
            },
            _ => true,
        }
    }
}

/// Matching on a `serde_json::Value` gives its variant with the variant's
/// fields. A `serde_json::Map` without the feature `preserve_order` is a
/// `BTreeMap`, which hands out its entries in the order of their keys.
#[verifier::external_body]
fn open_value(value: Value) -> (node: Node)
    ensures
        node_tree(node) == value_tree(value),
        node_tree(node) matches JsonTree::Object(entries) ==> ascending(entries),
{
    match value {
        Value::Null => Node::Null,
        Value::Bool(b) => Node::Bool(b),
        Value::Number(n) => Node::Number(n),
        Value::String(s) => Node::Text(s),
        Value::Array(items) => Node::Array(items),
        Value::Object(map) => Node::Object(map.into_iter().collect()),
    }
}

/// `serde_json::Number::as_u64` returns the number where it is a `u64`.
#[verifier::external_body]
fn number_count(number: &Number) -> (count: Option<u64>)
    ensures
        count == held_count(*number),
{
    number.as_u64()
}

/// `serde_json::Number::as_i64` returns the number where it is an `i64`.
#[verifier::external_body]
fn number_integer(number: &Number) -> (integer: Option<i64>)
    ensures
        integer == held_integer(*number),
{
    number.as_i64()
}

/// The document that a `serde_json::Value` holds.
pub fn from_value(value: Value) -> (json: Json)
    ensures
        json@ == value_tree(value),
        json@.well_formed(),
    decreases value_tree(value),
{
    match open_value(value) {
        Node::Null => Json::Null,
        Node::Bool(b) => Json::Bool(b),
        Node::Number(n) => match number_count(&n) {
            Some(count) => Json::Count(count),
            None => match number_integer(&n) {
                Some(integer) if integer < 0 => Json::Integer(integer),
                _ => Json::Number(n),
            },
        },
        Node::Text(s) => Json::Text(s),
        Node::Array(values) => {
            let mut items: Vec<Json> = Vec::new();
            let ghost all = values@;
            for v in it: values.into_iter()
                invariant
                    it.seq() == all,
                    items@.len() == it.index(),
                    value_tree(value) == JsonTree::Array(all.map_values(|v: Value| value_tree(v))),
                    forall|j: int|
                        0 <= j < items@.len() ==> (#[trigger] items@[j])@ == value_tree(all[j])
                            && items@[j]@.well_formed(),
            {
                assert(all.map_values(|v: Value| value_tree(v))[it.index()] == value_tree(v));
                assert(decreases_to!(value_tree(value) => value_tree(value)->Array_0[it.index()]));
                items.push(from_value(v));
            }
            let json = Json::Array(items);
            assert(json@->Array_0 =~= value_tree(value)->Array_0);
            json
        },
        Node::Object(values) => {
            let mut entries: Vec<(String, Json)> = Vec::new();
            let ghost all = values@;
            for e in it: values.into_iter()
                invariant
                    it.seq() == all,
                    entries@.len() == it.index(),
                    value_tree(value) == JsonTree::Object(
                        all.map_values(|e: (String, Value)| (e.0@, value_tree(e.1))),
                    ),
                    forall|j: int|
                        0 <= j < entries@.len() ==> (#[trigger] entries@[j]).0@ == all[j].0@
                            && entries@[j].1@ == value_tree(all[j].1) && entries@[j].1@.well_formed(),
            {
                assert(all.map_values(|e: (String, Value)| (e.0@, value_tree(e.1)))[it.index()]
                    == (e.0@, value_tree(e.1)));
                assert(decreases_to!(value_tree(value) => value_tree(value)->Object_0[it.index()].1));
                entries.push((e.0, from_value(e.1)));
            }
            let json = Json::Object(entries);
            assert(json@->Object_0 =~= value_tree(value)->Object_0);
            json
        },
    }
}

/// `serde_json::Number` is `Clone` by derive: the copy is the same number.
#[verifier::external_body]
fn copy_number(number: &Number) -> (copy: Number)
    ensures
        copy == *number,
{
    number.clone()
}

impl Clone for Json {
    fn clone(&self) -> (copy: Self)
        ensures
            copy@ == self@,
        decreases *self,
    {
        match self {
            Json::Null => Json::Null,
            Json::Bool(b) => Json::Bool(*b),
            Json::Count(n) => Json::Count(*n),
            Json::Integer(n) => Json::Integer(*n),
            Json::Number(n) => Json::Number(copy_number(n)),
            Json::Text(s) => Json::Text(s.clone()),
            Json::Array(items) => {
                let mut copies: Vec<Json> = Vec::new();
                let mut i: usize = 0;
                while i < items.len()
                    invariant
                        *self == Json::Array(*items),
                        copies@.len() == i <= items@.len(),
                        forall|j: int| 0 <= j < i ==> (#[trigger] copies@[j])@ == items@[j]@,
                    decreases items@.len() - i,
                {
                    assert(decreases_to!(*self => self->Array_0));
                    copies.push(items[i].clone());
                    i += 1;
                }
                let copy = Json::Array(copies);
                assert(copy@->Array_0 =~= self@->Array_0);
                copy
            },
            Json::Object(entries) => {
                let mut copies: Vec<(String, Json)> = Vec::new();
                let mut i: usize = 0;
                while i < entries.len()
                    invariant
                        *self == Json::Object(*entries),
                        copies@.len() == i <= entries@.len(),
                        forall|j: int|
                            0 <= j < i ==> (#[trigger] copies@[j]).0@ == entries@[j].0@
                                && copies@[j].1@ == entries@[j].1@,
                    decreases entries@.len() - i,
                {
                    assert(decreases_to!(*self => self->Object_0));
                    copies.push((entries[i].0.clone(), entries[i].1.clone()));
                    i += 1;
                }
                let copy = Json::Object(copies);
                assert(copy@->Object_0 =~= self@->Object_0);
                copy
            },
        }
    }
}

/// Building a `serde_json::Value` from a variant gives a document that holds
/// the variant's fields. A `serde_json::Map` collected from entries with
/// ascending keys walks them in that order.
#[verifier::external_body]
fn close_value(node: Node) -> (value: Value)
    requires
        node_tree(node) matches JsonTree::Object(entries) ==> ascending(entries),
    ensures
        value_tree(value) == node_tree(node),
{
    match node {
        Node::Null => Value::Null,
        Node::Bool(b) => Value::Bool(b),
        Node::Number(n) => Value::Number(n),
        Node::Text(s) => Value::String(s),
        Node::Array(items) => Value::Array(items),
        Node::Object(entries) => Value::Object(entries.into_iter().collect()),
    }
}

/// `serde_json::Number` made from a `u64` is that number.
#[verifier::external_body]
fn number_from(count: u64) -> (number: Number)
    ensures
        held_count(number) == Some(count),
{
    Number::from(count)
}

/// `serde_json::Number` made from an `i64` is that number, which is a `u64` where
/// it is not negative.
#[verifier::external_body]
fn number_from_integer(integer: i64) -> (number: Number)
    ensures
        held_integer(number) == Some(integer),
        held_count(number) == if integer >= 0 {
            Some(integer as u64)
        } else {
            None
        },
{
    Number::from(integer)
}

/// The `serde_json::Value` that holds the document.
pub fn to_value(json: &Json) -> (value: Value)
    requires
        json@.well_formed(),
    ensures
        value_tree(value) == json@,
    decreases *json,
{
    match json {
        Json::Null => close_value(Node::Null),
        Json::Bool(b) => close_value(Node::Bool(*b)),
        Json::Count(n) => close_value(Node::Number(number_from(*n))),
        Json::Integer(n) => close_value(Node::Number(number_from_integer(*n))),
        Json::Number(n) => close_value(Node::Number(copy_number(n))),
        Json::Text(s) => close_value(Node::Text(s.clone())),
        Json::Array(items) => {
            let mut values: Vec<Value> = Vec::new();
            let mut i: usize = 0;
            while i < items.len()
                invariant
                    *json == Json::Array(*items),
                    json@.well_formed(),
                    values@.len() == i <= items@.len(),
                    forall|j: int|
                        0 <= j < i ==> value_tree(#[trigger] values@[j]) == items@[j]@,
                decreases items@.len() - i,
            {
                assert(json@->Array_0[i as int] == items@[i as int]@);
                values.push(to_value(&items[i]));
                i += 1;
            }
            let node = Node::Array(values);
            assert(node_tree(node)->Array_0 =~= json@->Array_0);
            close_value(node)
        },
        Json::Object(entries) => {
            let mut values: Vec<(String, Value)> = Vec::new();
            let mut i: usize = 0;
            while i < entries.len()
                invariant
                    *json == Json::Object(*entries),
                    json@.well_formed(),
                    values@.len() == i <= entries@.len(),
                    forall|j: int|
                        0 <= j < i ==> (#[trigger] values@[j]).0@ == entries@[j].0@ && value_tree(
                            values@[j].1,
                        ) == entries@[j].1@,
                decreases entries@.len() - i,
            {
                assert(json@->Object_0[i as int].1 == entries@[i as int].1@);
                values.push((entries[i].0.clone(), to_value(&entries[i].1)));
                i += 1;
            }
            let node = Node::Object(values);
            assert(node_tree(node)->Object_0 =~= json@->Object_0);
            close_value(node)
        },
    }
}

/// The document that `serde_json::from_str` reads from a text, if it is one.
pub uninterp spec fn json_parse(text: Seq<char>) -> Option<JsonTree>;

/// The document that `serde_json::from_slice` reads from bytes, if they are one.
pub uninterp spec fn json_parse_bytes(bytes: Seq<u8>) -> Option<JsonTree>;

/// The text that `serde_json::to_string` writes for a document.
pub uninterp spec fn json_print(tree: JsonTree) -> Seq<char>;

/// The key by which `serde_json`, where it is the first of an object, marks text
/// that it is to read as it stands.
pub open spec fn reserved_key() -> Seq<char> {
    "$serde_json::private::RawValue"@
}

/// The document nests arrays and objects at most `depth` deep, every number in it
/// is an integer, and no object in it starts with the reserved key.
pub open spec fn storable(tree: JsonTree, depth: nat) -> bool
    decreases tree,
{
    match tree {
        JsonTree::Number(_) => false,
        JsonTree::Array(items) => {
            &&& depth > 0
            &&& forall|i: int|
                0 <= i < items.len() ==> storable(#[trigger] items[i], (depth - 1) as nat)
        },
        JsonTree::Object(entries) => {
            &&& depth > 0
            &&& entries.len() > 0 ==> entries[0].0 != reserved_key()
            &&& forall|i: int|
                0 <= i < entries.len() ==> storable((#[trigger] entries[i]).1, (depth - 1) as nat)
        },
        _ => true,
    }
}

/// How deep a text may nest arrays and objects for `serde_json` to read it.
pub const MAX_DEPTH: u8 = 127;

/// `serde_json::from_str` reads one document from a text. What it reads is
/// named by [`json_parse`].
#[verifier::external_body]
fn read_text(text: &str) -> (value: Option<Value>)
    ensures
        match value {
            Some(v) => json_parse(text@) == Some(value_tree(v)),
            None => json_parse(text@) is None,
        },
{
    serde_json::from_str(text).ok()
}

/// `serde_json::from_slice` reads one document from bytes. What it reads is
/// named by [`json_parse_bytes`].
#[verifier::external_body]
fn read_bytes(bytes: &[u8]) -> (value: Option<Value>)
    ensures
        match value {
            Some(v) => json_parse_bytes(bytes@) == Some(value_tree(v)),
            None => json_parse_bytes(bytes@) is None,
        },
{
    serde_json::from_slice(bytes).ok()
}

/// `serde_json::to_string` writes a document, and writing a `Value` never
/// fails. What it writes is named by [`json_print`]. `serde_json::from_str`
/// reads the same document back where it nests no deeper than the reader
/// follows. This is not claimed of numbers other than integers of 64 bits,
/// because a fraction may be read back rounded, nor of objects whose first key is
/// the one that the feature `raw_value` gives another meaning there. A string is
/// written in double quotes.
#[verifier::external_body]
fn write_text(value: &Value) -> (text: Option<String>)
    ensures
        text is Some,
        text->0@ == json_print(value_tree(*value)),
        storable(value_tree(*value), MAX_DEPTH as nat) ==> json_parse(text->0@) == Some(
            value_tree(*value),
        ),
        value_tree(*value) is Text ==> quoted(text->0@),
{
    serde_json::to_string(value).ok()
}

/// Reads a document from a text.
pub fn parse(text: &str) -> (json: Option<Json>)
    ensures
        document_view(json) == json_parse(text@),
        json matches Some(j) ==> j@.well_formed(),
{
    match read_text(text) {
        Some(value) => Some(from_value(value)),
        None => None,
    }
}

/// Reads a document from bytes.
pub fn parse_bytes(bytes: &[u8]) -> (json: Option<Json>)
    ensures
        document_view(json) == json_parse_bytes(bytes@),
        json matches Some(j) ==> j@.well_formed(),
{
    match read_bytes(bytes) {
        Some(value) => Some(from_value(value)),
        None => None,
    }
}

/// Writes a document as text. A document that is [`storable`] is what [`parse`]
/// reads from that text. A string is written so that cleaning gives back what it
/// holds, whatever white space is put around it.
pub fn print(json: &Json) -> (text: Option<String>)
    requires
        json@.well_formed(),
    ensures
        text is Some,
        text->0@ == json_print(json@),
        storable(json@, MAX_DEPTH as nat) ==> json_parse(text->0@) == Some(json@),
        json@ matches JsonTree::Text(source) ==> cleans_to(text->0@, source),
{
    let text = write_text(&to_value(json));
    proof {
        if json@ is Text {
            law_cleaning_opens_json_string(text->0@);
        }
    }
    text
}

/// The value under `key`, if there is one.
pub open spec fn field(entries: Seq<(Seq<char>, JsonTree)>, key: Seq<char>) -> Option<JsonTree>
    decreases entries.len(),
{
    if entries.len() == 0 {
        None
    } else if entries[0].0 == key {
        Some(entries[0].1)
    } else {
        field(entries.drop_first(), key)
    }
}

/// The entries with `value` under `key`: in place of the value that stands
/// there, or before the first key that comes after `key`.
pub open spec fn with_field(
    entries: Seq<(Seq<char>, JsonTree)>,
    key: Seq<char>,
    value: JsonTree,
) -> Seq<(Seq<char>, JsonTree)>
    decreases entries.len(),
{
    if entries.len() == 0 {
        seq![(key, value)]
    } else if entries[0].0 == key {
        seq![(key, value)] + entries.drop_first()
    } else if before(key, entries[0].0) {
        seq![(key, value)] + entries
    } else {
        seq![entries[0]] + with_field(entries.drop_first(), key, value)
    }
}

/// The object that has been given the fields one after the other.
pub open spec fn object_of(fields: Seq<(Seq<char>, JsonTree)>) -> JsonTree
    decreases fields.len(),
{
    if fields.len() == 0 {
        JsonTree::Object(Seq::empty())
    } else {
        object_of(fields.drop_last()).set(fields.last().0, fields.last().1)
    }
}

impl JsonTree {
    /// The value under `key`, if the document is an object that has one.
    pub open spec fn get(self, key: Seq<char>) -> Option<JsonTree> {
        match self {
            JsonTree::Object(entries) => field(entries, key),
            _ => None,
        }
    }

    /// The document with `value` under `key`. It is an object, or null, which
    /// then becomes one.
    pub open spec fn set(self, key: Seq<char>, value: JsonTree) -> JsonTree
        recommends
            self is Object || self is Null,
    {
        match self {
            JsonTree::Object(entries) => JsonTree::Object(with_field(entries, key, value)),
            _ => JsonTree::Object(seq![(key, value)]),
        }
    }

    /// The text that the document consists of, if it is one.
    pub open spec fn as_text(self) -> Option<Seq<char>> {
        match self {
            JsonTree::Text(s) => Some(s),
            _ => None,
        }
    }

    /// The text under `key`, if there is one.
    pub open spec fn get_text(self, key: Seq<char>) -> Option<Seq<char>> {
        match self.get(key) {
            Some(value) => value.as_text(),
            None => None,
        }
    }
}

/// Puts `value` under `key` among the entries of an object.
fn put_entry(entries: &mut Vec<(String, Json)>, key: &str, value: Json)
    ensures
        Json::Object(*final(entries))@ == Json::Object(*old(entries))@.set(key@, value@),
{
    let ghost all = Json::Object(*entries)@->Object_0;
    let ghost done = with_field(all, key@, value@);
    let mut i: usize = 0;
    assert(all.skip(0) =~= all);
    assert(all.take(0) + done =~= done);
    while i < entries.len()
        invariant
            i <= entries@.len(),
            *entries == *old(entries),
            all == Json::Object(*entries)@->Object_0,
            done == with_field(all, key@, value@),
            done == all.take(i as int) + with_field(all.skip(i as int), key@, value@),
        decreases entries@.len() - i,
    {
        let ghost rest = all.skip(i as int);
        assert(rest[0] == (entries@[i as int].0@, entries@[i as int].1@));
        assert(rest.drop_first() =~= all.skip(i + 1));
        let name = entries[i].0.as_str();
        if same_text(name, key) {
            entries.set(i, (key.to_owned(), value));
            assert(Json::Object(*entries)@->Object_0 =~= done);
            return;
        }
        if comes_before(key, name) {
            entries.insert(i, (key.to_owned(), value));
            assert(Json::Object(*entries)@->Object_0 =~= done);
            return;
        }
        assert(all.take(i + 1) =~= all.take(i as int) + seq![rest[0]]);
        assert(done =~= all.take(i + 1) + with_field(all.skip(i + 1), key@, value@));
        i += 1;
    }
    entries.push((key.to_owned(), value));
    assert(Json::Object(*entries)@->Object_0 =~= done);
}

impl Json {
    /// The value under `key`, if the document is an object that has one.
    pub fn get(&self, key: &str) -> (value: Option<&Json>)
        ensures
            match value {
                Some(v) => self@.get(key@) == Some(v@),
                None => self@.get(key@) is None,
            },
    {
        match self {
            Json::Object(entries) => {
                let ghost all = self@->Object_0;
                let mut i: usize = 0;
                assert(all.skip(0) =~= all);
                while i < entries.len()
                    invariant
                        i <= entries@.len(),
                        *self == Json::Object(*entries),
                        all == self@->Object_0,
                        field(all, key@) == field(all.skip(i as int), key@),
                    decreases entries@.len() - i,
                {
                    assert(all.skip(i as int)[0] == (entries@[i as int].0@, entries@[i as int].1@));
                    if same_text(entries[i].0.as_str(), key) {
                        return Some(&entries[i].1);
                    }
                    assert(all.skip(i as int).drop_first() =~= all.skip(i + 1));
                    i += 1;
                }
                None
            },
            _ => None,
        }
    }

    /// The text that the document consists of, if it is one.
    pub fn as_text(&self) -> (text: Option<String>)
        ensures
            text_view(text) == self@.as_text(),
    {
        match self {
            Json::Text(s) => Some(s.clone()),
            _ => None,
        }
    }

    /// The text under `key`, if there is one.
    pub fn get_text(&self, key: &str) -> (text: Option<String>)
        ensures
            text_view(text) == self@.get_text(key@),
    {
        match self.get(key) {
            Some(value) => value.as_text(),
            None => None,
        }
    }

    /// Puts `value` under `key`.
    pub fn set(&mut self, key: &str, value: Json)
        requires
            old(self)@ is Object || old(self)@ is Null,
        ensures
            final(self)@ == old(self)@.set(key@, value@),
    {
        if let Json::Object(entries) = self {
            put_entry(entries, key, value);
        } else {
            let mut entries: Vec<(String, Json)> = Vec::new();
            entries.push((key.to_owned(), value));
            *self = Json::Object(entries);
            assert(self@->Object_0 =~= seq![(key@, value@)]);
        }
    }
}

proof fn lemma_with_field_get(
    entries: Seq<(Seq<char>, JsonTree)>,
    key: Seq<char>,
    value: JsonTree,
    other: Seq<char>,
)
    ensures
        field(with_field(entries, key, value), other) == if other == key {
            Some(value)
        } else {
            field(entries, other)
        },
    decreases entries.len(),
{
    let done = with_field(entries, key, value);
    if entries.len() == 0 {
        assert(done.drop_first() =~= entries);
    } else if entries[0].0 == key {
        assert(done.drop_first() =~= entries.drop_first());
    } else if before(key, entries[0].0) {
        assert(done.drop_first() =~= entries);
    } else {
        lemma_with_field_get(entries.drop_first(), key, value, other);
        assert(done.drop_first() =~= with_field(entries.drop_first(), key, value));
    }
}

/// Every entry of [`with_field`] is the new one or one that was there.
proof fn lemma_with_field_from(
    entries: Seq<(Seq<char>, JsonTree)>,
    key: Seq<char>,
    value: JsonTree,
    i: int,
)
    requires
        0 <= i < with_field(entries, key, value).len(),
    ensures
        with_field(entries, key, value)[i] == (key, value) || exists|j: int|
            0 <= j < entries.len() && with_field(entries, key, value)[i] == entries[j],
    decreases entries.len(),
{
    let done = with_field(entries, key, value);
    if entries.len() == 0 {
    } else if entries[0].0 == key {
        if i > 0 {
            assert(done[i] == entries[i]);
        }
    } else if before(key, entries[0].0) {
        if i > 0 {
            assert(done[i] == entries[i - 1]);
        }
    } else if i > 0 {
        let rest = entries.drop_first();
        lemma_with_field_from(rest, key, value, i - 1);
        assert(done[i] == with_field(rest, key, value)[i - 1]);
        if done[i] != (key, value) {
            let j = choose|j: int|
                0 <= j < rest.len() && with_field(rest, key, value)[i - 1] == rest[j];
            assert(done[i] == entries[j + 1]);
        }
    }
}

proof fn lemma_with_field_ascending(
    entries: Seq<(Seq<char>, JsonTree)>,
    key: Seq<char>,
    value: JsonTree,
)
    requires
        ascending(entries),
    ensures
        ascending(with_field(entries, key, value)),
    decreases entries.len(),
{
    let done = with_field(entries, key, value);
    if entries.len() == 0 {
    } else if entries[0].0 == key {
        assert forall|i: int, j: int| 0 <= i < j < done.len() implies before(
            #[trigger] done[i].0,
            #[trigger] done[j].0,
        ) by {
            assert(done[i].0 == entries[i].0);
            assert(done[j].0 == entries[j].0);
        }
    } else if before(key, entries[0].0) {
        assert forall|i: int, j: int| 0 <= i < j < done.len() implies before(
            #[trigger] done[i].0,
            #[trigger] done[j].0,
        ) by {
            assert(done[j].0 == entries[j - 1].0);
            if i > 0 {
                assert(done[i].0 == entries[i - 1].0);
            } else if j > 1 {
                lemma_before_transitive(key, entries[0].0, entries[j - 1].0);
            }
        }
    } else {
        let rest = entries.drop_first();
        assert forall|i: int, j: int| 0 <= i < j < rest.len() implies before(
            #[trigger] rest[i].0,
            #[trigger] rest[j].0,
        ) by {
            assert(rest[i] == entries[i + 1]);
            assert(rest[j] == entries[j + 1]);
        }
        lemma_with_field_ascending(rest, key, value);
        lemma_before_total(key, entries[0].0);
        assert forall|i: int, j: int| 0 <= i < j < done.len() implies before(
            #[trigger] done[i].0,
            #[trigger] done[j].0,
        ) by {
            let tail = with_field(rest, key, value);
            assert(done[j] == tail[j - 1]);
            if i > 0 {
                assert(done[i] == tail[i - 1]);
            } else {
                lemma_with_field_from(rest, key, value, j - 1);
                if tail[j - 1] != (key, value) {
                    let k = choose|k: int| 0 <= k < rest.len() && tail[j - 1] == rest[k];
                    assert(rest[k] == entries[k + 1]);
                }
            }
        }
    }
}

/// What has been put under a key is found there.
pub proof fn law_get_after_set(tree: JsonTree, key: Seq<char>, value: JsonTree)
    requires
        tree is Object || tree is Null,
    ensures
        tree.set(key, value).get(key) == Some(value),
{
    match tree {
        JsonTree::Object(entries) => lemma_with_field_get(entries, key, value, key),
        _ => {},
    }
}

/// In an object whose keys ascend, each value is found under its key.
pub proof fn law_get_finds_each_entry(entries: Seq<(Seq<char>, JsonTree)>, i: int)
    requires
        ascending(entries),
        0 <= i < entries.len(),
    ensures
        JsonTree::Object(entries).get(entries[i].0) == Some(entries[i].1),
    decreases entries.len(),
{
    if i > 0 {
        assert(before(entries[0].0, entries[i].0));
        lemma_before_irreflexive(entries[0].0);
        lemma_ascending_rest(entries);
        assert(entries.drop_first()[i - 1] == entries[i]);
        law_get_finds_each_entry(entries.drop_first(), i - 1);
    }
}

/// What is found under a key is the value of an entry with that key, so nothing
/// is found under other keys, nor in what is no object.
pub proof fn law_get_finds_only_entries(tree: JsonTree, key: Seq<char>)
    ensures
        tree.get(key) matches Some(value) ==> tree is Object && tree->Object_0.contains(
            (key, value),
        ),
    decreases tree->Object_0.len(),
{
    if let JsonTree::Object(entries) = tree {
        if entries.len() > 0 && entries[0].0 != key {
            let rest = entries.drop_first();
            law_get_finds_only_entries(JsonTree::Object(rest), key);
            if let Some(value) = tree.get(key) {
                let i = choose|i: int| 0 <= i < rest.len() && rest[i] == (key, value);
                assert(entries[i + 1] == (key, value));
            }
        } else if entries.len() > 0 {
            assert(entries[0] == (key, entries[0].1));
        }
    }
}

/// A text is found under a key exactly where the value under that key is a text,
/// and it is that text, be it empty.
pub proof fn law_get_text_finds_texts(tree: JsonTree, key: Seq<char>, text: Seq<char>)
    ensures
        tree.get_text(key) == Some(text) <==> tree.get(key) == Some(JsonTree::Text(text)),
        tree.as_text() == Some(text) <==> tree == JsonTree::Text(text),
{
}

/// Putting a value under a key leaves the values under all other keys alone.
pub proof fn law_set_keeps_other_keys(
    tree: JsonTree,
    key: Seq<char>,
    value: JsonTree,
    other: Seq<char>,
)
    requires
        tree is Object || tree is Null,
        other != key,
    ensures
        tree.set(key, value).get(other) == tree.get(other),
{
    match tree {
        JsonTree::Object(entries) => lemma_with_field_get(entries, key, value, other),
        _ => lemma_with_field_get(Seq::empty(), key, value, other),
    }
}

/// Putting a value under a key keeps the keys in ascending order.
pub proof fn law_set_keeps_well_formed(tree: JsonTree, key: Seq<char>, value: JsonTree)
    requires
        tree is Object || tree is Null,
        tree.well_formed(),
        value.well_formed(),
    ensures
        tree.set(key, value).well_formed(),
{
    match tree {
        JsonTree::Object(entries) => {
            lemma_with_field_ascending(entries, key, value);
            let done = with_field(entries, key, value);
            assert forall|i: int| 0 <= i < done.len() implies (#[trigger] done[i]).1.well_formed() by {
                lemma_with_field_from(entries, key, value, i);
            }
        },
        _ => {},
    }
}

/// A key that comes before the first key of an object is not among its keys.
proof fn lemma_field_absent(entries: Seq<(Seq<char>, JsonTree)>, key: Seq<char>)
    requires
        ascending(entries),
        entries.len() > 0 ==> before(key, entries[0].0),
    ensures
        field(entries, key) is None,
    decreases entries.len(),
{
    if entries.len() > 0 {
        lemma_before_irreflexive(key);
        let rest = entries.drop_first();
        lemma_ascending_rest(entries);
        if rest.len() > 0 {
            assert(rest[0] == entries[1]);
            lemma_before_transitive(key, entries[0].0, entries[1].0);
        }
        lemma_field_absent(rest, key);
    }
}

proof fn lemma_ascending_rest(entries: Seq<(Seq<char>, JsonTree)>)
    requires
        ascending(entries),
        entries.len() > 0,
    ensures
        ascending(entries.drop_first()),
{
    let rest = entries.drop_first();
    assert forall|i: int, j: int| 0 <= i < j < rest.len() implies before(
        #[trigger] rest[i].0,
        #[trigger] rest[j].0,
    ) by {
        assert(rest[i] == entries[i + 1]);
        assert(rest[j] == entries[j + 1]);
    }
}

/// Two lists of entries with ascending keys that have the same value under
/// every key are the same list.
pub proof fn law_fields_determine_entries(
    a: Seq<(Seq<char>, JsonTree)>,
    b: Seq<(Seq<char>, JsonTree)>,
)
    requires
        ascending(a),
        ascending(b),
        forall|key: Seq<char>| field(a, key) == field(b, key),
    ensures
        a == b,
    decreases a.len(),
{
    if a.len() == 0 {
        if b.len() > 0 {
            assert(field(a, b[0].0) == field(b, b[0].0));
        }
        assert(a =~= b);
    } else {
        assert(field(a, a[0].0) == field(b, a[0].0));
        assert(b.len() > 0);
        assert(field(a, b[0].0) == field(b, b[0].0));
        lemma_before_total(a[0].0, b[0].0);
        if before(a[0].0, b[0].0) {
            lemma_field_absent(b, a[0].0);
        }
        if before(b[0].0, a[0].0) {
            lemma_field_absent(a, b[0].0);
        }
        let key = a[0].0;
        assert(a[0] == b[0]);
        let x = a.drop_first();
        let y = b.drop_first();
        lemma_ascending_rest(a);
        lemma_ascending_rest(b);
        assert forall|other: Seq<char>| field(x, other) == field(y, other) by {
            assert(field(a, other) == field(b, other));
            if other == key {
                if x.len() > 0 {
                    assert(x[0] == a[1]);
                }
                if y.len() > 0 {
                    assert(y[0] == b[1]);
                }
                lemma_field_absent(x, key);
                lemma_field_absent(y, key);
            }
        }
        law_fields_determine_entries(x, y);
        assert(a =~= seq![a[0]] + x);
        assert(b =~= seq![b[0]] + y);
    }
}

/// The fields of a list, by their models.
pub open spec fn field_views(fields: Seq<(&str, Json)>) -> Seq<(Seq<char>, JsonTree)> {
    fields.map_values(|f: (&str, Json)| (f.0@, f.1@))
}

/// An object made of fields has its keys in ascending order.
pub proof fn lemma_object_of_ascending(fields: Seq<(Seq<char>, JsonTree)>)
    ensures
        object_of(fields) matches JsonTree::Object(entries) && ascending(entries),
    decreases fields.len(),
{
    if fields.len() > 0 {
        lemma_object_of_ascending(fields.drop_last());
        lemma_with_field_ascending(
            object_of(fields.drop_last())->Object_0,
            fields.last().0,
            fields.last().1,
        );
    }
}

/// An object made of well-formed fields is well-formed.
pub proof fn law_object_of_well_formed(fields: Seq<(Seq<char>, JsonTree)>)
    requires
        forall|i: int| 0 <= i < fields.len() ==> (#[trigger] fields[i]).1.well_formed(),
    ensures
        object_of(fields) is Object,
        object_of(fields).well_formed(),
    decreases fields.len(),
{
    if fields.len() > 0 {
        let rest = fields.drop_last();
        assert forall|i: int| 0 <= i < rest.len() implies (#[trigger] rest[i]).1.well_formed() by {
            assert(rest[i] == fields[i]);
        }
        law_object_of_well_formed(rest);
        law_set_keeps_well_formed(object_of(rest), fields.last().0, fields.last().1);
    }
}

/// In an object made of fields, each field is found under its key, unless a later
/// field has the same key.
pub proof fn law_object_of_has_fields(fields: Seq<(Seq<char>, JsonTree)>, i: int)
    requires
        0 <= i < fields.len(),
        forall|j: int| i < j < fields.len() ==> fields[i].0 != (#[trigger] fields[j]).0,
    ensures
        object_of(fields).get(fields[i].0) == Some(fields[i].1),
    decreases fields.len(),
{
    let rest = fields.drop_last();
    lemma_object_of_ascending(rest);
    if i == fields.len() - 1 {
        law_get_after_set(object_of(rest), fields.last().0, fields.last().1);
    } else {
        assert forall|j: int| i < j < rest.len() implies rest[i].0 != (#[trigger] rest[j]).0 by {
            assert(rest[j] == fields[j]);
        }
        law_object_of_has_fields(rest, i);
        law_set_keeps_other_keys(object_of(rest), fields.last().0, fields.last().1, fields[i].0);
    }
}

/// An object made of fields has nothing under a key that none of them has.
pub proof fn law_object_of_has_no_more(fields: Seq<(Seq<char>, JsonTree)>, key: Seq<char>)
    requires
        forall|i: int| 0 <= i < fields.len() ==> fields[i].0 != key,
    ensures
        object_of(fields).get(key) is None,
    decreases fields.len(),
{
    if fields.len() > 0 {
        let rest = fields.drop_last();
        assert forall|i: int| 0 <= i < rest.len() implies rest[i].0 != key by {
            assert(rest[i] == fields[i]);
        }
        law_object_of_has_no_more(rest, key);
        lemma_object_of_ascending(rest);
        law_set_keeps_other_keys(object_of(rest), fields.last().0, fields.last().1, key);
    }
}

/// A document that nests no deeper than one bound nests no deeper than a higher
/// one.
pub proof fn lemma_storable_deeper(tree: JsonTree, depth: nat, deeper: nat)
    requires
        storable(tree, depth),
        depth <= deeper,
    ensures
        storable(tree, deeper),
    decreases tree,
{
    match tree {
        JsonTree::Array(items) => {
            assert forall|i: int| 0 <= i < items.len() implies storable(
                #[trigger] items[i],
                (deeper - 1) as nat,
            ) by {
                lemma_storable_deeper(items[i], (depth - 1) as nat, (deeper - 1) as nat);
            }
        },
        JsonTree::Object(entries) => {
            assert forall|i: int| 0 <= i < entries.len() implies storable(
                (#[trigger] entries[i]).1,
                (deeper - 1) as nat,
            ) by {
                lemma_storable_deeper(entries[i].1, (depth - 1) as nat, (deeper - 1) as nat);
            }
        },
        _ => {},
    }
}

/// The least of the keys is not the reserved one: none is, or one comes before
/// it.
pub open spec fn least_key_is_free(fields: Seq<(Seq<char>, JsonTree)>) -> bool {
    ||| forall|i: int| 0 <= i < fields.len() ==> (#[trigger] fields[i]).0 != reserved_key()
    ||| exists|i: int| 0 <= i < fields.len() && before((#[trigger] fields[i]).0, reserved_key())
}

/// Every entry of an object made of fields is one of the fields.
proof fn lemma_object_of_from(fields: Seq<(Seq<char>, JsonTree)>, j: int)
    requires
        0 <= j < object_of(fields)->Object_0.len(),
    ensures
        exists|i: int| 0 <= i < fields.len() && object_of(fields)->Object_0[j] == fields[i],
    decreases fields.len(),
{
    if fields.len() > 0 {
        let rest = fields.drop_last();
        lemma_object_of_ascending(rest);
        let entries = object_of(rest)->Object_0;
        let entry = object_of(fields)->Object_0[j];
        lemma_with_field_from(entries, fields.last().0, fields.last().1, j);
        if entry == fields.last() {
            assert(entry == fields[fields.len() - 1]);
        } else {
            let k = choose|k: int| 0 <= k < entries.len() && entry == entries[k];
            lemma_object_of_from(rest, k);
            let i = choose|i: int| 0 <= i < rest.len() && entries[k] == rest[i];
            assert(entry == fields[i]);
        }
    }
}

/// An object made of fields has something under the key of each.
proof fn lemma_object_of_has_key(fields: Seq<(Seq<char>, JsonTree)>, i: int)
    requires
        0 <= i < fields.len(),
    ensures
        object_of(fields).get(fields[i].0) is Some,
    decreases fields.len(),
{
    let rest = fields.drop_last();
    lemma_object_of_ascending(rest);
    let key = fields.last().0;
    if fields[i].0 == key {
        law_get_after_set(object_of(rest), key, fields.last().1);
    } else {
        lemma_object_of_has_key(rest, i);
        law_set_keeps_other_keys(object_of(rest), key, fields.last().1, fields[i].0);
    }
}

/// An object made of fields starts with a key that is not reserved, if the least
/// key of the fields is not.
proof fn lemma_object_of_starts_free(fields: Seq<(Seq<char>, JsonTree)>)
    requires
        least_key_is_free(fields),
    ensures
        object_of(fields)->Object_0.len() > 0 ==> object_of(fields)->Object_0[0].0
            != reserved_key(),
{
    lemma_object_of_ascending(fields);
    let entries = object_of(fields)->Object_0;
    if entries.len() > 0 {
        lemma_object_of_from(fields, 0);
        if exists|i: int| 0 <= i < fields.len() && before((#[trigger] fields[i]).0, reserved_key()) {
            let i = choose|i: int|
                0 <= i < fields.len() && before((#[trigger] fields[i]).0, reserved_key());
            lemma_object_of_has_key(fields, i);
            if entries[0].0 == reserved_key() {
                lemma_field_absent(entries, fields[i].0);
            }
        }
    }
}

/// An object made of storable fields, the least key of which is not reserved, is
/// storable, one level deeper.
pub proof fn lemma_object_of_storable(fields: Seq<(Seq<char>, JsonTree)>, depth: nat)
    requires
        depth > 0,
        least_key_is_free(fields),
        forall|i: int|
            0 <= i < fields.len() ==> storable((#[trigger] fields[i]).1, (depth - 1) as nat),
    ensures
        storable(object_of(fields), depth),
{
    lemma_object_of_ascending(fields);
    lemma_object_of_starts_free(fields);
    let entries = object_of(fields)->Object_0;
    assert forall|j: int| 0 <= j < entries.len() implies storable(
        (#[trigger] entries[j]).1,
        (depth - 1) as nat,
    ) by {
        lemma_object_of_from(fields, j);
    }
}

/// Makes an object of fields.
pub fn object(fields: Vec<(&str, Json)>) -> (json: Json)
    ensures
        json@ == object_of(field_views(fields@)),
{
    let mut json = Json::Object(Vec::new());
    let ghost all = field_views(fields@);
    let ghost given = fields@;
    assert(json@->Object_0 =~= Seq::empty());
    assert(all.take(0) =~= Seq::empty());
    for f in it: fields.into_iter()
        invariant
            it.seq() == given,
            all == field_views(given),
            json@ == object_of(all.take(it.index())),
            json@ is Object,
    {
        assert(all.take(it.index() + 1).drop_last() =~= all.take(it.index()));
        assert(all.take(it.index() + 1).last() == (f.0@, f.1@));
        json.set(f.0, f.1);
    }
    assert(all.take(all.len() as int) =~= all);
    json
}

/// The model of a document has what the document has, at the same place. A signed
/// integer that is not negative is a count.
pub proof fn law_json_view(json: Json)
    ensures
        match json {
            Json::Null => json@ == JsonTree::Null,
            Json::Bool(b) => json@ == JsonTree::Bool(b),
            Json::Count(n) => json@ == JsonTree::Count(n),
            Json::Integer(n) => json@ == if n < 0 {
                JsonTree::Negative(n)
            } else {
                JsonTree::Count(n as u64)
            },
            Json::Number(n) => json@ == number_tree(n),
            Json::Text(s) => json@ == JsonTree::Text(s@),
            Json::Array(items) => {
                &&& json@ is Array
                &&& json@->Array_0.len() == items@.len()
                &&& forall|i: int|
                    0 <= i < items@.len() ==> #[trigger] json@->Array_0[i] == items@[i]@
            },
            Json::Object(entries) => {
                &&& json@ is Object
                &&& json@->Object_0.len() == entries@.len()
                &&& forall|i: int|
                    0 <= i < entries@.len() ==> #[trigger] json@->Object_0[i] == (
                        entries@[i].0@,
                        entries@[i].1@,
                    )
            },
        },
{
}

/// A number is a count where it is a `u64`, a negative integer where it is only an
/// `i64`, and itself otherwise.
pub proof fn law_number_tree(number: Number)
    ensures
        held_count(number) matches Some(count) ==> number_tree(number) == JsonTree::Count(count),
        held_count(number) is None ==> (held_integer(number) matches Some(integer) ==> number_tree(
            number,
        ) == JsonTree::Negative(integer)),
        held_count(number) is None && held_integer(number) is None ==> number_tree(number)
            == JsonTree::Number(number),
{
}

/// A document that may be missing is missing in the model exactly where it is
/// missing, and a list of fields is, field by field, that of their models.
pub proof fn law_document_and_field_views(document: Option<Json>, fields: Seq<(&str, Json)>)
    ensures
        document is Some <==> document_view(document) is Some,
        document matches Some(json) ==> document_view(document) == Some(json@),
        field_views(fields).len() == fields.len(),
        forall|i: int|
            0 <= i < fields.len() ==> #[trigger] field_views(fields)[i] == (
                fields[i].0@,
                fields[i].1@,
            ),
{
}

} // verus!
