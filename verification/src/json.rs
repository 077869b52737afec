//! JSON documents as the configurations of models use them.

use crate::text;
use vstd::prelude::*;

verus! {

/// A JSON number, read in the three ways that a configuration may ask for.
#[derive(Debug, Clone, Copy, PartialEq, Eq, Structural)]
pub struct JsonNumber {
    /// The number, where it is written without fraction and sign and fits.
    pub unsigned: Option<u64>,
    /// The number, where it is written without fraction and fits.
    pub signed: Option<i64>,
    /// The bit pattern of the double nearest to the number.
    pub double: u64,
}

/// A JSON document. The entries of an object stand in the order in which they
/// are walked.
#[derive(Debug)]
pub enum Json {
    Null,
    Bool(bool),
    Number(JsonNumber),
    Text(String),
    Array(Vec<Json>),
    Object(Vec<(String, Json)>),
}

/// A JSON document with its texts and lists as sequences.
#[verifier::ext_equal]
pub enum JsonTree {
    Null,
    Bool(bool),
    Number(JsonNumber),
    Text(Seq<char>),
    Array(Seq<JsonTree>),
    Object(Seq<(Seq<char>, JsonTree)>),
}

/// The value of the first entry with a key, and null where there is none.
pub open spec fn lookup(entries: Seq<(Seq<char>, JsonTree)>, key: Seq<char>) -> JsonTree
    decreases entries.len(),
{
    if entries.len() == 0 {
        JsonTree::Null
    } else if entries[0].0 == key {
        entries[0].1
    } else {
        lookup(entries.drop_first(), key)
    }
}

impl JsonTree {
    /// The entry of an object; null for a missing one and for what is no object.
    pub open spec fn at(self, key: Seq<char>) -> JsonTree {
        match self {
            JsonTree::Object(entries) => lookup(entries, key),
            _ => JsonTree::Null,
        }
    }

    pub open spec fn as_bool(self) -> Option<bool> {
        match self {
            JsonTree::Bool(value) => Some(value),
            _ => None,
        }
    }

    pub open spec fn as_unsigned(self) -> Option<u64> {
        match self {
            JsonTree::Number(number) => number.unsigned,
            _ => None,
        }
    }

    pub open spec fn as_double(self) -> Option<u64> {
        match self {
            JsonTree::Number(number) => Some(number.double),
            _ => None,
        }
    }

    pub open spec fn as_text(self) -> Option<Seq<char>> {
        match self {
            JsonTree::Text(text) => Some(text),
            _ => None,
        }
    }

    pub open spec fn as_array(self) -> Option<Seq<JsonTree>> {
        match self {
            JsonTree::Array(items) => Some(items),
            _ => None,
        }
    }
}

impl Json {
    /// The document as a tree.
    pub open spec fn tree(self) -> JsonTree
        decreases self,
    {
        match self {
            Json::Null => JsonTree::Null,
            Json::Bool(value) => JsonTree::Bool(value),
            Json::Number(number) => JsonTree::Number(number),
            Json::Text(text) => JsonTree::Text(text@),
            Json::Array(items) => JsonTree::Array(
                Seq::new(
                    items@.len(),
                    |i: int|
                        if 0 <= i < items@.len() {
                            items@[i].tree()
                        } else {
                            JsonTree::Null
                        },
                ),
            ),
            Json::Object(entries) => JsonTree::Object(
                Seq::new(
                    entries@.len(),
                    |i: int|
                        if 0 <= i < entries@.len() {
                            (entries@[i].0@, entries@[i].1.tree())
                        } else {
                            (Seq::empty(), JsonTree::Null)
                        },
                ),
            ),
        }
    }

    /// The entry of an object, where it has one with this key.
    pub fn at(&self, key: &str) -> (entry: Option<&Json>)
        ensures
            match entry {
                Some(value) => value@ == self@.at(key@),
                None => self@.at(key@) == JsonTree::Null,
            },
    {
        match self {
            Json::Object(entries) => {
                let mut i: usize = 0;
                proof {
                    assert(self@->Object_0.skip(0) =~= self@->Object_0);
                }
                while i < entries.len()
                    invariant
                        i <= entries@.len(),
                        *self == Json::Object(*entries),
                        self@->Object_0.len() == entries@.len(),
                        self@.at(key@) == lookup(self@->Object_0.skip(i as int), key@),
                    decreases entries@.len() - i,
                {
                    let ghost all = self@->Object_0;
                    assert(all.skip(i as int)[0] == all[i as int]);
                    assert(all.skip(i as int).drop_first() =~= all.skip(i + 1));
                    if text::same_text(entries[i].0.as_str(), key) {
                        return Some(&entries[i].1);
                    }
                    i = i + 1;
                }
                None
            },
            _ => None,
        }
    }

    pub fn bool_at(&self, key: &str) -> (value: Option<bool>)
        ensures
            value == self@.at(key@).as_bool(),
    {
        match self.at(key) {
            Some(Json::Bool(value)) => Some(*value),
            _ => None,
        }
    }

    pub fn unsigned_at(&self, key: &str) -> (value: Option<u64>)
        ensures
            value == self@.at(key@).as_unsigned(),
    {
        match self.at(key) {
            Some(Json::Number(number)) => number.unsigned,
            _ => None,
        }
    }

    pub fn double_at(&self, key: &str) -> (value: Option<u64>)
        ensures
            value == self@.at(key@).as_double(),
    {
        match self.at(key) {
            Some(Json::Number(number)) => Some(number.double),
            _ => None,
        }
    }

    pub fn text_at(&self, key: &str) -> (value: Option<&String>)
        ensures
            match value {
                Some(text) => self@.at(key@).as_text() == Some(text@),
                None => self@.at(key@).as_text() is None,
            },
    {
        match self.at(key) {
            Some(Json::Text(text)) => Some(text),
            _ => None,
        }
    }

    pub fn array_at(&self, key: &str) -> (value: Option<&Vec<Json>>)
        ensures
            match value {
                Some(items) => {
                    &&& self@.at(key@) is Array
                    &&& self@.at(key@)->Array_0.len() == items@.len()
                    &&& forall|i: int|
                        0 <= i < items@.len() ==> self@.at(key@)->Array_0[i]
                            == #[trigger] items@[i]@
                },
                None => !(self@.at(key@) is Array),
            },
    {
        match self.at(key) {
            Some(Json::Array(items)) => Some(items),
            _ => None,
        }
    }

    /// Whether the entry with this key is true.
    pub fn is_true_at(&self, key: &str) -> (same: bool)
        ensures
            same == (self@.at(key@) == JsonTree::Bool(true)),
    {
        match self.bool_at(key) {
            Some(value) => value,
            None => false,
        }
    }

    /// Whether the entry with this key is this text.
    pub fn is_text_at(&self, key: &str, text: &str) -> (same: bool)
        ensures
            same == (self@.at(key@) == JsonTree::Text(text@)),
    {
        match self.text_at(key) {
            Some(found) => text::same_text(found.as_str(), text),
            None => false,
        }
    }
}

impl View for Json {
    type V = JsonTree;

    open spec fn view(&self) -> JsonTree {
        self.tree()
    }
}

#[verifier::external_type_specification]
#[verifier::external_body]
pub struct ExValue(serde_json::Value);

/// The document that a `serde_json::Value` holds.
pub uninterp spec fn json_of(value: serde_json::Value) -> JsonTree;

/// What `serde_json::from_slice` makes of a text: the document, or what its
/// error says.
pub uninterp spec fn json_text(bytes: Seq<u8>) -> Result<JsonTree, Seq<char>>;

/// How the `Debug` impl of `serde_json::Value` renders a document.
pub uninterp spec fn json_debug(tree: JsonTree) -> Seq<char>;

/// One level of a `serde_json::Value`.
enum Level<'a> {
    Null,
    Bool(bool),
    Number(JsonNumber),
    Text(&'a String),
    Array(&'a Vec<serde_json::Value>),
    Object(Vec<(&'a String, &'a serde_json::Value)>),
}

impl<'a> Level<'a> {
    spec fn tree(self) -> JsonTree {
        match self {
            Level::Null => JsonTree::Null,
            Level::Bool(value) => JsonTree::Bool(value),
            Level::Number(number) => JsonTree::Number(number),
            Level::Text(text) => JsonTree::Text(text@),
            Level::Array(items) => JsonTree::Array(
                items@.map_values(|item: serde_json::Value| json_of(item)),
            ),
            Level::Object(entries) => JsonTree::Object(
                entries@.map_values(
                    |entry: (&String, &serde_json::Value)| (entry.0@, json_of(*entry.1)),
                ),
            ),
        }
    }
}

/// The variants of `serde_json::Value`, with the readings `as_u64`, `as_i64` and
/// `as_f64` of a `serde_json::Number` and the entries of a `serde_json::Map` in
/// the order of its `iter`: together they are the document that the value
/// holds.
#[verifier::external_body]
fn open_value(value: &serde_json::Value) -> (level: Level<'_>)
    ensures
        level.tree() == json_of(*value),
{
    match value {
        serde_json::Value::Null => Level::Null,
        serde_json::Value::Bool(value) => Level::Bool(*value),
        serde_json::Value::Number(n) => Level::Number(JsonNumber {
            unsigned: n.as_u64(),
            signed: n.as_i64(),
            double: n.as_f64().unwrap_or_default().to_bits(),
        }),
        serde_json::Value::String(text) => Level::Text(text),
        serde_json::Value::Array(items) => Level::Array(items),
        serde_json::Value::Object(entries) => Level::Object(entries.iter().collect()),
    }
}

/// The `Debug` impl of `serde_json::Value`, whose text depends on the document
/// alone.
#[verifier::external_body]
pub(crate) fn debug_text(value: &serde_json::Value) -> (text: String)
    ensures
        text@ == json_debug(json_of(*value)),
{
    format!("{value:?}")
}

/// Indexing a `serde_json::Value` by a key: the entry of an object, and null for
/// a missing one and for what is no object.
#[verifier::external_body]
pub(crate) fn value_at<'a>(value: &'a serde_json::Value, key: &str) -> (entry:
    &'a serde_json::Value)
    ensures
        json_of(*entry) == json_of(*value).at(key@),
{
    &value[key]
}

/// `serde_json::from_slice` into a `serde_json::Value`, with the text of its
/// error: the same bytes give the same document or the same text.
#[verifier::external_body]
pub(crate) fn parse(bytes: &[u8]) -> (value: Result<serde_json::Value, String>)
    ensures
        match value {
            Ok(value) => json_text(bytes@) == Ok::<JsonTree, Seq<char>>(json_of(value)),
            Err(text) => json_text(bytes@) == Err::<JsonTree, Seq<char>>(text@),
        },
{
    serde_json::from_slice(bytes).map_err(|error| error.to_string())
}

/// Turns a `serde_json::Value` into a document of this crate.
pub fn document(value: &serde_json::Value) -> (json: Json)
    ensures
        json@ == json_of(*value),
    decreases json_of(*value),
{
    match open_value(value) {
        Level::Null => Json::Null,
        Level::Bool(value) => Json::Bool(value),
        Level::Number(number) => Json::Number(number),
        Level::Text(text) => Json::Text(text.clone()),
        Level::Array(items) => {
            let ghost tree = json_of(*value);
            let mut list: Vec<Json> = Vec::new();
            let mut i: usize = 0;
            while i < items.len()
                invariant
                    i <= items@.len(),
                    tree == json_of(*value),
                    tree == Level::Array(items).tree(),
                    list@.len() == i,
                    forall|j: int| 0 <= j < i ==> #[trigger] list@[j]@ == tree->Array_0[j],
                decreases items@.len() - i,
            {
                assert(tree->Array_0[i as int] == json_of(items@[i as int]));
                assert(decreases_to!(tree => tree->Array_0));
                list.push(document(&items[i]));
                i = i + 1;
            }
            let json = Json::Array(list);
            assert forall|j: int| 0 <= j < list@.len() implies json@->Array_0[j]
                == tree->Array_0[j] by {
                assert(list@[j]@ == tree->Array_0[j]);
            }
            assert(json@->Array_0 =~= tree->Array_0);
            json
        },
        Level::Object(entries) => {
            let ghost tree = json_of(*value);
            let mut list: Vec<(String, Json)> = Vec::new();
            let mut i: usize = 0;
            while i < entries.len()
                invariant
                    i <= entries@.len(),
                    tree == json_of(*value),
                    tree == Level::Object(entries).tree(),
                    list@.len() == i,
                    forall|j: int|
                        0 <= j < i ==> ((#[trigger] list@[j]).0@, list@[j].1@)
                            == tree->Object_0[j],
                decreases entries@.len() - i,
            {
                let ghost entry = tree->Object_0[i as int];
                assert(entry == (entries@[i as int].0@, json_of(*entries@[i as int].1)));
                assert(decreases_to!(tree => tree->Object_0));
                assert(decreases_to!(tree->Object_0 => entry));
                assert(decreases_to!(entry => entry.1));
                list.push((entries[i].0.clone(), document(entries[i].1)));
                i = i + 1;
            }
            let json = Json::Object(list);
            assert(json@->Object_0 =~= tree->Object_0);
            json
        },
    }
}

/// What an object holds under a key is the value of its first entry with that key.
pub proof fn the_first_entry_counts(
    entries: Seq<(Seq<char>, JsonTree)>,
    key: Seq<char>,
    i: int,
)
    requires
        0 <= i < entries.len(),
        entries[i].0 == key,
        forall|j: int| 0 <= j < i ==> (#[trigger] entries[j]).0 != key,
    ensures
        JsonTree::Object(entries).at(key) == entries[i].1,
    decreases i,
{
    if i > 0 {
        let rest = entries.drop_first();
        assert(entries[0].0 != key);
        assert forall|j: int| 0 <= j < i - 1 implies (#[trigger] rest[j]).0 != key by {
            assert(rest[j] == entries[j + 1]);
        }
        the_first_entry_counts(rest, key, i - 1);
    }
}

/// Under a key that no entry has an object holds null, and so does what is no object.
pub proof fn what_is_missing_is_null(tree: JsonTree, key: Seq<char>)
    requires
        tree matches JsonTree::Object(entries) ==> forall|j: int|
            0 <= j < entries.len() ==> (#[trigger] entries[j]).0 != key,
    ensures
        tree.at(key) == JsonTree::Null,
{
    if let JsonTree::Object(entries) = tree {
        lemma_missing(entries, key);
    }
}

proof fn lemma_missing(entries: Seq<(Seq<char>, JsonTree)>, key: Seq<char>)
    requires
        forall|j: int| 0 <= j < entries.len() ==> (#[trigger] entries[j]).0 != key,
    ensures
        lookup(entries, key) == JsonTree::Null,
    decreases entries.len(),
{
    if entries.len() > 0 {
        let rest = entries.drop_first();
        assert(entries[0].0 != key);
        assert forall|j: int| 0 <= j < rest.len() implies (#[trigger] rest[j]).0 != key by {
            assert(rest[j] == entries[j + 1]);
        }
        lemma_missing(rest, key);
    }
}

/// A document is read as what it is: a truth value, a number, a text or an array, and
/// nothing is read as anything else. An integer is one that is written without fraction and
/// sign.
pub proof fn documents_are_read_as_what_they_are(tree: JsonTree)
    ensures
        match tree {
            JsonTree::Null => tree.as_bool() is None && tree.as_unsigned() is None
                && tree.as_double() is None && tree.as_text() is None && tree.as_array() is None,
            JsonTree::Bool(value) => tree.as_bool() == Some(value) && tree.as_unsigned() is None
                && tree.as_double() is None && tree.as_text() is None && tree.as_array() is None,
            JsonTree::Number(JsonNumber { unsigned, double, .. }) => tree.as_unsigned() == unsigned
                && tree.as_double() == Some(double) && tree.as_bool() is None
                && tree.as_text() is None && tree.as_array() is None,
            JsonTree::Text(text) => tree.as_text() == Some(text) && tree.as_bool() is None
                && tree.as_unsigned() is None && tree.as_double() is None && tree.as_array() is None,
            JsonTree::Array(items) => tree.as_array() == Some(items) && tree.as_bool() is None
                && tree.as_unsigned() is None && tree.as_double() is None && tree.as_text() is None,
            JsonTree::Object(_) => tree.as_bool() is None && tree.as_unsigned() is None
                && tree.as_double() is None && tree.as_text() is None && tree.as_array() is None,
        },
{
}

}
