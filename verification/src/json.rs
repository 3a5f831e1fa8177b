//! JSON documents as trees, read with `serde_json`.

use crate::text::str_eq;
use vstd::prelude::*;

verus! {

/// A JSON document. Numbers are not interpreted by this library and keep no
/// value.
#[derive(Debug, PartialEq)]
pub enum Json {
    Null,
    Bool(bool),
    Number,
    String(String),
    Array(Vec<Json>),
    /// The members in the order in which the parser lists them.
    Object(Vec<(String, Json)>),
}

/// The mathematical value of a JSON document.
pub enum JsonValue {
    Null,
    Bool(bool),
    Number,
    String(Seq<char>),
    Array(Seq<JsonValue>),
    Object(Seq<(Seq<char>, JsonValue)>),
}

/// The members of a JSON object as (name, value) pairs.
pub type Fields = Seq<(Seq<char>, JsonValue)>;

/// The values of a sequence of documents.
pub open spec fn json_values(items: Seq<Json>) -> Seq<JsonValue> {
    Seq::new(items.len(), |i: int| items[i]@)
}

/// The (name, value) pairs of a sequence of named documents.
pub open spec fn field_values(entries: Seq<(String, Json)>) -> Fields {
    Seq::new(entries.len(), |i: int| (entries[i].0@, entries[i].1@))
}

impl View for Json {
    type V = JsonValue;

    open spec fn view(&self) -> JsonValue
        decreases self,
    {
        match self {
            Json::Null => JsonValue::Null,
            Json::Bool(b) => JsonValue::Bool(*b),
            Json::Number => JsonValue::Number,
            Json::String(s) => JsonValue::String(s@),
            Json::Array(v) => JsonValue::Array(
                Seq::new(
                    v@.len(),
                    |i: int|
                        if 0 <= i < v@.len() {
                            v@[i].view()
                        } else {
                            JsonValue::Null
                        },
                ),
            ),
            Json::Object(v) => JsonValue::Object(
                Seq::new(
                    v@.len(),
                    |i: int|
                        if 0 <= i < v@.len() {
                            (v@[i].0@, v@[i].1.view())
                        } else {
                            (Seq::empty(), JsonValue::Null)
                        },
                ),
            ),
        }
    }
}

/// The value of an array is the sequence of the values of its items.
pub proof fn lemma_array_view(v: Vec<Json>)
    ensures
        Json::Array(v)@ == JsonValue::Array(json_values(v@)),
{
    reveal_with_fuel(<Json as View>::view, 2);
    assert(Json::Array(v)@->Array_0 =~= json_values(v@));
}

/// The value of an object is the sequence of its named values.
pub proof fn lemma_object_view(v: Vec<(String, Json)>)
    ensures
        Json::Object(v)@ == JsonValue::Object(field_values(v@)),
{
    reveal_with_fuel(<Json as View>::view, 2);
    assert(Json::Object(v)@->Object_0 =~= field_values(v@));
}

/// Position of the first field called `name`; `fields.len()` when there is
/// none.
pub open spec fn field_index(fields: Fields, name: Seq<char>) -> int
    decreases fields.len(),
{
    if fields.len() == 0 {
        0
    } else if fields[0].0 == name {
        0
    } else {
        1 + field_index(fields.drop_first(), name)
    }
}

/// `field_index` finds the first field called `name`.
pub proof fn lemma_field_index(fields: Fields, name: Seq<char>)
    ensures
        0 <= field_index(fields, name) <= fields.len(),
        field_index(fields, name) < fields.len() ==> fields[field_index(fields, name)].0 == name,
        forall|k: int| 0 <= k < field_index(fields, name) ==> (#[trigger] fields[k]).0 != name,
    decreases fields.len(),
{
    if fields.len() == 0 {
    } else if fields[0].0 == name {
    } else {
        let rest = fields.drop_first();
        lemma_field_index(rest, name);
        let i = field_index(rest, name);
        assert forall|k: int| 0 <= k < 1 + i implies (#[trigger] fields[k]).0 != name by {
            if k > 0 {
                assert(rest[k - 1] == fields[k]);
            }
        }
        if i < rest.len() {
            assert(rest[i] == fields[i + 1]);
        }
    }
}

/// A position that holds `name` and has no earlier holder is the one that
/// `field_index` finds.
pub proof fn lemma_field_index_is(fields: Fields, name: Seq<char>, i: int)
    requires
        0 <= i <= fields.len(),
        i < fields.len() ==> fields[i].0 == name,
        forall|k: int| 0 <= k < i ==> (#[trigger] fields[k]).0 != name,
    ensures
        field_index(fields, name) == i,
{
    lemma_field_index(fields, name);
    let j = field_index(fields, name);
    if j < i {
        assert(fields[j].0 != name);
    } else if i < j {
        assert(fields[i].0 != name);
    }
}

/// The value of the member called `name` of an object; `None` for a document
/// that is no object or has no such member.
pub open spec fn json_member(doc: JsonValue, name: Seq<char>) -> Option<JsonValue> {
    match doc {
        JsonValue::Object(fields) => {
            let i = field_index(fields, name);
            if i < fields.len() {
                Some(fields[i].1)
            } else {
                None
            }
        },
        _ => None,
    }
}

/// The text of a document that is a string.
pub open spec fn json_text(doc: JsonValue) -> Option<Seq<char>> {
    match doc {
        JsonValue::String(s) => Some(s),
        _ => None,
    }
}

impl Json {
    /// The member called `name`, when this is an object that has one.
    pub fn get(&self, name: &str) -> (r: Option<&Json>)
        ensures
            match r {
                Some(doc) => json_member(self@, name@) == Some(doc@),
                None => json_member(self@, name@) is None,
            },
    {
        match self {
            Json::Object(entries) => {
                proof {
                    lemma_object_view(*entries);
                }
                let mut i: usize = 0;
                while i < entries.len()
                    invariant
                        i <= entries@.len(),
                        self@ == JsonValue::Object(field_values(entries@)),
                        forall|k: int|
                            0 <= k < i ==> (#[trigger] field_values(entries@)[k]).0 != name@,
                    decreases entries@.len() - i,
                {
                    if str_eq(entries[i].0.as_str(), name) {
                        proof {
                            lemma_field_index_is(field_values(entries@), name@, i as int);
                        }
                        return Some(&entries[i].1);
                    }
                    i += 1;
                }
                proof {
                    lemma_field_index_is(field_values(entries@), name@, i as int);
                }
                None
            },
            _ => None,
        }
    }

    /// The members, when this is an object.
    pub fn as_object(&self) -> (r: Option<&Vec<(String, Json)>>)
        ensures
            match r {
                Some(entries) => self@ == JsonValue::Object(field_values(entries@)),
                None => !(self@ is Object),
            },
    {
        match self {
            Json::Object(entries) => {
                proof {
                    lemma_object_view(*entries);
                }
                Some(entries)
            },
            _ => None,
        }
    }

    /// The items, when this is an array.
    pub fn as_array(&self) -> (r: Option<&Vec<Json>>)
        ensures
            match r {
                Some(items) => self@ == JsonValue::Array(json_values(items@)),
                None => !(self@ is Array),
            },
    {
        match self {
            Json::Array(items) => {
                proof {
                    lemma_array_view(*items);
                }
                Some(items)
            },
            _ => None,
        }
    }

    /// The text, when this is a string.
    pub fn as_str(&self) -> (r: Option<&str>)
        ensures
            match r {
                Some(s) => json_text(self@) == Some(s@),
                None => json_text(self@) is None,
            },
    {
        match self {
            Json::String(s) => Some(s.as_str()),
            _ => None,
        }
    }
}

#[verifier::external_type_specification]
#[verifier::external_body]
pub struct ExValue(serde_json::Value);

/// The document that `serde_json::from_str` reads from a text as a
/// `serde_json::Value`; `None` where it reports an error.
pub uninterp spec fn json_document(text: Seq<char>) -> Option<JsonValue>;

/// The document that a `serde_json::Value` holds: its variants one for one,
/// the members of an object in the order in which its map lists them, a
/// number without its value.
pub uninterp spec fn value_document(value: serde_json::Value) -> JsonValue;

/// `serde_json::from_str` at the type `serde_json::Value`. The contract names
/// the outcome; it says nothing of what the document is.
#[verifier::external_body]
fn parse_value(text: &str) -> (r: Option<serde_json::Value>)
    ensures
        match r {
            Some(value) => json_document(text@) == Some(value_document(value)),
            None => json_document(text@) is None,
        },
{
    match serde_json::from_str::<serde_json::Value>(text) {
        Ok(value) => Some(value),
        Err(_) => None,
    }
}

/// Moves the parts of a `serde_json::Value` into a `Json`, variant by
/// variant.
#[verifier::external_body]
fn json_from_value(value: serde_json::Value) -> (doc: Json)
    ensures
        doc@ == value_document(value),
{
    match value {
        serde_json::Value::Null => Json::Null,
        serde_json::Value::Bool(b) => Json::Bool(b),
        serde_json::Value::Number(_) => Json::Number,
        serde_json::Value::String(s) => Json::String(s),
        serde_json::Value::Array(items) => Json::Array(
            items.into_iter().map(json_from_value).collect(),
        ),
        serde_json::Value::Object(map) => Json::Object(
            map.into_iter().map(|(k, v)| (k, json_from_value(v))).collect(),
        ),
    }
}

/// Parses a JSON text.
pub fn parse_json(text: &str) -> (r: Option<Json>)
    ensures
        match r {
            Some(doc) => json_document(text@) == Some(doc@),
            None => json_document(text@) is None,
        },
{
    match parse_value(text) {
        Some(value) => Some(json_from_value(value)),
        None => None,
    }
}

} // verus!
