//! JSON values.
use crate::foreign::{json_of_bytes, json_of_text, json_of_value, value_of_bytes, value_of_text};
use crate::text::{opt_str, same_text};
use vstd::prelude::*;

verus! {

/// A JSON value. A number is held by its written form.
pub enum Json {
    Null,
    Bool(bool),
    Number(String),
    Text(String),
    Array(Vec<Json>),
    Object(Vec<JsonField>),
}

/// One entry of a JSON object.
pub struct JsonField {
    pub key: String,
    pub value: Json,
}

/// A JSON value with its texts as sequences of characters.
pub enum JsonView {
    Null,
    Bool(bool),
    Number(Seq<char>),
    Text(Seq<char>),
    Array(Seq<JsonView>),
    Object(Seq<(Seq<char>, JsonView)>),
}

impl Json {
    pub open spec fn view(&self) -> JsonView
        decreases self,
    {
        match self {
            Json::Null => JsonView::Null,
            Json::Bool(flag) => JsonView::Bool(*flag),
            Json::Number(number) => JsonView::Number(number@),
            Json::Text(text) => JsonView::Text(text@),
            Json::Array(items) => JsonView::Array(
                Seq::new(
                    items@.len(),
                    |i: int|
                        if 0 <= i < items@.len() {
                            items@[i].view()
                        } else {
                            JsonView::Null
                        },
                ),
            ),
            Json::Object(fields) => JsonView::Object(
                Seq::new(
                    fields@.len(),
                    |i: int|
                        if 0 <= i < fields@.len() {
                            (fields@[i].key@, fields@[i].value.view())
                        } else {
                            (seq![], JsonView::Null)
                        },
                ),
            ),
        }
    }
}

/// The place of the first entry with the key, or the number of entries where there is none.
pub open spec fn entry_place(fields: Seq<(Seq<char>, JsonView)>, key: Seq<char>) -> int
    decreases fields.len(),
{
    if fields.len() == 0 || fields[0].0 == key {
        0
    } else {
        1 + entry_place(fields.skip(1), key)
    }
}

impl JsonView {
    /// The value under a key, where this is an object that has the key.
    pub open spec fn get(self, key: Seq<char>) -> Option<JsonView> {
        match self {
            JsonView::Object(fields) => {
                let place = entry_place(fields, key);
                if 0 <= place < fields.len() {
                    Some(fields[place].1)
                } else {
                    None
                }
            },
            _ => None,
        }
    }

    /// The text, where this is one.
    pub open spec fn as_text(self) -> Option<Seq<char>> {
        match self {
            JsonView::Text(text) => Some(text),
            _ => None,
        }
    }

    /// The truth value, where this is one.
    pub open spec fn as_bool(self) -> Option<bool> {
        match self {
            JsonView::Bool(flag) => Some(flag),
            _ => None,
        }
    }

    /// The text under a key, where there is one.
    pub open spec fn text_at(self, key: Seq<char>) -> Option<Seq<char>> {
        match self.get(key) {
            Some(value) => value.as_text(),
            None => None,
        }
    }
}

/// The view of an optional borrowed value.
pub open spec fn opt_json(value: Option<&Json>) -> Option<JsonView> {
    match value {
        Some(json) => Some(json@),
        None => None,
    }
}

impl Json {
    /// The value under a key, where this is an object that has the key.
    pub fn get(&self, key: &str) -> (out: Option<&Json>)
        ensures
            opt_json(out) == self@.get(key@),
            match out {
                Some(value) => decreases_to!(self => value),
                None => true,
            },
    {
        match self {
            Json::Object(fields) => {
                let ghost entries = self@->Object_0;
                let mut i: usize = 0;
                assert(entries.skip(0) == entries);
                while i < fields.len()
                    invariant
                        i <= fields@.len(),
                        self == Json::Object(*fields),
                        self@ == JsonView::Object(entries),
                        entries.len() == fields@.len(),
                        entry_place(entries, key@) == i + entry_place(
                            entries.skip(i as int),
                            key@,
                        ),
                    decreases fields@.len() - i,
                {
                    assert(entries[i as int] == (fields@[i as int].key@, fields@[i as int].value@));
                    assert(entries.skip(i as int)[0] == entries[i as int]);
                    assert(entries.skip(i as int).skip(1) == entries.skip(i + 1));
                    if same_text(&fields[i].key, key) {
                        return Some(&fields[i].value);
                    }
                    i += 1;
                }
                None
            },
            _ => None,
        }
    }

    /// The text, where this is one.
    pub fn as_str(&self) -> (out: Option<&str>)
        ensures
            opt_str(out) == self@.as_text(),
    {
        match self {
            Json::Text(text) => Some(text.as_str()),
            _ => None,
        }
    }

    /// The truth value, where this is one.
    pub fn as_bool(&self) -> (out: Option<bool>)
        ensures
            out == self@.as_bool(),
    {
        match self {
            Json::Bool(flag) => Some(*flag),
            _ => None,
        }
    }

    /// The text under a key, where there is one.
    pub fn str_at(&self, key: &str) -> (out: Option<&str>)
        ensures
            opt_str(out) == self@.text_at(key@),
    {
        match self.get(key) {
            Some(value) => value.as_str(),
            None => None,
        }
    }
}

/// Reads a JSON text.
pub fn parse_json(text: &str) -> (out: Option<Json>)
    ensures
        match out {
            Some(json) => json_of_text(text@) == Some(json@),
            None => json_of_text(text@) is None,
        },
{
    match value_of_text(text) {
        Some(value) => Some(json_of_value(value)),
        None => None,
    }
}

/// Reads JSON from bytes.
pub fn parse_json_bytes(bytes: &[u8]) -> (out: Option<Json>)
    ensures
        match out {
            Some(json) => json_of_bytes(bytes@) == Some(json@),
            None => json_of_bytes(bytes@) is None,
        },
{
    match value_of_bytes(bytes) {
        Some(value) => Some(json_of_value(value)),
        None => None,
    }
}

/// The entry under a key is the first with that key, and there is one just where the object has it.
pub proof fn entry_is_found_by_its_key(fields: Seq<(Seq<char>, JsonView)>, key: Seq<char>, i: int)
    ensures
        JsonView::Object(fields).get(key) is Some <==> exists|k: int|
            0 <= k < fields.len() && (#[trigger] fields[k]).0 == key,
        0 <= i < fields.len() && fields[i].0 == key && (forall|k: int|
            0 <= k < i ==> (#[trigger] fields[k]).0 != key) ==> JsonView::Object(fields).get(key)
            == Some(fields[i].1),
    decreases fields.len(),
{
    place_is_the_first(fields, key);
    let p = entry_place(fields, key);
    if p < fields.len() {
        assert(fields[p].0 == key);
    }
}

proof fn place_is_the_first(fields: Seq<(Seq<char>, JsonView)>, key: Seq<char>)
    ensures
        0 <= entry_place(fields, key) <= fields.len(),
        entry_place(fields, key) < fields.len() ==> fields[entry_place(fields, key)].0 == key,
        forall|k: int| 0 <= k < entry_place(fields, key) ==> (#[trigger] fields[k]).0 != key,
    decreases fields.len(),
{
    if fields.len() > 0 && fields[0].0 != key {
        place_is_the_first(fields.skip(1), key);
        assert forall|k: int| 0 <= k < entry_place(fields, key) implies (#[trigger] fields[k]).0
            != key by {
            if k > 0 {
                assert(fields.skip(1)[k - 1] == fields[k]);
            }
        }
    }
}

} // verus!
