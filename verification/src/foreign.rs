//! What the library takes on trust from `std` and from other crates.
use crate::json::{Json, JsonField, JsonView};
use crate::text::{join, lowered, views};
use std::collections::hash_map::DefaultHasher;
use std::hash::Hash;
use vstd::prelude::*;
use vstd::utf8::decode_utf8;
use vstd::utf8::is_ascii_chars;
use vstd::utf8::valid_utf8;

verus! {

// ---------------------------------------------------------------------------
// std
// ---------------------------------------------------------------------------
/// `String::push` puts one character behind the text.
pub assume_specification[ String::push ](s: &mut String, ch: char)
    ensures
        final(s)@ == old(s)@.push(ch),
;

/// The lower-case form of a text, by the case tables of Unicode.
pub uninterp spec fn lower_case(text: Seq<char>) -> Seq<char>;

/// `str::to_lowercase` gives the lower-case form, which depends on the text alone. It treats ASCII
/// letters as the ASCII lowering does.
pub assume_specification[ str::to_lowercase ](s: &str) -> (out: String)
    ensures
        out@ == lower_case(s@),
        is_ascii_chars(s@) ==> out@ == lowered(s@),
;

/// The runs of bytes that a text hands to a hasher.
pub uninterp spec fn hashed_bytes(text: Seq<char>) -> Seq<Seq<u8>>;

/// `Hash::hash` of `str` adds to what the hasher has been given; what it adds depends on the text
/// alone. Which bytes they are is not said.
#[verifier::external_body]
pub(crate) fn feed_text(text: &str, hasher: &mut DefaultHasher)
    ensures
        final(hasher)@ == old(hasher)@ + hashed_bytes(text@),
{
    text.hash(hasher)
}

/// What bytes read as where they are not all UTF-8.
pub uninterp spec fn lossy_text(bytes: Seq<u8>) -> Seq<char>;

/// `String::from_utf8_lossy` decodes UTF-8. Where bytes are not UTF-8 it puts replacement
/// characters in a way that depends on the bytes alone.
#[verifier::external_body]
pub(crate) fn decode_lossy(bytes: &[u8]) -> (out: String)
    ensures
        out@ == lossy_text(bytes@),
        valid_utf8(bytes@) ==> out@ == decode_utf8(bytes@),
{
    String::from_utf8_lossy(bytes).into_owned()
}

// ---------------------------------------------------------------------------
// chrono
// ---------------------------------------------------------------------------
/// The instant that an RFC 3339 text names, in seconds since the epoch and nanoseconds behind them;
/// nothing where the text is no such date and time.
pub uninterp spec fn rfc3339_instant(text: Seq<char>) -> Option<(i64, u32)>;

/// `DateTime::parse_from_rfc3339`, moved to UTC and taken apart into whole seconds since the epoch
/// and the nanoseconds behind them. A leap second is told by nanoseconds of a thousand million or
/// more, and never reaches two thousand million.
#[verifier::external_body]
pub(crate) fn parse_rfc3339(text: &str) -> (out: Option<(i64, u32)>)
    ensures
        out == rfc3339_instant(text@),
        match out {
            Some(instant) => instant.1 < 2_000_000_000,
            None => true,
        },
{
    chrono::DateTime::parse_from_rfc3339(text)
        .ok()
        .map(|time| time.with_timezone(&chrono::Utc))
        .map(|time| (time.timestamp(), time.timestamp_subsec_nanos()))
}

// ---------------------------------------------------------------------------
// shell_words
// ---------------------------------------------------------------------------
/// The characters for which a word has to be quoted in a shell command.
pub open spec fn is_shell_special(c: char) -> bool {
    c == '\n' || c == '\'' || c == '|' || c == '&' || c == ';' || c == '<' || c == '>' || c == '('
        || c == ')' || c == '$' || c == '`' || c == '\\' || c == '"' || c == ' ' || c == '\t' || c
        == '*' || c == '?' || c == '[' || c == '#' || c == '~' || c == '=' || c == '%'
}

/// A word with each single quote written as a closing quote, an escaped quote and an opening one.
pub open spec fn quotes_escaped(word: Seq<char>) -> Seq<char>
    decreases word.len(),
{
    if word.len() == 0 {
        seq![]
    } else if word.last() == '\'' {
        quotes_escaped(word.drop_last()) + seq!['\'', '\\', '\'', '\'']
    } else {
        quotes_escaped(word.drop_last()).push(word.last())
    }
}

/// A word as a shell command holds it: as it is where nothing in it is special, else in single
/// quotes. The empty word is quoted too.
pub open spec fn shell_quoted(word: Seq<char>) -> Seq<char> {
    if word.len() > 0 && forall|i: int|
        0 <= i < word.len() ==> !is_shell_special(#[trigger] word[i]) {
        word
    } else {
        seq!['\''] + quotes_escaped(word) + seq!['\'']
    }
}

/// A shell command of the words: each in its quoted form, with a space between them.
pub open spec fn shell_line(words: Seq<Seq<char>>) -> Seq<char> {
    join(words.map_values(|word: Seq<char>| shell_quoted(word)), seq![' '])
}

/// `shell_words::join` quotes each word where it needs it and puts single spaces between them.
#[verifier::external_body]
pub(crate) fn shell_join(words: &Vec<String>) -> (out: String)
    ensures
        out@ == shell_line(views(words@)),
{
    shell_words::join(words)
}

// ---------------------------------------------------------------------------
// serde_json
// ---------------------------------------------------------------------------
/// A JSON value as `serde_json` holds it.
#[verifier::external_type_specification]
#[verifier::external_body]
pub struct ExValue(serde_json::Value);

/// What a JSON value holds.
pub uninterp spec fn json_content(value: serde_json::Value) -> JsonView;

/// The JSON value that a text writes; nothing where it writes none.
pub uninterp spec fn json_of_text(text: Seq<char>) -> Option<JsonView>;

/// The JSON value that bytes write; nothing where they write none.
pub uninterp spec fn json_of_bytes(bytes: Seq<u8>) -> Option<JsonView>;

/// `serde_json::from_str` reads the value that a text writes, which depends on the text alone.
#[verifier::external_body]
pub(crate) fn value_of_text(text: &str) -> (out: Option<serde_json::Value>)
    ensures
        match out {
            Some(value) => json_of_text(text@) == Some(json_content(value)),
            None => json_of_text(text@) is None,
        },
{
    serde_json::from_str(text).ok()
}

/// `serde_json::from_slice` reads the value that bytes write, which depends on the bytes alone.
#[verifier::external_body]
pub(crate) fn value_of_bytes(bytes: &[u8]) -> (out: Option<serde_json::Value>)
    ensures
        match out {
            Some(value) => json_of_bytes(bytes@) == Some(json_content(value)),
            None => json_of_bytes(bytes@) is None,
        },
{
    serde_json::from_slice(bytes).ok()
}

/// The variants of `serde_json::Value`, one for one: a number by its `Display` form, an array by
/// its items in order, an object by its keys and values in the order of its map.
#[verifier::external_body]
pub(crate) fn json_of_value(value: serde_json::Value) -> (out: Json)
    ensures
        out@ == json_content(value),
{
    match value {
        serde_json::Value::Null => Json::Null,
        serde_json::Value::Bool(flag) => Json::Bool(flag),
        serde_json::Value::Number(number) => Json::Number(number.to_string()),
        serde_json::Value::String(text) => Json::Text(text),
        serde_json::Value::Array(items) => Json::Array(items.into_iter().map(json_of_value).collect()),
        serde_json::Value::Object(map) => Json::Object(
            map.into_iter().map(|(key, value)| JsonField { key, value: json_of_value(value) }).collect(),
        ),
    }
}

} // verus!
