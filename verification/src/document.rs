//! JSON documents as `serde_json` holds, reads and prints them.
use serde_json::{Map as Members, Number, Value};
use vstd::prelude::*;

use crate::text::decimal;

verus! {

/// What a JSON document says, free of how it is stored.
#[verifier::ext_equal]
pub enum Doc {
    Null,
    Bool(bool),
    Number(Seq<char>),
    Text(Seq<char>),
    Array(Seq<Doc>),
    Object(Map<Seq<char>, Doc>),
}

impl Doc {
    /// The member called `key`, if this is an object that has one.
    pub open spec fn member(self, key: Seq<char>) -> Option<Doc> {
        match self {
            Doc::Object(m) => if m.contains_key(key) {
                Some(m[key])
            } else {
                None
            },
            _ => None,
        }
    }

    /// The text, if this is a string.
    pub open spec fn text(self) -> Option<Seq<char>> {
        match self {
            Doc::Text(s) => Some(s),
            _ => None,
        }
    }
}

/// `serde_json::Value`: a document as the JSON reader builds it and the JSON
/// printer takes it.
#[verifier::external_type_specification]
#[verifier::external_body]
pub struct ExValue(serde_json::Value);

/// `serde_json::Number`, carried through unchanged.
#[verifier::external_type_specification]
#[verifier::external_body]
pub struct ExNumber(serde_json::Number);

/// `serde_json::Error`: why a text is no JSON document.
#[verifier::external_type_specification]
#[verifier::external_body]
pub struct ExJsonError(serde_json::Error);

/// The document that a `serde_json::Value` holds.
pub uninterp spec fn document(v: Value) -> Doc;

/// The text that a `serde_json::Number` prints as.
pub uninterp spec fn number_text(n: Number) -> Seq<char>;

/// The compact text that `serde_json` prints of a document.
pub uninterp spec fn json_text(d: Doc) -> Seq<char>;

/// The document that `serde_json` reads from a text, if it reads one.
pub uninterp spec fn json_parse(text: Seq<char>) -> Option<Doc>;

/// One level of a `serde_json::Value`, its parts still unopened.
pub enum Layer {
    Null,
    Bool(bool),
    Number(Number),
    Text(String),
    Array(Vec<Value>),
    Object(Vec<(String, Value)>),
}

/// The members as a mapping; were a key there twice, the later one would count.
pub open spec fn members_doc(members: Seq<(String, Value)>) -> Map<Seq<char>, Doc>
    decreases members.len(),
{
    if members.len() == 0 {
        Map::empty()
    } else {
        members_doc(members.drop_last()).insert(members.last().0@, document(members.last().1))
    }
}

/// No key stands twice.
pub open spec fn distinct_keys<T>(entries: Seq<(String, T)>) -> bool {
    forall|i: int, j: int|
        0 <= i < j < entries.len() ==> (#[trigger] entries[i]).0@ != (#[trigger] entries[j]).0@
}

impl Layer {
    /// The document of which this is the outermost level.
    pub open spec fn doc(self) -> Doc {
        match self {
            Layer::Null => Doc::Null,
            Layer::Bool(b) => Doc::Bool(b),
            Layer::Number(n) => Doc::Number(number_text(n)),
            Layer::Text(s) => Doc::Text(s@),
            Layer::Array(v) => Doc::Array(Seq::new(v@.len(), |i: int| document(v@[i]))),
            Layer::Object(m) => Doc::Object(members_doc(m@)),
        }
    }
}

/// Takes the outermost level off a `serde_json::Value`: one arm for each of its
/// variants, fields moved as they are. The keys of an object come out distinct,
/// since `serde_json::Map` is a map.
#[verifier::external_body]
pub(crate) fn open_value(v: Value) -> (layer: Layer)
    ensures
        layer.doc() == document(v),
        layer matches Layer::Object(m) ==> distinct_keys(m@),
{
    match v {
        Value::Null => Layer::Null,
        Value::Bool(b) => Layer::Bool(b),
        Value::Number(n) => Layer::Number(n),
        Value::String(s) => Layer::Text(s),
        Value::Array(a) => Layer::Array(a),
        Value::Object(m) => Layer::Object(m.into_iter().collect()),
    }
}

/// Puts an outermost level round parts that are `serde_json::Value`s already.
/// Collecting members into a `serde_json::Map` keeps the later of two values
/// under one key.
#[verifier::external_body]
pub(crate) fn close_value(layer: Layer) -> (v: Value)
    ensures
        document(v) == layer.doc(),
{
    match layer {
        Layer::Null => Value::Null,
        Layer::Bool(b) => Value::Bool(b),
        Layer::Number(n) => Value::Number(n),
        Layer::Text(s) => Value::String(s),
        Layer::Array(a) => Value::Array(a),
        Layer::Object(m) => Value::Object(m.into_iter().collect::<Members<String, Value>>()),
    }
}

/// A whole number: its text has neither a point nor an exponent.
pub open spec fn whole(text: Seq<char>) -> bool {
    forall|i: int| 0 <= i < text.len() ==> text[i] != '.' && text[i] != 'e'
}

/// The key by which `serde_json` marks raw text: what it reads of an object that
/// begins with it is the document in that text.
pub open spec fn raw_text_key() -> Seq<char> {
    "$serde_json::private::RawValue"@
}

/// The document nests at most `levels` arrays and objects, every number in it is
/// whole, and no object in it has the key that marks raw text.
pub open spec fn readable(d: Doc, levels: nat) -> bool
    decreases levels,
{
    match d {
        Doc::Number(t) => whole(t),
        Doc::Array(a) => levels > 0 && forall|i: int|
            0 <= i < a.len() ==> readable(#[trigger] a[i], (levels - 1) as nat),
        Doc::Object(m) => levels > 0 && !m.contains_key(raw_text_key()) && forall|k: Seq<char>|
            #[trigger]
            m.contains_key(k) ==> readable(m[k], (levels - 1) as nat),
        _ => true,
    }
}

/// How deep `serde_json` follows nested arrays and objects when it reads a text.
pub const READ_DEPTH: u32 = 127;

/// `serde_json::Value::to_string`: the compact text of a document. A text printed
/// of a document that nests no deeper than the reader follows, whose numbers are
/// whole and which has no object with the key that marks raw text, reads back as
/// that document. Of numbers with a fraction or an exponent that is not said:
/// reading may miss the last binary digit.
#[verifier::external_body]
pub(crate) fn print_value(v: &Value) -> (text: String)
    ensures
        text@ == json_text(document(*v)),
        readable(document(*v), READ_DEPTH as nat) ==> json_parse(text@) == Some(document(*v)),
{
    v.to_string()
}

/// `serde_json::from_str` into a `serde_json::Value`.
#[verifier::external_body]
pub(crate) fn read_value(text: &str) -> (v: Result<Value, serde_json::Error>)
    ensures
        match v {
            Ok(v) => json_parse(text@) == Some(document(v)),
            Err(_) => json_parse(text@) is None,
        },
{
    serde_json::from_str(text)
}

/// `serde_json::Number::from` of an unsigned integer, which prints in decimal.
#[verifier::external_body]
pub(crate) fn number_of(n: u64) -> (r: Number)
    ensures
        number_text(r) == decimal(n as nat),
{
    Number::from(n)
}

/// `Number::clone` copies the number.
#[verifier::external_body]
pub(crate) fn copy_number(n: &Number) -> (r: Number)
    ensures
        number_text(r) == number_text(*n),
{
    n.clone()
}

/// `Number::to_string`: the text that the number prints as.
#[verifier::external_body]
pub(crate) fn print_number(n: &Number) -> (text: String)
    ensures
        text@ == number_text(*n),
{
    n.to_string()
}

} // verus!
