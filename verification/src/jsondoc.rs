//! JSON documents: texts, lists and objects, and their written form.
//!
//! A document is built from plain values by verified code. Its text is
//! what `serde_json` writes for it, and is known by name only.

use vstd::prelude::*;

verus! {

/// A value as the `serde_json` crate holds it.
#[verifier::external_type_specification]
#[verifier::external_body]
pub struct ExJsonValue(serde_json::Value);

/// A document.
#[derive(Debug, PartialEq, Eq)]
pub enum Json {
    /// A text.
    Text(String),
    /// The members of a list, in their order.
    List(Vec<Json>),
    /// The entries of an object, in the order in which they are entered.
    Object(Vec<(String, Json)>),
}

/// The model of a document.
pub enum JsonModel {
    Text(Seq<char>),
    List(Seq<JsonModel>),
    Object(Seq<(Seq<char>, JsonModel)>),
}

impl Json {
    /// The document as a mathematical value.
    pub open spec fn model(&self) -> JsonModel
        decreases self,
    {
        match self {
            Json::Text(s) => JsonModel::Text(s@),
            Json::List(v) => JsonModel::List(
                Seq::new(
                    v@.len(),
                    |i: int|
                        if 0 <= i < v@.len() {
                            v@[i].model()
                        } else {
                            JsonModel::Text(Seq::empty())
                        },
                ),
            ),
            Json::Object(m) => JsonModel::Object(
                Seq::new(
                    m@.len(),
                    |i: int|
                        if 0 <= i < m@.len() {
                            (m@[i].0@, m@[i].1.model())
                        } else {
                            (Seq::empty(), JsonModel::Text(Seq::empty()))
                        },
                ),
            ),
        }
    }
}

/// The models of the members of a list.
pub open spec fn models_of(items: Seq<Json>) -> Seq<JsonModel> {
    Seq::new(items.len(), |i: int| items[i].model())
}

/// The models of the entries of an object.
pub open spec fn entry_models(entries: Seq<(String, Json)>) -> Seq<(Seq<char>, JsonModel)> {
    Seq::new(entries.len(), |i: int| (entries[i].0@, entries[i].1.model()))
}

/// The object with the one entry `key`, whose value is the text `value`.
pub open spec fn single_model(key: Seq<char>, value: Seq<char>) -> JsonModel {
    JsonModel::Object(seq![(key, JsonModel::Text(value))])
}

/// The text `s` as a document.
pub fn text(s: &str) -> (r: Json)
    ensures
        r.model() == JsonModel::Text(s@),
{
    Json::Text(String::from_str(s))
}

/// The list of `items`.
pub fn list(items: Vec<Json>) -> (r: Json)
    ensures
        r.model() == JsonModel::List(models_of(items@)),
{
    let ghost members = items@;
    let r = Json::List(items);
    proof {
        assert(r.model()->List_0 =~= models_of(members));
    }
    r
}

/// The object of `entries`.
pub fn object(entries: Vec<(String, Json)>) -> (r: Json)
    ensures
        r.model() == JsonModel::Object(entry_models(entries@)),
{
    let ghost pairs = entries@;
    let r = Json::Object(entries);
    proof {
        assert(r.model()->Object_0 =~= entry_models(pairs));
    }
    r
}

/// The entry of an object: `value` under `key`.
pub fn entry(key: &str, value: Json) -> (r: (String, Json))
    ensures
        r.0@ == key@,
        r.1 == value,
{
    (String::from_str(key), value)
}

/// The object with the one entry `key`, whose value is the text `value`.
pub fn single(key: &str, value: &str) -> (r: Json)
    ensures
        r.model() == single_model(key@, value@),
{
    let mut entries: Vec<(String, Json)> = Vec::new();
    entries.push(entry(key, text(value)));
    proof {
        assert(entry_models(entries@) =~= seq![(key@, JsonModel::Text(value@))]);
    }
    object(entries)
}

/// What `serde_json` writes for a document.
pub uninterp spec fn json_written(doc: JsonModel) -> Seq<char>;

/// The document as a `serde_json::Value`: a text as `Value::String`, a
/// list as `Value::Array` of its members, an object as `Value::Object` of
/// a `serde_json::Map` into which the entries are entered in their order.
/// Nothing is stated of the value.
#[verifier::external_body]
fn value_of(doc: &Json) -> serde_json::Value {
    match doc {
        Json::Text(s) => serde_json::Value::String(s.clone()),
        Json::List(v) => serde_json::Value::Array(v.iter().map(value_of).collect()),
        Json::Object(m) => {
            serde_json::Value::Object(m.iter().map(|e| (e.0.clone(), value_of(&e.1))).collect())
        },
    }
}

/// The text of a document: `to_string` of the `serde_json::Value` that
/// holds it. The result is named, not stated: it depends on the document
/// alone.
#[verifier::external_body]
pub(crate) fn written(doc: &Json) -> (r: String)
    ensures
        r@ == json_written(doc.model()),
{
    value_of(doc).to_string()
}

} // verus!
