//! JSON values as the frontmatter of an entry holds them.
use vstd::prelude::*;

verus! {

/// A JSON value as mathematical values.
pub enum Json {
    Null,
    Bool(bool),
    /// A number, held as the text that writes it.
    Number(Seq<char>),
    Str(Seq<char>),
    Array(Seq<Json>),
    /// Members in order of their keys.
    Object(Seq<(Seq<char>, Json)>),
}

/// A JSON value. Numbers are held as the text that writes them; objects as
/// their members, ordered by key with no key twice.
#[derive(Debug)]
pub enum JsonValue {
    Null,
    Bool(bool),
    Number(String),
    String(String),
    Array(Vec<JsonValue>),
    Object(Vec<(String, JsonValue)>),
}

impl JsonValue {
    pub open spec fn model(self) -> Json
        decreases self,
    {
        match self {
            JsonValue::Null => Json::Null,
            JsonValue::Bool(b) => Json::Bool(b),
            JsonValue::Number(n) => Json::Number(n@),
            JsonValue::String(s) => Json::Str(s@),
            JsonValue::Array(v) => Json::Array(
                Seq::new(
                    v.len() as nat,
                    |i: int|
                        if 0 <= i < v.len() {
                            v[i].model()
                        } else {
                            Json::Null
                        },
                ),
            ),
            JsonValue::Object(m) => Json::Object(
                Seq::new(
                    m.len() as nat,
                    |i: int|
                        if 0 <= i < m.len() {
                            (m[i].0@, m[i].1.model())
                        } else {
                            (Seq::<char>::empty(), Json::Null)
                        },
                ),
            ),
        }
    }
}

impl View for JsonValue {
    type V = Json;

    open spec fn view(&self) -> Json {
        self.model()
    }
}

#[verifier::external_type_specification]
#[verifier::external_body]
pub struct ExSerdeValue(serde_json::Value);

/// What `serde_json::from_str::<serde_json::Value>` makes of a text, or
/// `None` when it refuses the text.
pub uninterp spec fn json_parse(text: Seq<char>) -> Option<Json>;

/// The compact text `serde_json` writes for a value (its `Display`).
pub uninterp spec fn json_text(v: Json) -> Seq<char>;

/// `serde_json`'s value as a `JsonValue`: variants one for one, numbers by
/// their text, objects in the order `serde_json::Map` holds them.
#[verifier::external_body]
fn from_serde(v: serde_json::Value) -> JsonValue {
    match v {
        serde_json::Value::Null => JsonValue::Null,
        serde_json::Value::Bool(b) => JsonValue::Bool(b),
        serde_json::Value::Number(n) => JsonValue::Number(n.to_string()),
        serde_json::Value::String(s) => JsonValue::String(s),
        serde_json::Value::Array(a) => JsonValue::Array(a.into_iter().map(from_serde).collect()),
        serde_json::Value::Object(m) => JsonValue::Object(
            m.into_iter().map(|(k, x)| (k, from_serde(x))).collect(),
        ),
    }
}

/// A `JsonValue` as `serde_json`'s value: variants one for one; a number
/// whose text `serde_json::Number` does not read becomes null.
#[verifier::external_body]
fn to_serde(v: &JsonValue) -> serde_json::Value {
    match v {
        JsonValue::Null => serde_json::Value::Null,
        JsonValue::Bool(b) => serde_json::Value::Bool(*b),
        JsonValue::Number(n) => n.parse::<serde_json::Number>().map(serde_json::Value::Number).unwrap_or(
            serde_json::Value::Null,
        ),
        JsonValue::String(s) => serde_json::Value::String(s.clone()),
        JsonValue::Array(a) => serde_json::Value::Array(a.iter().map(to_serde).collect()),
        JsonValue::Object(m) => serde_json::Value::Object(
            m.iter().map(|(k, x)| (k.clone(), to_serde(x))).collect(),
        ),
    }
}

/// Reads JSON text with `serde_json::from_str`. The contract names the
/// result; it says nothing of what `serde_json` accepts or builds.
#[verifier::external_body]
pub(crate) fn parse_json(text: &str) -> (r: Option<JsonValue>)
    ensures
        match r {
            Some(v) => json_parse(text@) == Some(v@),
            None => json_parse(text@) is None,
        },
{
    match serde_json::from_str::<serde_json::Value>(text) {
        Ok(v) => Some(from_serde(v)),
        Err(_) => None,
    }
}

/// Writes a value as compact JSON with `serde_json`'s `Display`. The
/// contract names the result; it says nothing of the text's form.
#[verifier::external_body]
pub(crate) fn display_json(v: &JsonValue) -> (r: String)
    ensures
        r@ == json_text(v@),
{
    to_serde(v).to_string()
}

} // verus!
