//! A JSON document as a tree of plain values, and the trusted parse that
//! produces it.  Numbers stay opaque: the graph description never reads
//! one.

use vstd::prelude::*;

use crate::strutil::str_eq;

verus! {

#[verifier::external_type_specification]
#[verifier::external_body]
pub struct ExValue(serde_json::Value);

/// One JSON value: the library's own tree of plain values.
pub enum JsonValue {
    Null,
    Bool(bool),
    Number,
    Text(String),
    Array(Vec<JsonValue>),
    Object(Vec<(String, JsonValue)>),
}

/// Mathematical model of one JSON value.
pub ghost enum SpecJson {
    Null,
    Bool(bool),
    Number,
    Text(Seq<char>),
    Array(Seq<SpecJson>),
    Object(Seq<(Seq<char>, SpecJson)>),
}

/// The model of a JSON value, node by node.
pub open spec fn json_view(v: JsonValue) -> SpecJson
    decreases v,
{
    match v {
        JsonValue::Null => SpecJson::Null,
        JsonValue::Bool(b) => SpecJson::Bool(b),
        JsonValue::Number => SpecJson::Number,
        JsonValue::Text(s) => SpecJson::Text(s@),
        JsonValue::Array(items) => SpecJson::Array(json_views(items@)),
        JsonValue::Object(pairs) => SpecJson::Object(json_pair_views(pairs@)),
    }
}

/// The models of a sequence of JSON values.
pub open spec fn json_views(items: Seq<JsonValue>) -> Seq<SpecJson>
    decreases items,
{
    if items.len() == 0 {
        Seq::empty()
    } else {
        seq![json_view(items[0])] + json_views(items.drop_first())
    }
}

/// The models of a sequence of key–value pairs.
pub open spec fn json_pair_views(pairs: Seq<(String, JsonValue)>) -> Seq<(Seq<char>, SpecJson)>
    decreases pairs,
{
    if pairs.len() == 0 {
        Seq::empty()
    } else {
        seq![(pairs[0].0@, json_view(pairs[0].1))] + json_pair_views(pairs.drop_first())
    }
}

impl View for JsonValue {
    type V = SpecJson;

    open spec fn view(&self) -> SpecJson {
        json_view(*self)
    }
}

pub proof fn lemma_json_views_len(items: Seq<JsonValue>)
    ensures
        json_views(items).len() == items.len(),
    decreases items.len(),
{
    if items.len() > 0 {
        lemma_json_views_len(items.drop_first());
    }
}

pub proof fn lemma_json_views_index(items: Seq<JsonValue>, i: int)
    requires
        0 <= i < items.len(),
    ensures
        json_views(items)[i] == json_view(items[i]),
    decreases i,
{
    lemma_json_views_len(items.drop_first());
    if i > 0 {
        lemma_json_views_index(items.drop_first(), i - 1);
        assert(items.drop_first()[i - 1] == items[i]);
    }
}

pub proof fn lemma_json_pair_views_len(pairs: Seq<(String, JsonValue)>)
    ensures
        json_pair_views(pairs).len() == pairs.len(),
    decreases pairs.len(),
{
    if pairs.len() > 0 {
        lemma_json_pair_views_len(pairs.drop_first());
    }
}

pub proof fn lemma_json_pair_views_index(pairs: Seq<(String, JsonValue)>, i: int)
    requires
        0 <= i < pairs.len(),
    ensures
        json_pair_views(pairs)[i] == (pairs[i].0@, json_view(pairs[i].1)),
    decreases i,
{
    lemma_json_pair_views_len(pairs.drop_first());
    if i > 0 {
        lemma_json_pair_views_index(pairs.drop_first(), i - 1);
        assert(pairs.drop_first()[i - 1] == pairs[i]);
    }
}

/// The JSON document the text denotes: `None` when the text is not a
/// well-formed JSON document, and otherwise its tree, with numbers
/// opaque.  A function of the text alone.
pub uninterp spec fn json_doc_of(text: Seq<char>) -> Option<SpecJson>;

/// Relies on the variants of the `serde_json::Value` enum: converts a
/// parsed document into the library's tree, one arm per variant, moving
/// the fields; a number's value is dropped, as nothing here reads one.
#[verifier::external_body]
fn convert_json(value: serde_json::Value) -> JsonValue {
    match value {
        serde_json::Value::Null => JsonValue::Null,
        serde_json::Value::Bool(b) => JsonValue::Bool(b),
        serde_json::Value::Number(_) => JsonValue::Number,
        serde_json::Value::String(s) => JsonValue::Text(s),
        serde_json::Value::Array(items) => JsonValue::Array(
            items.into_iter().map(convert_json).collect(),
        ),
        serde_json::Value::Object(entries) => JsonValue::Object(
            entries.into_iter().map(|(k, v)| (k, convert_json(v))).collect(),
        ),
    }
}

/// Relies on `serde_json::from_str::<serde_json::Value>`: whether and
/// what it parses depends on the text alone.  The parsed document is
/// handed to `convert_json`; a JSON object holds each key once.
#[verifier::external_body]
pub fn json_parse(text: &str) -> (r: Option<JsonValue>)
    ensures
        match r {
            Some(v) => json_doc_of(text@) == Some(v@),
            None => json_doc_of(text@) is None,
        },
{
    serde_json::from_str::<serde_json::Value>(text).ok().map(convert_json)
}

/// The value of the first pair whose key is `key`.
pub open spec fn spec_field(pairs: Seq<(Seq<char>, SpecJson)>, key: Seq<char>) -> Option<SpecJson>
    decreases pairs.len(),
{
    if pairs.len() == 0 {
        None
    } else if pairs[0].0 == key {
        Some(pairs[0].1)
    } else {
        spec_field(pairs.drop_first(), key)
    }
}

/// The value under `key` among the pairs of a JSON object.
pub fn field_of<'a>(pairs: &'a Vec<(String, JsonValue)>, key: &str) -> (r: Option<&'a JsonValue>)
    ensures
        match r {
            Some(v) => spec_field(json_pair_views(pairs@), key@) == Some(v@),
            None => spec_field(json_pair_views(pairs@), key@) is None,
        },
{
    let ghost pview = json_pair_views(pairs@);
    proof {
        lemma_json_pair_views_len(pairs@);
        assert(pview.skip(0) =~= pview);
    }
    let n = pairs.len();
    let mut i: usize = 0;
    while i < n
        invariant
            i <= n,
            n == pairs@.len(),
            pview == json_pair_views(pairs@),
            pview.len() == n,
            spec_field(pview, key@) == spec_field(pview.skip(i as int), key@),
        decreases n - i,
    {
        proof {
            lemma_json_pair_views_index(pairs@, i as int);
            assert(pview.skip(i as int)[0] == pview[i as int]);
        }
        if str_eq(pairs[i].0.as_str(), key) {
            return Some(&pairs[i].1);
        }
        proof {
            assert(pview.skip(i as int).drop_first() =~= pview.skip(i + 1));
        }
        i += 1;
    }
    proof {
        assert(pview.skip(n as int) =~= Seq::<(Seq<char>, SpecJson)>::empty());
    }
    None
}

} // verus!
