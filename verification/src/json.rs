//! JSON documents, and their text as `serde_json` writes it.

use vstd::prelude::*;

verus! {

/// A JSON document.
#[derive(Debug)]
pub enum Json {
    Number(u64),
    Text(String),
    Array(Vec<Json>),
    Object(Vec<(String, Json)>),
}

/// What a JSON document says.
pub enum JsonView {
    Number(u64),
    Text(Seq<char>),
    Array(Seq<JsonView>),
    Object(Seq<(Seq<char>, JsonView)>),
}

impl View for Json {
    type V = JsonView;

    open spec fn view(&self) -> JsonView
        decreases self,
    {
        match self {
            Json::Number(n) => JsonView::Number(*n),
            Json::Text(text) => JsonView::Text(text@),
            Json::Array(items) => JsonView::Array(
                Seq::new(
                    items@.len(),
                    |i: int|
                        if 0 <= i < items@.len() {
                            items@[i].view()
                        } else {
                            JsonView::Number(0)
                        },
                ),
            ),
            Json::Object(fields) => JsonView::Object(
                Seq::new(
                    fields@.len(),
                    |i: int|
                        if 0 <= i < fields@.len() {
                            (fields@[i].0@, fields@[i].1.view())
                        } else {
                            (seq![], JsonView::Number(0))
                        },
                ),
            ),
        }
    }
}

/// What the items of an array say.
pub open spec fn item_views(items: Seq<Json>) -> Seq<JsonView> {
    items.map_values(|item: Json| item@)
}

/// What the fields of an object say.
pub open spec fn field_views(fields: Seq<(String, Json)>) -> Seq<(Seq<char>, JsonView)> {
    fields.map_values(|field: (String, Json)| (field.0@, field.1@))
}

impl Json {
    pub fn text(text: &str) -> (r: Self)
        ensures
            r@ == JsonView::Text(text@),
    {
        Json::Text(text.to_owned())
    }

    pub fn array(items: Vec<Json>) -> (r: Self)
        ensures
            r@ == JsonView::Array(item_views(items@)),
    {
        let r = Json::Array(items);
        proof {
            reveal_with_fuel(<Json as View>::view, 2);
        }
        assert(r@->Array_0 == item_views(items@));
        r
    }

    pub fn object(fields: Vec<(String, Json)>) -> (r: Self)
        ensures
            r@ == JsonView::Object(field_views(fields@)),
    {
        let r = Json::Object(fields);
        proof {
            reveal_with_fuel(<Json as View>::view, 2);
        }
        assert(r@->Object_0 == field_views(fields@));
        r
    }

    /// Adds a field to the fields of an object.
    pub fn add_field(fields: &mut Vec<(String, Json)>, key: &str, value: Json)
        ensures
            field_views(final(fields)@) == field_views(old(fields)@).push((key@, value@)),
    {
        fields.push((key.to_owned(), value));
        assert(field_views(fields@) == field_views(old(fields)@).push((key@, value@)));
    }
}

/// `serde_json`'s own document type.
#[verifier::external_type_specification]
#[verifier::external_body]
pub struct ExValue(serde_json::Value);

/// The compact text that `serde_json::to_string` writes for a document.
pub uninterp spec fn json_text(document: JsonView) -> Seq<char>;

/// The document as a `serde_json::Value`, variant for variant. Nothing is claimed of
/// the value but through the text that is written for it.
#[verifier::external_body]
fn json_value(document: &Json) -> (r: serde_json::Value) {
    match document {
        Json::Number(n) => serde_json::Value::from(*n),
        Json::Text(text) => serde_json::Value::from(text.as_str()),
        Json::Array(items) => items.iter().map(json_value).collect(),
        Json::Object(fields) => fields.iter().map(|f| (f.0.as_str(), json_value(&f.1))).collect(),
    }
}

/// Calls `serde_json::to_string` on the document as a `serde_json::Value`. The contract
/// claims that the text depends on what the document says and on nothing else. The
/// call does not fail on such a value: its keys are strings.
#[verifier::external_body]
pub(crate) fn write_json(document: &Json) -> (r: String)
    ensures
        r@ == json_text(document@),
{
    serde_json::to_string(&json_value(document)).unwrap()
}

} // verus!
