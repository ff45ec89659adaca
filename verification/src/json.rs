//! JSON values as the importers see them. The text is read by `serde_json`; what is held of
//! it here is what the importers ask for.

use serde_json::{Error as JsonFault, Value as JsonNode};
use vstd::prelude::*;

verus! {

#[verifier::external_type_specification]
#[verifier::external_body]
pub struct ExJsonNode(JsonNode);

#[verifier::external_type_specification]
#[verifier::external_body]
pub struct ExJsonFault(JsonFault);

/// A JSON value. Of a number only what `as_u64` says of it is held: its value, when it is an
/// integer of 64 bits without a sign.
pub enum Json {
    Null,
    Bool(bool),
    Number(Option<u64>),
    Text(String),
    Array(Vec<Json>),
    Object(Vec<(String, Json)>),
}

/// The content of a [`Json`].
pub enum JsonView {
    Null,
    Bool(bool),
    Number(Option<u64>),
    Text(Seq<char>),
    Array(Seq<JsonView>),
    Object(Seq<(Seq<char>, JsonView)>),
}

/// The content of a JSON value.
pub open spec fn json_of(j: Json) -> JsonView
    decreases j,
{
    match j {
        Json::Null => JsonView::Null,
        Json::Bool(b) => JsonView::Bool(b),
        Json::Number(n) => JsonView::Number(n),
        Json::Text(s) => JsonView::Text(s@),
        Json::Array(v) => JsonView::Array(
            Seq::new(
                v@.len(),
                |i: int|
                    if 0 <= i < v@.len() {
                        json_of(v@[i])
                    } else {
                        JsonView::Null
                    },
            ),
        ),
        Json::Object(v) => JsonView::Object(
            Seq::new(
                v@.len(),
                |i: int|
                    if 0 <= i < v@.len() {
                        (v@[i].0@, json_of(v@[i].1))
                    } else {
                        (Seq::empty(), JsonView::Null)
                    },
            ),
        ),
    }
}

impl View for Json {
    type V = JsonView;

    open spec fn view(&self) -> JsonView {
        json_of(*self)
    }
}

/// What `serde_json::from_str` makes of a text: the value, or the text of the error.
pub uninterp spec fn json_text(text: Seq<char>) -> Result<JsonView, Seq<char>>;

/// What a `serde_json::Value` holds.
pub uninterp spec fn json_value(v: JsonNode) -> JsonView;

/// How `serde_json::Error` prints itself.
pub uninterp spec fn json_error(e: JsonFault) -> Seq<char>;

/// One level of a `serde_json::Value`.
pub enum Shape {
    Null,
    Bool(bool),
    Number(Option<u64>),
    Text(String),
    Array(Vec<JsonNode>),
    Object(Vec<(String, JsonNode)>),
}

/// What one level of a value stands for.
pub open spec fn shape_of(s: Shape) -> JsonView {
    match s {
        Shape::Null => JsonView::Null,
        Shape::Bool(b) => JsonView::Bool(b),
        Shape::Number(n) => JsonView::Number(n),
        Shape::Text(t) => JsonView::Text(t@),
        Shape::Array(v) => JsonView::Array(Seq::new(v@.len(), |i: int| json_value(v@[i]))),
        Shape::Object(v) => JsonView::Object(
            Seq::new(v@.len(), |i: int| (v@[i].0@, json_value(v@[i].1))),
        ),
    }
}

/// `serde_json::from_str` into a `serde_json::Value`. Its result is a function of the text.
#[verifier::external_body]
fn read_value(text: &str) -> (r: Result<JsonNode, JsonFault>)
    ensures
        match r {
            Ok(v) => json_text(text@) == Ok::<JsonView, Seq<char>>(json_value(v)),
            Err(e) => json_text(text@) == Err::<JsonView, Seq<char>>(json_error(e)),
        },
{
    serde_json::from_str::<JsonNode>(text)
}

/// `Display` of a `serde_json::Error`.
#[verifier::external_body]
fn error_text(e: &JsonFault) -> (r: String)
    ensures
        r@ == json_error(*e),
{
    e.to_string()
}

/// The variants of `serde_json::Value`, one for one; a number by `Number::as_u64`, an object
/// as the list of its entries.
#[verifier::external_body]
fn open_value(v: JsonNode) -> (r: Shape)
    ensures
        shape_of(r) == json_value(v),
{
    match v {
        JsonNode::Null => Shape::Null,
        JsonNode::Bool(b) => Shape::Bool(b),
        JsonNode::Number(n) => Shape::Number(n.as_u64()),
        JsonNode::String(s) => Shape::Text(s),
        JsonNode::Array(a) => Shape::Array(a),
        JsonNode::Object(m) => Shape::Object(m.into_iter().collect()),
    }
}

fn convert(v: JsonNode) -> (r: Json)
    ensures
        r@ == json_value(v),
    decreases json_value(v),
{
    let shape = open_value(v);
    match shape {
        Shape::Null => Json::Null,
        Shape::Bool(b) => Json::Bool(b),
        Shape::Number(n) => Json::Number(n),
        Shape::Text(s) => Json::Text(s),
        Shape::Array(items) => {
            let ghost all = items@;
            let mut out: Vec<Json> = Vec::new();
            for item in it: items
                invariant
                    it.seq() == all,
                    json_value(v) == JsonView::Array(
                        Seq::new(all.len(), |i: int| json_value(all[i])),
                    ),
                    out@.len() == it.index(),
                    forall|k: int| 0 <= k < it.index() ==> (#[trigger] out@[k])@ == json_value(
                        all[k],
                    ),
            {
                assert(item == all[it.index() as int]);
                let ghost inner = json_value(v)->Array_0;
                assert(inner[it.index() as int] == json_value(item));
                assert(decreases_to!(json_value(v) => inner));
                out.push(convert(item));
            }
            let r = Json::Array(out);
            assert(r@->Array_0 =~= json_value(v)->Array_0);
            r
        },
        Shape::Object(entries) => {
            let ghost all = entries@;
            let mut out: Vec<(String, Json)> = Vec::new();
            for entry in it: entries
                invariant
                    it.seq() == all,
                    json_value(v) == JsonView::Object(
                        Seq::new(all.len(), |i: int| (all[i].0@, json_value(all[i].1))),
                    ),
                    out@.len() == it.index(),
                    forall|k: int|
                        0 <= k < it.index() ==> (#[trigger] out@[k]).0@ == all[k].0@ && out@[k].1@
                            == json_value(all[k].1),
            {
                assert(entry == all[it.index() as int]);
                let ghost inner = json_value(v)->Object_0;
                assert(inner[it.index() as int].1 == json_value(entry.1));
                assert(decreases_to!(json_value(v) => inner));
                assert(decreases_to!(inner => inner[it.index() as int]));
                let (key, value) = entry;
                out.push((key, convert(value)));
            }
            let r = Json::Object(out);
            assert(r@->Object_0 =~= json_value(v)->Object_0);
            r
        },
    }
}

/// Reads a JSON text.
pub fn parse(text: &str) -> (r: Result<Json, String>)
    ensures
        match r {
            Ok(j) => json_text(text@) == Ok::<JsonView, Seq<char>>(j@),
            Err(e) => json_text(text@) == Err::<JsonView, Seq<char>>(e@),
        },
{
    match read_value(text) {
        Ok(v) => Ok(convert(v)),
        Err(e) => Err(error_text(&e)),
    }
}

/// How `serde_json` prints a text: in double quotes, with what JSON asks for escaped.
pub uninterp spec fn json_quoted(s: Seq<char>) -> Seq<char>;

/// `Display` of a `serde_json::Value::String`. The result is a function of the text.
#[verifier::external_body]
pub(crate) fn quote(s: &str) -> (r: String)
    ensures
        r@ == json_quoted(s@),
{
    JsonNode::from(s).to_string()
}

} // verus!
