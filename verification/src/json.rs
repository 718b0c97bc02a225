//! JSON documents, as `serde_json` reads them.

use vstd::prelude::*;

verus! {

broadcast use vstd::string::group_string_axioms;

/// `serde_json::Value`, held as it is.
#[verifier::external_type_specification]
#[verifier::external_body]
pub struct ExJsonValue(serde_json::Value);

/// What a JSON value holds. A number is held as it is written out; the
/// members of an object stand in the order in which they are walked, each
/// key once.
pub ghost enum JsonView {
    Null,
    Bool(bool),
    Number(Seq<char>),
    Text(Seq<char>),
    Array(Seq<JsonView>),
    Object(Seq<(Seq<char>, JsonView)>),
}

/// What a `serde_json::Value` holds.
pub uninterp spec fn json_tree(v: serde_json::Value) -> JsonView;

/// The document that a text spells out, where it spells one.
pub uninterp spec fn json_document(text: Seq<char>) -> Option<JsonView>;

/// A value as compact JSON text.
pub uninterp spec fn json_text(v: JsonView) -> Seq<char>;

/// What each value of a list holds.
pub open spec fn json_trees(s: Seq<serde_json::Value>) -> Seq<JsonView> {
    Seq::new(s.len(), |i: int| json_tree(s[i]))
}

/// The members of an object, and none of another value.
pub open spec fn json_members(v: JsonView) -> Seq<(Seq<char>, JsonView)> {
    match v {
        JsonView::Object(members) => members,
        _ => Seq::empty(),
    }
}

/// The first place from `i` on with the key `k`.
pub open spec fn member_place(members: Seq<(Seq<char>, JsonView)>, k: Seq<char>, i: int) -> Option<
    int,
>
    decreases members.len() - i,
{
    if i < 0 || i >= members.len() {
        None
    } else if members[i].0 == k {
        Some(i)
    } else {
        member_place(members, k, i + 1)
    }
}

/// The member of an object under the key `k`.
pub open spec fn json_member(v: JsonView, k: Seq<char>) -> Option<JsonView> {
    match member_place(json_members(v), k, 0) {
        Some(i) => Some(json_members(v)[i].1),
        None => None,
    }
}

/// The text that a value is, where it is one.
pub open spec fn json_string(v: JsonView) -> Option<Seq<char>> {
    match v {
        JsonView::Text(s) => Some(s),
        _ => None,
    }
}

/// A JSON value.
#[derive(Debug)]
pub struct Json(pub serde_json::Value);

impl DeepView for Json {
    type V = JsonView;

    open spec fn deep_view(&self) -> JsonView {
        json_tree(self.0)
    }
}

/// Reads a document with `serde_json::from_str`: the outcome depends on the
/// text alone. Which texts are documents, and what they spell out, is left
/// to `serde_json`.
#[verifier::external_body]
pub(crate) fn parse(text: &str) -> (r: Option<serde_json::Value>)
    ensures
        json_document(text@) == (match r {
            Some(v) => Some(json_tree(v)),
            None => None,
        }),
{
    serde_json::from_str(text).ok()
}

/// `serde_json::Value::get` with a text: the member of an object under that
/// key, and nothing for another value.
#[verifier::external_body]
pub(crate) fn member<'a>(v: &'a serde_json::Value, k: &str) -> (r: Option<&'a serde_json::Value>)
    ensures
        json_member(json_tree(*v), k@) == (match r {
            Some(m) => Some(json_tree(*m)),
            None => None,
        }),
{
    v.get(k)
}

/// `serde_json::Value::as_str`: the text, where the value is one.
#[verifier::external_body]
pub(crate) fn string_of(v: &serde_json::Value) -> (r: Option<&str>)
    ensures
        json_string(json_tree(*v)) == (match r {
            Some(s) => Some(s@),
            None => None,
        }),
{
    v.as_str()
}

/// `serde_json::Value::as_array`: the elements, where the value is an array.
#[verifier::external_body]
pub(crate) fn items_of(v: &serde_json::Value) -> (r: Option<&Vec<serde_json::Value>>)
    ensures
        match r {
            Some(items) => json_tree(*v) == JsonView::Array(json_trees(items@)),
            None => !(json_tree(*v) is Array),
        },
{
    v.as_array()
}

/// The keys and the values of a list of members.
pub open spec fn member_views(s: Seq<(&String, &serde_json::Value)>) -> Seq<(Seq<char>, JsonView)> {
    Seq::new(s.len(), |i: int| (s[i].0@, json_tree(*s[i].1)))
}

/// `serde_json::Value::as_object` and the walk over the map it gives: the
/// members, where the value is an object.
#[verifier::external_body]
pub(crate) fn members_of(v: &serde_json::Value) -> (r: Option<Vec<(&String, &serde_json::Value)>>)
    ensures
        match r {
            Some(members) => json_tree(*v) == JsonView::Object(member_views(members@)),
            None => !(json_tree(*v) is Object),
        },
{
    v.as_object().map(|map| map.iter().collect())
}

/// `serde_json::Value::to_string`: the value as compact JSON, a text that
/// depends on what the value holds alone.
#[verifier::external_body]
pub(crate) fn written(v: &serde_json::Value) -> (r: String)
    ensures
        r@ == json_text(json_tree(*v)),
{
    v.to_string()
}

} // verus!
