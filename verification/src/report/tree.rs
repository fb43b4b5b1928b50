//! Documents as trees, written by `serde_json`.
use serde_json::Value;
use vstd::prelude::*;

verus! {

/// A document, or a part of one.
#[derive(Debug)]
pub enum Json {
    Number(u64),
    Text(String),
    List(Vec<Json>),
    Object(Vec<(String, Json)>),
}

pub enum JsonView {
    Number(u64),
    Text(Seq<char>),
    List(Seq<JsonView>),
    Object(Seq<(Seq<char>, JsonView)>),
}

/// What a document holds.
pub open spec fn tree(j: Json) -> JsonView
    decreases j,
{
    match j {
        Json::Number(n) => JsonView::Number(n),
        Json::Text(s) => JsonView::Text(s@),
        Json::List(v) => JsonView::List(trees(v@)),
        Json::Object(v) => JsonView::Object(fields(v@)),
    }
}

pub open spec fn trees(v: Seq<Json>) -> Seq<JsonView>
    decreases v,
{
    if v.len() == 0 {
        Seq::empty()
    } else {
        trees(v.drop_last()).push(tree(v.last()))
    }
}

pub open spec fn fields(v: Seq<(String, Json)>) -> Seq<(Seq<char>, JsonView)>
    decreases v,
{
    if v.len() == 0 {
        Seq::empty()
    } else {
        fields(v.drop_last()).push((v.last().0@, tree(v.last().1)))
    }
}

/// A value of `serde_json`.
#[verifier::external_type_specification]
#[verifier::external_body]
pub struct ExValue(serde_json::Value);

/// The text of a document as `serde_json` writes it over several lines, with the
/// fields of every object in the order of their names; or what it has against it.
pub uninterp spec fn json_text(v: JsonView) -> Result<Seq<char>, Seq<char>>;

/// The variants of `serde_json::Value`, one for one.
#[verifier::external_body]
fn value_of(j: &Json) -> Value {
    match j {
        Json::Number(n) => Value::from(*n),
        Json::Text(s) => Value::String(s.clone()),
        Json::List(v) => Value::Array(v.iter().map(value_of).collect()),
        Json::Object(v) => Value::Object(v.iter().map(|f| (f.0.clone(), value_of(&f.1))).collect()),
    }
}

/// `serde_json::to_string_pretty` of the value that the document stands for:
/// named, not spelled out.
#[verifier::external_body]
pub(crate) fn write_json(j: &Json) -> (r: Result<String, String>)
    ensures
        match r {
            Ok(s) => json_text(tree(*j)) == Ok::<Seq<char>, Seq<char>>(s@),
            Err(e) => json_text(tree(*j)) == Err::<Seq<char>, Seq<char>>(e@),
        },
{
    serde_json::to_string_pretty(&value_of(j)).map_err(|e| e.to_string())
}

/// Adds a field to an object.
pub(crate) fn field(v: &mut Vec<(String, Json)>, name: &str, value: Json)
    ensures
        fields(final(v)@) == fields(old(v)@).push((name@, tree(value))),
{
    let ghost was = v@;
    v.push((name.to_owned(), value));
    assert(v@.drop_last() =~= was);
}

/// Adds an item to a list.
pub(crate) fn item(v: &mut Vec<Json>, value: Json)
    ensures
        trees(final(v)@) == trees(old(v)@).push(tree(value)),
{
    let ghost was = v@;
    v.push(value);
    assert(v@.drop_last() =~= was);
}

} // verus!
