//! JSON documents, held as `serde_json` values.
use serde_json::Value;
use vstd::prelude::*;

use crate::error::{IoError, IoErrorKind};
use crate::text::decimal;

verus! {

/// What a JSON document says.
pub enum JsonTree {
    Null,
    Bool(bool),
    /// A number, by its text.
    Number(Seq<char>),
    Text(Seq<char>),
    Array(Seq<JsonTree>),
    Object(Map<Seq<char>, JsonTree>),
}

/// `serde_json::Value`, a JSON document in memory. What it holds is [`json_tree`].
#[verifier::external_type_specification]
#[verifier::external_body]
pub struct ExValue(serde_json::Value);

/// What a `serde_json::Value` holds.
pub uninterp spec fn json_tree(v: serde_json::Value) -> JsonTree;

/// The compact text that `serde_json` writes for a document.
pub uninterp spec fn json_text(tree: JsonTree) -> Seq<char>;

/// What `serde_json::from_slice` reads from `bytes`: the document, or the text of the error.
pub uninterp spec fn json_document(bytes: Seq<u8>) -> Result<JsonTree, Seq<char>>;

/// Whether no two fields have the same name.
pub open spec fn distinct_names(fields: Seq<(String, Value)>) -> bool {
    forall|i: int, j: int|
        0 <= i < j < fields.len() ==> #[trigger] fields[i].0@ != #[trigger] fields[j].0@
}

/// The fields of an object, by name.
pub open spec fn json_fields(fields: Seq<(String, Value)>) -> Map<Seq<char>, JsonTree>
    decreases fields.len(),
{
    if fields.len() == 0 {
        Map::empty()
    } else {
        json_fields(fields.drop_last()).insert(fields.last().0@, json_tree(fields.last().1))
    }
}

/// `serde_json::from_slice`, read as a `Value`.
///
/// Trusted: what it returns depends on the bytes alone.
#[verifier::external_body]
fn json_from_slice(bytes: &[u8]) -> (r: Result<Value, String>)
    ensures
        match r {
            Ok(v) => json_document(bytes@) == Ok::<JsonTree, Seq<char>>(json_tree(v)),
            Err(message) => json_document(bytes@) == Err::<JsonTree, Seq<char>>(message@),
        },
{
    serde_json::from_slice(bytes).map_err(|e| e.to_string())
}

/// `Value::to_string`, the compact text of a document.
///
/// Trusted: the text depends on what the document holds alone.
#[verifier::external_body]
pub(crate) fn json_to_string(v: &Value) -> (s: String)
    ensures
        s@ == json_text(json_tree(*v)),
{
    v.to_string()
}

/// `Value::Null`.
///
/// Trusted: it holds null.
#[verifier::external_body]
pub(crate) fn json_null() -> (v: Value)
    ensures
        json_tree(v) == JsonTree::Null,
{
    Value::Null
}

/// `Value::from` on a `bool`.
///
/// Trusted: it holds that boolean.
#[verifier::external_body]
pub(crate) fn json_bool(b: bool) -> (v: Value)
    ensures
        json_tree(v) == JsonTree::Bool(b),
{
    Value::from(b)
}

/// `Value::from` on a `u16`.
///
/// Trusted: it holds that number, whose text is its decimal digits.
#[verifier::external_body]
pub(crate) fn json_number(n: u16) -> (v: Value)
    ensures
        json_tree(v) == JsonTree::Number(decimal(n as nat)),
{
    Value::from(n)
}

/// `Value::from` on a `&str`.
///
/// Trusted: it holds that text.
#[verifier::external_body]
pub(crate) fn json_string(s: &str) -> (v: Value)
    ensures
        json_tree(v) == JsonTree::Text(s@),
{
    Value::from(s)
}

/// `Value::from_iter` on names and values.
///
/// Trusted: it holds an object with those fields.
#[verifier::external_body]
fn json_object(fields: Vec<(String, Value)>) -> (v: Value)
    requires
        distinct_names(fields@),
    ensures
        json_tree(v) == JsonTree::Object(json_fields(fields@)),
{
    Value::from_iter(fields)
}

/// A name that a field has is in the object.
proof fn lemma_field_names(fields: Seq<(String, Value)>)
    ensures
        forall|i: int|
            0 <= i < fields.len() ==> json_fields(fields).contains_key(#[trigger] fields[i].0@),
    decreases fields.len(),
{
    if fields.len() > 0 {
        let front = fields.drop_last();
        lemma_field_names(front);
        assert forall|i: int| 0 <= i < fields.len() implies json_fields(fields).contains_key(
            #[trigger] fields[i].0@,
        ) by {
            if i < front.len() {
                assert(front[i] == fields[i]);
                assert(json_fields(front).contains_key(front[i].0@));
            }
        }
    }
}

/// An object while it is put together.
pub(crate) struct JsonObject {
    fields: Vec<(String, Value)>,
}

impl View for JsonObject {
    type V = Map<Seq<char>, JsonTree>;

    closed spec fn view(&self) -> Map<Seq<char>, JsonTree> {
        json_fields(self.fields@)
    }
}

impl JsonObject {
    #[verifier::type_invariant]
    closed spec fn inv(self) -> bool {
        distinct_names(self.fields@)
    }

    /// An object without fields.
    pub(crate) fn new() -> (r: JsonObject)
        ensures
            r@ == Map::<Seq<char>, JsonTree>::empty(),
    {
        JsonObject { fields: Vec::new() }
    }

    /// The object with one more field, whose name is new.
    pub(crate) fn with(self, name: &str, value: Value) -> (r: JsonObject)
        requires
            !self@.contains_key(name@),
        ensures
            r@ == self@.insert(name@, json_tree(value)),
    {
        proof {
            use_type_invariant(&self);
            lemma_field_names(self.fields@);
        }
        let ghost before = self.fields@;
        let JsonObject { mut fields } = self;
        fields.push((name.to_owned(), value));
        proof {
            assert(fields@.drop_last() =~= before);
            assert forall|i: int, j: int| 0 <= i < j < fields@.len() implies #[trigger] fields@[i].0@
                != #[trigger] fields@[j].0@ by {
                assert(before[i] == fields@[i]);
                if j < before.len() {
                    assert(before[j] == fields@[j]);
                }
            }
        }
        JsonObject { fields }
    }

    /// The finished document.
    pub(crate) fn finish(self) -> (v: Value)
        ensures
            json_tree(v) == JsonTree::Object(self@),
    {
        proof {
            use_type_invariant(&self);
        }
        let JsonObject { fields } = self;
        json_object(fields)
    }
}

/// Reads a request body as a JSON document.
pub fn parse_json_body(body: &[u8]) -> (r: Result<Value, IoError>)
    ensures
        match json_document(body@) {
            Ok(tree) => r matches Ok(v) && json_tree(v) == tree,
            Err(message) => r matches Err(e) && e.kind == IoErrorKind::InvalidData && e.message@
                == message,
        },
{
    match json_from_slice(body) {
        Ok(v) => Ok(v),
        Err(message) => Err(IoError { kind: IoErrorKind::InvalidData, message }),
    }
}

} // verus!
