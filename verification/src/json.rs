//! JSON values, as `serde_json` reads them.
//!
//! A [`serde_json::Value`] is modelled by a [`Tree`].

use vstd::prelude::*;

verus! {

/// What a JSON value says.
pub enum Tree {
    Null,
    Bool(bool),
    /// The number if it is an integer that fits, and its decimal notation.
    Number(Option<i64>, Seq<char>),
    Text(Seq<char>),
    Array(Seq<Tree>),
    /// The members, in the order in which they are walked.
    Object(Seq<(Seq<char>, Tree)>),
}

/// The value of `serde_json`.
#[verifier::external_type_specification]
#[verifier::external_body]
pub struct ExValue(serde_json::Value);

/// What a `serde_json::Value` holds.
pub uninterp spec fn tree_of(value: serde_json::Value) -> Tree;

/// What `serde_json::from_str` makes of a text: a value, or the text of its error.
pub uninterp spec fn json_of(text: Seq<char>) -> Result<Tree, Seq<char>>;

/// `serde_json::from_str` into a `Value`. What it accepts is left to `serde_json`.
#[verifier::external_body]
pub(crate) fn parse(text: &str) -> (r: Result<serde_json::Value, String>)
    ensures
        match r {
            Ok(v) => json_of(text@) == Ok::<Tree, Seq<char>>(tree_of(v)),
            Err(e) => json_of(text@) == Err::<Tree, Seq<char>>(e@),
        },
{
    serde_json::from_str(text).map_err(|e| e.to_string())
}

/// `Value::as_str`.
#[verifier::external_body]
pub(crate) fn as_str(value: &serde_json::Value) -> (r: Option<&str>)
    ensures
        match tree_of(*value) {
            Tree::Text(s) => r is Some && r->0@ == s,
            _ => r is None,
        },
{
    value.as_str()
}

/// `Value::as_i64`.
#[verifier::external_body]
pub(crate) fn as_i64(value: &serde_json::Value) -> (r: Option<i64>)
    ensures
        r == integer(tree_of(*value)),
{
    value.as_i64()
}

/// `Value::as_number`, as the decimal notation of the number.
#[verifier::external_body]
pub(crate) fn number_text(value: &serde_json::Value) -> (r: Option<String>)
    ensures
        match tree_of(*value) {
            Tree::Number(_, text) => r is Some && r->0@ == text,
            _ => r is None,
        },
{
    value.as_number().map(|n| n.to_string())
}

/// `Value::get` by name: the member of an object. An object has no two members of one name.
#[verifier::external_body]
pub(crate) fn get<'a>(value: &'a serde_json::Value, name: &str) -> (r: Option<&'a serde_json::Value>)
    ensures
        match r {
            Some(v) => field(tree_of(*value), name@) == Some(tree_of(*v)),
            None => field(tree_of(*value), name@) is None,
        },
{
    value.get(name)
}

/// `Value::as_object`, as the list of its members.
#[verifier::external_body]
pub(crate) fn members(value: &serde_json::Value) -> (r: Option<Vec<(&String, &serde_json::Value)>>)
    ensures
        match tree_of(*value) {
            Tree::Object(m) => r is Some && r->0@.len() == m.len() && forall|i: int|
                0 <= i < m.len() ==> (#[trigger] r->0@[i]).0@ == m[i].0 && tree_of(*r->0@[i].1)
                    == m[i].1,
            _ => r is None,
        },
{
    value.as_object().map(|o| o.iter().collect())
}

/// What `Value::to_string` writes for a value.
pub uninterp spec fn json_text(tree: Tree) -> Seq<char>;

/// `Value::to_string`. How a value is written is left to `serde_json`.
#[verifier::external_body]
pub(crate) fn value_text(value: &serde_json::Value) -> (s: String)
    ensures
        s@ == json_text(tree_of(*value)),
{
    value.to_string()
}

/// A member of an object stands at position `i` under this name.
pub open spec fn member_at(object: Seq<(Seq<char>, Tree)>, name: Seq<char>, i: int) -> bool {
    0 <= i < object.len() && object[i].0 == name
}

/// The member of that name, if the value is an object that has one.
pub open spec fn field(value: Tree, name: Seq<char>) -> Option<Tree> {
    match value {
        Tree::Object(m) => if exists|i: int| member_at(m, name, i) {
            Some(m[choose|i: int| member_at(m, name, i)].1)
        } else {
            None
        },
        _ => None,
    }
}

/// The integer, if the value is one that fits.
pub open spec fn integer(value: Tree) -> Option<i64> {
    match value {
        Tree::Number(n, _) => n,
        _ => None,
    }
}

/// The text, if the value is one.
pub open spec fn text(value: Tree) -> Option<Seq<char>> {
    match value {
        Tree::Text(s) => Some(s),
        _ => None,
    }
}

/// The decimal notation, if the value is a number.
pub open spec fn number(value: Tree) -> Option<Seq<char>> {
    match value {
        Tree::Number(_, s) => Some(s),
        _ => None,
    }
}

/// The member of an optional value.
pub open spec fn within(value: Option<Tree>, name: Seq<char>) -> Option<Tree> {
    match value {
        Some(v) => field(v, name),
        None => None,
    }
}

/// An object gives the value that stands under a name, where just one does, and nothing under a
/// name that it does not have. No other value has members.
pub proof fn members_are_found_by_name(object: Seq<(Seq<char>, Tree)>, name: Seq<char>, i: int)
    ensures
        0 <= i < object.len() && object[i].0 == name && (forall|j: int|
            0 <= j < object.len() && j != i ==> (#[trigger] object[j]).0 != name) ==> field(
            Tree::Object(object),
            name,
        ) == Some(object[i].1),
        (forall|j: int| 0 <= j < object.len() ==> (#[trigger] object[j]).0 != name) ==> field(
            Tree::Object(object),
            name,
        ) is None,
{
    if 0 <= i < object.len() && object[i].0 == name && (forall|j: int|
        0 <= j < object.len() && j != i ==> (#[trigger] object[j]).0 != name) {
        assert(member_at(object, name, i));
        let k = choose|k: int| member_at(object, name, k);
        assert(member_at(object, name, k));
        assert(object[k].0 == name);
    }
}

/// What a value says depends on its kind: a text is its text, a number its decimal notation and
/// its integer where it fits, and only objects have members.
pub proof fn values_say_what_they_are(value: Tree, name: Seq<char>)
    ensures
        value matches Tree::Text(s) ==> text(value) == Some(s) && number(value) is None && integer(
            value,
        ) is None,
        value matches Tree::Number(n, s) ==> number(value) == Some(s) && integer(value) == n && text(
            value,
        ) is None,
        !(value is Text) ==> text(value) is None,
        !(value is Number) ==> number(value) is None && integer(value) is None,
        !(value is Object) ==> field(value, name) is None,
        within(Some(value), name) == field(value, name),
        within(None, name) is None,
{
}

} // verus!
