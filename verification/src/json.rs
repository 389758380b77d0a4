//! JSON documents as plain values, and the lookups the fold makes in them.

use vstd::prelude::*;

verus! {

/// `serde_json::Error`: why a text was not read.
#[verifier::external_type_specification]
#[verifier::external_body]
pub struct ExJsonError(serde_json::Error);

/// `serde_json::Value`: a JSON value as the parser returns it.
#[verifier::external_type_specification]
#[verifier::external_body]
pub struct ExJsonValue(serde_json::Value);

/// A JSON value.
#[derive(Debug)]
pub enum Json {
    Null,
    Bool(bool),
    /// A number, as its decimal text.
    Number(String),
    String(String),
    Array(Vec<Json>),
    /// The members of an object: name and value.
    Object(Vec<(String, Json)>),
}

/// The value that JSON `text` denotes; `None` where `text` is not JSON.
pub uninterp spec fn parsed_json(text: Seq<char>) -> Option<Json>;

/// The value of the first member called `name`.
pub open spec fn first_member(members: Seq<(String, Json)>, name: Seq<char>) -> Option<Json>
    decreases members.len(),
{
    if members.len() == 0 {
        None
    } else if members[0].0@ == name {
        Some(members[0].1)
    } else {
        first_member(members.drop_first(), name)
    }
}

impl Json {
    /// The member `name` of an object; `None` for any other value and for an
    /// object without that member.
    pub open spec fn spec_member(self, name: Seq<char>) -> Option<Json> {
        match self {
            Json::Object(members) => first_member(members@, name),
            _ => None,
        }
    }

    /// The element at `index` of an array; `None` for any other value and
    /// for an index past the end.
    pub open spec fn spec_element(self, index: int) -> Option<Json> {
        match self {
            Json::Array(items) => if 0 <= index < items@.len() {
                Some(items@[index])
            } else {
                None
            },
            _ => None,
        }
    }

    /// The text of a string; `None` for any other value.
    pub open spec fn spec_text(self) -> Option<Seq<char>> {
        match self {
            Json::String(text) => Some(text@),
            _ => None,
        }
    }

    /// The member `name` of an object.
    pub fn member(&self, name: &str) -> (r: Option<&Json>)
        ensures
            r is Some <==> self.spec_member(name@) is Some,
            r matches Some(value) ==> self.spec_member(name@) == Some(*value),
    {
        match self {
            Json::Object(members) => {
                let wanted = name.to_owned();
                let mut i: usize = 0;
                assert(members@.skip(0) =~= members@);
                while i < members.len()
                    invariant
                        i <= members@.len(),
                        wanted@ == name@,
                        self.spec_member(name@) == first_member(members@, name@),
                        first_member(members@, name@) == first_member(
                            members@.skip(i as int),
                            name@,
                        ),
                    decreases members@.len() - i,
                {
                    let ghost rest = members@.skip(i as int);
                    assert(rest[0] == members@[i as int]);
                    assert(rest.drop_first() =~= members@.skip(i + 1));
                    if members[i].0 == wanted {
                        assert(first_member(rest, name@) == Some(rest[0].1));
                        return Some(&members[i].1);
                    }
                    i += 1;
                }
                None
            },
            _ => None,
        }
    }

    /// The element at `index` of an array.
    pub fn element(&self, index: usize) -> (r: Option<&Json>)
        ensures
            r is Some <==> self.spec_element(index as int) is Some,
            r matches Some(value) ==> self.spec_element(index as int) == Some(*value),
    {
        match self {
            Json::Array(items) => if index < items.len() {
                Some(&items[index])
            } else {
                None
            },
            _ => None,
        }
    }

    /// The text of a string.
    pub fn text(&self) -> (r: Option<&str>)
        ensures
            r is Some <==> self.spec_text() is Some,
            r matches Some(text) ==> self.spec_text() == Some(text@),
    {
        match self {
            Json::String(text) => Some(text.as_str()),
            _ => None,
        }
    }
}

/// Moves a `serde_json::Value` into a `Json`, variant by variant.
#[verifier::external_body]
fn json_of_value(value: serde_json::Value) -> Json {
    match value {
        serde_json::Value::Null => Json::Null,
        serde_json::Value::Bool(b) => Json::Bool(b),
        serde_json::Value::Number(n) => Json::Number(n.to_string()),
        serde_json::Value::String(s) => Json::String(s),
        serde_json::Value::Array(a) => Json::Array(a.into_iter().map(json_of_value).collect()),
        serde_json::Value::Object(m) => Json::Object(
            m.into_iter().map(|(k, v)| (k, json_of_value(v))).collect(),
        ),
    }
}

/// `serde_json::from_str`: reads `text` as one JSON value. It fails where
/// `text` is not JSON.
#[verifier::external_body]
pub(crate) fn parse_json(text: &str) -> (r: Result<Json, serde_json::Error>)
    ensures
        r is Ok <==> parsed_json(text@) is Some,
        r matches Ok(json) ==> parsed_json(text@) == Some(json),
{
    serde_json::from_str::<serde_json::Value>(text).map(json_of_value)
}

} // verus!
