//! JSON documents, as far as the answers of the registry and of the advisory
//! database are read.

use vstd::prelude::*;
use vstd::string::*;

use crate::text::str_eq;

verus! {

/// A JSON value. A number is kept as the text it is printed as; the members of
/// an object stand in the order in which they are walked.
#[derive(Debug, PartialEq, Eq)]
pub enum Json {
    Null,
    Bool(bool),
    Number(String),
    Text(String),
    Array(Vec<Json>),
    Object(Vec<(String, Json)>),
}

/// The value of the first of `members` whose name is `key`.
pub open spec fn member(members: Seq<(String, Json)>, key: Seq<char>) -> Option<Json>
    decreases members.len(),
{
    if members.len() == 0 {
        None
    } else if members[0].0@ == key {
        Some(members[0].1)
    } else {
        member(members.drop_first(), key)
    }
}

/// The member `key` of a value, if it is an object that has one.
pub open spec fn field(value: Json, key: Seq<char>) -> Option<Json> {
    match value {
        Json::Object(members) => member(members@, key),
        _ => None,
    }
}

/// The member `key` of an optional value.
pub open spec fn field_of(value: Option<Json>, key: Seq<char>) -> Option<Json> {
    match value {
        Some(v) => field(v, key),
        None => None,
    }
}

/// A value as text, if it is a string.
pub open spec fn text_of(value: Option<Json>) -> Option<Seq<char>> {
    match value {
        Some(Json::Text(s)) => Some(s@),
        _ => None,
    }
}

/// The elements of a value, if it is an array.
pub open spec fn items_of(value: Option<Json>) -> Option<Seq<Json>> {
    match value {
        Some(Json::Array(items)) => Some(items@),
        _ => None,
    }
}

/// The names of the members of a value, if it is an object.
pub open spec fn names_of(value: Option<Json>) -> Seq<Seq<char>> {
    match value {
        Some(Json::Object(members)) => members@.map_values(|m: (String, Json)| m.0@),
        _ => seq![],
    }
}

/// What a borrowed value stands for in the model.
pub open spec fn target(value: Option<&Json>) -> Option<Json> {
    match value {
        Some(v) => Some(*v),
        None => None,
    }
}

impl Json {
    /// The member `key`, if the value is an object that has one.
    pub fn get(&self, key: &str) -> (r: Option<&Json>)
        ensures
            target(r) == field(*self, key@),
    {
        match self {
            Json::Object(members) => {
                let mut i: usize = 0;
                assert(members@.skip(0) =~= members@);
                while i < members.len()
                    invariant
                        i <= members@.len(),
                        *self == Json::Object(*members),
                        member(members@, key@) == member(members@.skip(i as int), key@),
                    decreases members.len() - i,
                {
                    assert(members@.skip(i as int).drop_first() =~= members@.skip(i + 1));
                    if str_eq(members[i].0.as_str(), key) {
                        return Some(&members[i].1);
                    }
                    i = i + 1;
                }
                None
            },
            _ => None,
        }
    }
}

/// The member `key` of an optional value.
pub fn get_in<'a>(value: Option<&'a Json>, key: &str) -> (r: Option<&'a Json>)
    ensures
        target(r) == field_of(target(value), key@),
{
    match value {
        Some(v) => v.get(key),
        None => None,
    }
}

/// A value as text, if it is a string.
pub fn as_str<'a>(value: Option<&'a Json>) -> (r: Option<&'a str>)
    ensures
        r.deep_view() == text_of(target(value)),
{
    match value {
        Some(Json::Text(s)) => Some(s.as_str()),
        _ => None,
    }
}

/// A value as text of its own, if it is a string.
pub fn as_string(value: Option<&Json>) -> (r: Option<String>)
    ensures
        r.deep_view() == text_of(target(value)),
{
    match value {
        Some(Json::Text(s)) => Some(s.clone()),
        _ => None,
    }
}

/// The elements of a value, if it is an array.
pub fn as_array<'a>(value: Option<&'a Json>) -> (r: Option<&'a Vec<Json>>)
    ensures
        match r {
            Some(items) => items_of(target(value)) == Some(items@),
            None => items_of(target(value)) is None,
        },
{
    match value {
        Some(Json::Array(items)) => Some(items),
        _ => None,
    }
}

/// The names of the members of a value, if it is an object.
pub fn member_names(value: Option<&Json>) -> (r: Vec<String>)
    ensures
        r.deep_view() == names_of(target(value)),
{
    let mut out: Vec<String> = Vec::new();
    match value {
        Some(Json::Object(members)) => {
            let mut i: usize = 0;
            while i < members.len()
                invariant
                    i <= members@.len(),
                    out.len() == i,
                    forall|j: int| 0 <= j < i ==> (#[trigger] out@[j])@ == members@[j].0@,
                decreases members.len() - i,
            {
                out.push(members[i].0.clone());
                i = i + 1;
            }
        },
        _ => {},
    }
    assert(out.deep_view() =~= names_of(target(value)));
    out
}

// ---- Laws ----

/// The member of that name is the first of an object that has the name; there is
/// none exactly where no member has it.
pub proof fn law_first_member_of_the_name(members: Seq<(String, Json)>, key: Seq<char>)
    ensures
        match member(members, key) {
            Some(v) => exists|i: int|
                0 <= i < members.len() && (#[trigger] members[i]).0@ == key && members[i].1 == v
                    && forall|j: int| 0 <= j < i ==> (#[trigger] members[j]).0@ != key,
            None => forall|j: int| 0 <= j < members.len() ==> (#[trigger] members[j]).0@ != key,
        },
    decreases members.len(),
{
    if members.len() > 0 {
        let rest = members.drop_first();
        if members[0].0@ == key {
            assert(members[0].1 == member(members, key)->0);
        } else {
            law_first_member_of_the_name(rest, key);
            if let Some(v) = member(members, key) {
                let i = choose|i: int|
                    0 <= i < rest.len() && (#[trigger] rest[i]).0@ == key && rest[i].1 == v
                        && forall|j: int| 0 <= j < i ==> (#[trigger] rest[j]).0@ != key;
                assert(members[i + 1] == rest[i]);
                assert forall|j: int| 0 <= j < i + 1 implies (#[trigger] members[j]).0@ != key by {
                    if j > 0 {
                        assert(members[j] == rest[j - 1]);
                    }
                }
            } else {
                assert forall|j: int| 0 <= j < members.len() implies (
                #[trigger] members[j]).0@ != key by {
                    if j > 0 {
                        assert(members[j] == rest[j - 1]);
                    }
                }
            }
        }
    }
}

/// Only an object has members and names, only a string is text, and only an
/// array has elements; and each has all of its own, in their order.
pub proof fn law_values_are_read_by_kind(value: Json, key: Seq<char>)
    ensures
        value !is Object ==> field(value, key) is None && names_of(Some(value)).len() == 0,
        value !is Text ==> text_of(Some(value)) is None,
        value !is Array ==> items_of(Some(value)) is None,
        value matches Json::Text(s) ==> text_of(Some(value)) == Some(s@),
        value matches Json::Array(items) ==> items_of(Some(value)) == Some(items@),
        value matches Json::Object(members) ==> {
            &&& field(value, key) == member(members@, key)
            &&& names_of(Some(value)).len() == members@.len()
            &&& forall|i: int|
                0 <= i < members@.len() ==> #[trigger] names_of(Some(value))[i] == members@[i].0@
        },
        field_of(Some(value), key) == field(value, key),
        field_of(None, key) is None,
        text_of(None) is None,
        items_of(None) is None,
        names_of(None).len() == 0,
{
}

} // verus!
