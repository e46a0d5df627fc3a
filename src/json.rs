//! A JSON document as a tree of plain values.
use vstd::prelude::*;
use crate::text::views;

verus! {

/// A JSON value; a number keeps the text it was written with, and an
/// object its members in order.
#[derive(Debug)]
pub enum JsonValue {
    Null,
    Bool(bool),
    Number(String),
    Str(String),
    Array(Vec<JsonValue>),
    Object(Vec<(String, JsonValue)>),
}

/// The value of the first member of `members` named `key`.
pub open spec fn field_of(members: Seq<(String, JsonValue)>, key: Seq<char>) -> Option<JsonValue>
    decreases members.len(),
{
    if members.len() == 0 {
        None
    } else if members[0].0@ == key {
        Some(members[0].1)
    } else {
        field_of(members.drop_first(), key)
    }
}

/// The member of an object named `key`, where `v` is an object that has one.
pub open spec fn member(v: JsonValue, key: Seq<char>) -> Option<JsonValue> {
    match v {
        JsonValue::Object(members) => field_of(members@, key),
        _ => None,
    }
}

/// The text of a string value.
pub open spec fn str_of(v: Option<JsonValue>) -> Option<Seq<char>> {
    match v {
        Some(JsonValue::Str(s)) => Some(s@),
        _ => None,
    }
}

/// The texts of an array of strings.
pub open spec fn str_list(v: Option<JsonValue>) -> Option<Seq<Seq<char>>> {
    match v {
        Some(JsonValue::Array(a)) => if forall|i: int| 0 <= i < a@.len() ==> #[trigger] a@[i] is Str {
            Some(Seq::new(a@.len(), |i: int| a@[i]->Str_0@))
        } else {
            None
        },
        _ => None,
    }
}

/// The value behind an optional reference.
pub open spec fn owned(v: Option<&JsonValue>) -> Option<JsonValue> {
    match v {
        Some(x) => Some(*x),
        None => None,
    }
}

/// Looks up the member of `v` named `key`.
pub fn get_member<'a>(v: &'a JsonValue, key: &str) -> (r: Option<&'a JsonValue>)
    ensures
        match r {
            Some(x) => member(*v, key@) == Some(*x),
            None => member(*v, key@) is None,
        },
{
    match v {
        JsonValue::Object(members) => {
            let k = String::from_str(key);
            let mut i: usize = 0;
            assert(members@.subrange(0, members@.len() as int) =~= members@);
            while i < members.len()
                invariant
                    *v == JsonValue::Object(*members),
                    k@ == key@,
                    i <= members@.len(),
                    field_of(members@.subrange(i as int, members@.len() as int), key@)
                        == field_of(members@, key@),
                decreases members@.len() - i,
            {
                let ghost rest = members@.subrange(i as int, members@.len() as int);
                assert(rest[0] == members@[i as int]);
                assert(rest.drop_first() =~= members@.subrange(i as int + 1, members@.len() as int));
                if members[i].0 == k {
                    return Some(&members[i].1);
                }
                i = i + 1;
            }
            assert(members@.subrange(i as int, members@.len() as int) =~= Seq::<(String, JsonValue)>::empty());
            None
        },
        _ => None,
    }
}

/// A copy of the text of a string value.
pub fn read_str(v: Option<&JsonValue>) -> (r: Option<String>)
    ensures
        match r {
            Some(s) => str_of(owned(v)) == Some(s@),
            None => str_of(owned(v)) is None,
        },
{
    match v {
        Some(JsonValue::Str(s)) => Some(s.clone()),
        _ => None,
    }
}

/// Copies of the texts of an array of strings.
pub fn read_str_list(v: Option<&JsonValue>) -> (r: Option<Vec<String>>)
    ensures
        match r {
            Some(l) => str_list(owned(v)) == Some(views(l@)),
            None => str_list(owned(v)) is None,
        },
{
    match v {
        Some(JsonValue::Array(a)) => {
            let mut out: Vec<String> = Vec::new();
            let mut i: usize = 0;
            while i < a.len()
                invariant
                    owned(v) == Some(JsonValue::Array(*a)),
                    i <= a@.len(),
                    out@.len() == i,
                    forall|j: int| 0 <= j < i ==> #[trigger] a@[j] is Str && a@[j]->Str_0@ == out@[j]@,
                decreases a@.len() - i,
            {
                match &a[i] {
                    JsonValue::Str(s) => {
                        out.push(s.clone());
                    },
                    _ => {
                        assert(!(a@[i as int] is Str));
                        return None;
                    },
                }
                i = i + 1;
            }
            assert(views(out@) =~= Seq::new(a@.len(), |j: int| a@[j]->Str_0@));
            Some(out)
        },
        _ => None,
    }
}

} // verus!
