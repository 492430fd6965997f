//! A loosely typed document value, as far as the metrics of a database entry
//! are read.

use vstd::prelude::*;
use crate::score::Score;

verus! {

/// A document value. An object keeps its members in the order in which they
/// were written; a number is held as its score encoding.
#[derive(Debug)]
pub enum Json {
    Null,
    Bool(bool),
    Number(Score),
    Text(String),
    Array(Vec<Json>),
    Object(Vec<(String, Json)>),
}

/// The mathematical value of a document value.
pub enum JsonValue {
    Null,
    Bool(bool),
    Number(Score),
    Text(Seq<char>),
    Array(Seq<JsonValue>),
    Object(Seq<(Seq<char>, JsonValue)>),
}

/// The value of the first member named `key`, if there is one.
pub open spec fn first_member(members: Seq<(Seq<char>, JsonValue)>, key: Seq<char>) -> Option<
    JsonValue,
>
    decreases members.len(),
{
    if members.len() == 0 {
        None
    } else if members.first().0 == key {
        Some(members.first().1)
    } else {
        first_member(members.drop_first(), key)
    }
}

impl JsonValue {
    /// The member named `key` of an object; nothing for any other value and
    /// for an object without such a member.
    pub open spec fn member(self, key: Seq<char>) -> Option<JsonValue> {
        match self {
            JsonValue::Object(members) => first_member(members, key),
            _ => None,
        }
    }

    /// The items of an array; nothing for any other value.
    pub open spec fn items(self) -> Option<Seq<JsonValue>> {
        match self {
            JsonValue::Array(items) => Some(items),
            _ => None,
        }
    }

    /// The score that a number encodes; nothing for any other value.
    pub open spec fn number(self) -> Option<Score> {
        match self {
            JsonValue::Number(n) => Some(n),
            _ => None,
        }
    }
}

/// The values of a run of document values.
pub open spec fn values(items: Seq<Json>) -> Seq<JsonValue> {
    Seq::new(items.len(), |i: int| items[i]@)
}

/// The values of a run of named document values.
pub open spec fn named_values(members: Seq<(String, Json)>) -> Seq<(Seq<char>, JsonValue)> {
    Seq::new(members.len(), |i: int| (members[i].0@, members[i].1@))
}

impl View for Json {
    type V = JsonValue;

    open spec fn view(&self) -> JsonValue
        decreases self,
    {
        match self {
            Json::Null => JsonValue::Null,
            Json::Bool(b) => JsonValue::Bool(*b),
            Json::Number(n) => JsonValue::Number(*n),
            Json::Text(t) => JsonValue::Text(t@),
            Json::Array(items) => JsonValue::Array(
                Seq::new(
                    items.len() as nat,
                    |i: int|
                        if 0 <= i < items.len() {
                            items[i].view()
                        } else {
                            JsonValue::Null
                        },
                ),
            ),
            Json::Object(members) => JsonValue::Object(
                Seq::new(
                    members.len() as nat,
                    |i: int|
                        if 0 <= i < members.len() {
                            (members[i].0@, members[i].1.view())
                        } else {
                            (Seq::empty(), JsonValue::Null)
                        },
                ),
            ),
        }
    }
}

/// The value of an optional document value.
pub open spec fn optional_value(json: Option<Json>) -> Option<JsonValue> {
    match json {
        Some(j) => Some(j@),
        None => None,
    }
}

impl Json {
    /// The value of an array is the array of its items' values.
    pub proof fn lemma_array_view(items: Vec<Json>)
        ensures
            Json::Array(items)@ == JsonValue::Array(values(items@)),
    {
        reveal_with_fuel(<Json as View>::view, 2);
        assert(Json::Array(items)@->Array_0 =~= values(items@));
    }

    /// The value of an object is the run of its members' names and values.
    pub proof fn lemma_object_view(members: Vec<(String, Json)>)
        ensures
            Json::Object(members)@ == JsonValue::Object(named_values(members@)),
    {
        reveal_with_fuel(<Json as View>::view, 2);
        assert(Json::Object(members)@->Object_0 =~= named_values(members@));
    }

    /// The member named `key`, if the value is an object that has one.
    pub fn get(&self, key: &str) -> (r: Option<&Json>)
        ensures
            match r {
                Some(j) => self@.member(key@) == Some(j@),
                None => self@.member(key@) is None,
            },
    {
        match self {
            Json::Object(members) => {
                proof {
                    Json::lemma_object_view(*members);
                }
                let wanted = key.to_owned();
                let ghost all = named_values(members@);
                let mut i: usize = 0;
                proof {
                    assert(all.skip(0) =~= all);
                }
                while i < members.len()
                    invariant
                        i <= members.len(),
                        self@ == JsonValue::Object(all),
                        wanted@ == key@,
                        all == named_values(members@),
                        first_member(all, key@) == first_member(all.skip(i as int), key@),
                    decreases members.len() - i,
                {
                    proof {
                        assert(all.skip(i as int).drop_first() =~= all.skip(i + 1));
                    }
                    if members[i].0 == wanted {
                        assert(all.skip(i as int).first() == all[i as int]);
                        return Some(&members[i].1);
                    }
                    i = i + 1;
                }
                None
            },
            _ => None,
        }
    }

    /// The items, if the value is an array.
    pub fn as_array(&self) -> (r: Option<&Vec<Json>>)
        ensures
            match r {
                Some(items) => self@.items() == Some(values(items@)),
                None => self@.items() is None,
            },
    {
        match self {
            Json::Array(items) => {
                proof {
                    Json::lemma_array_view(*items);
                }
                Some(items)
            },
            _ => None,
        }
    }

    /// The score, if the value is a number.
    pub fn as_number(&self) -> (r: Option<Score>)
        ensures
            r == self@.number(),
    {
        match self {
            Json::Number(n) => Some(*n),
            _ => None,
        }
    }
}

} // verus!
