//! JSON values, as the requests to Notion carry them.

use vstd::prelude::*;

use crate::text::same_text;

verus! {

/// A JSON value. Of members with the same key the last one counts.
#[derive(Debug)]
pub enum Json {
    Bool(bool),
    Number(u64),
    Text(String),
    Array(Vec<Json>),
    Object(Vec<Member>),
}

/// A member of a JSON object.
#[derive(Debug)]
pub struct Member {
    pub key: String,
    pub value: Json,
}

/// The mathematical model of a JSON value.
pub ghost enum JsonView {
    Bool(bool),
    Number(nat),
    Text(Seq<char>),
    Array(Seq<JsonView>),
    Object(Map<Seq<char>, JsonView>),
}

/// The model of a JSON value.
pub open spec fn json(j: Json) -> JsonView
    decreases j,
{
    match j {
        Json::Bool(b) => JsonView::Bool(b),
        Json::Number(n) => JsonView::Number(n as nat),
        Json::Text(s) => JsonView::Text(s@),
        Json::Array(v) => JsonView::Array(jsons(v@)),
        Json::Object(m) => JsonView::Object(members(m@)),
    }
}

/// The models of some JSON values.
pub open spec fn jsons(s: Seq<Json>) -> Seq<JsonView>
    decreases s,
{
    if s.len() == 0 {
        Seq::empty()
    } else {
        jsons(s.drop_last()).push(json(s.last()))
    }
}

/// The members of an object, by key.
pub open spec fn members(s: Seq<Member>) -> Map<Seq<char>, JsonView>
    decreases s,
{
    if s.len() == 0 {
        Map::empty()
    } else {
        members(s.drop_last()).insert(s.last().key@, json(s.last().value))
    }
}

pub proof fn lemma_jsons(s: Seq<Json>)
    ensures
        jsons(s).len() == s.len(),
        forall|k: int| 0 <= k < s.len() ==> jsons(s)[k] == json(#[trigger] s[k]),
    decreases s.len(),
{
    if s.len() > 0 {
        lemma_jsons(s.drop_last());
        assert forall|k: int| 0 <= k < s.len() implies jsons(s)[k] == json(#[trigger] s[k]) by {
            if k < s.len() - 1 {
                assert(s.drop_last()[k] == s[k]);
            }
        }
    }
}

pub proof fn lemma_jsons_push(s: Seq<Json>, j: Json)
    ensures
        jsons(s.push(j)) == jsons(s).push(json(j)),
{
    assert(s.push(j).drop_last() =~= s);
}

/// A JSON text.
pub fn text_value(s: &str) -> (r: Json)
    ensures
        json(r) == JsonView::Text(s@),
{
    Json::Text(s.to_owned())
}

/// An object with no member.
pub open spec fn obj0() -> JsonView {
    JsonView::Object(Map::empty())
}

/// The object with one more member.
pub open spec fn with_member(object: JsonView, key: Seq<char>, value: JsonView) -> JsonView {
    JsonView::Object(object->Object_0.insert(key, value))
}

/// An object with one member.
pub open spec fn obj1(key: Seq<char>, value: JsonView) -> JsonView {
    with_member(obj0(), key, value)
}

/// An object with two members.
pub open spec fn obj2(
    key1: Seq<char>,
    value1: JsonView,
    key2: Seq<char>,
    value2: JsonView,
) -> JsonView {
    with_member(obj1(key1, value1), key2, value2)
}

/// An object with three members.
pub open spec fn obj3(
    key1: Seq<char>,
    value1: JsonView,
    key2: Seq<char>,
    value2: JsonView,
    key3: Seq<char>,
    value3: JsonView,
) -> JsonView {
    with_member(obj2(key1, value1, key2, value2), key3, value3)
}

/// An object with no member.
pub fn object0() -> (r: Json)
    ensures
        json(r) == obj0(),
{
    let m: Vec<Member> = Vec::new();
    Json::Object(m)
}

/// The object with one more member.
pub fn add_member(object: Json, key: &str, value: Json) -> (r: Json)
    ensures
        json(object) is Object ==> json(r) == with_member(json(object), key@, json(value)),
        !(json(object) is Object) ==> json(r) == json(object),
{
    match object {
        Json::Object(mut m) => {
            let member = Member { key: key.to_owned(), value };
            assert(m@.push(member).drop_last() =~= m@);
            m.push(member);
            Json::Object(m)
        },
        other => other,
    }
}

/// An object with one member.
pub fn object1(key: &str, value: Json) -> (r: Json)
    ensures
        json(r) == obj1(key@, json(value)),
{
    add_member(object0(), key, value)
}

/// An object with two members.
pub fn object2(key1: &str, value1: Json, key2: &str, value2: Json) -> (r: Json)
    ensures
        json(r) == obj2(key1@, json(value1), key2@, json(value2)),
{
    add_member(object1(key1, value1), key2, value2)
}

/// An object with three members.
pub fn object3(
    key1: &str,
    value1: Json,
    key2: &str,
    value2: Json,
    key3: &str,
    value3: Json,
) -> (r: Json)
    ensures
        json(r) == obj3(key1@, json(value1), key2@, json(value2), key3@, json(value3)),
{
    add_member(object2(key1, value1, key2, value2), key3, value3)
}

impl Json {
    /// The member of an object with this key.
    pub fn get(&self, key: &str) -> (r: Option<&Json>)
        ensures
            match r {
                Some(value) => json(*self) is Object && json(*self)->Object_0.dom().contains(key@)
                    && json(*value) == json(*self)->Object_0[key@],
                None => !(json(*self) is Object && json(*self)->Object_0.dom().contains(key@)),
            },
    {
        match self {
            Json::Object(m) => {
                let mut i: usize = m.len();
                assert(m@.take(i as int) =~= m@);
                while i > 0
                    invariant
                        i <= m.len(),
                        json(*self) == JsonView::Object(members(m@)),
                        members(m@.take(i as int)).dom().contains(key@) == members(
                            m@,
                        ).dom().contains(key@),
                        members(m@.take(i as int)).dom().contains(key@) ==> members(
                            m@.take(i as int),
                        )[key@] == members(m@)[key@],
                    decreases i,
                {
                    assert(m@.take(i as int).drop_last() =~= m@.take(i - 1));
                    if same_text(&m[i - 1].key, key) {
                        return Some(&m[i - 1].value);
                    }
                    i = i - 1;
                }
                None
            },
            _ => None,
        }
    }

    /// The item of an array at this place.
    pub fn item(&self, index: usize) -> (r: Option<&Json>)
        ensures
            match r {
                Some(value) => json(*self) is Array && index < json(*self)->Array_0.len() && json(
                    *value,
                ) == json(*self)->Array_0[index as int],
                None => !(json(*self) is Array && index < json(*self)->Array_0.len()),
            },
    {
        match self {
            Json::Array(v) => {
                proof {
                    lemma_jsons(v@);
                }
                if index < v.len() {
                    Some(&v[index])
                } else {
                    None
                }
            },
            _ => None,
        }
    }

    /// The text, if the value is one.
    pub fn as_str(&self) -> (r: Option<&str>)
        ensures
            match r {
                Some(s) => json(*self) == JsonView::Text(s@),
                None => !(json(*self) is Text),
            },
    {
        match self {
            Json::Text(s) => Some(s.as_str()),
            _ => None,
        }
    }

    /// The truth value, if the value is one.
    pub fn as_bool(&self) -> (r: Option<bool>)
        ensures
            match r {
                Some(b) => json(*self) == JsonView::Bool(b),
                None => !(json(*self) is Bool),
            },
    {
        match self {
            Json::Bool(b) => Some(*b),
            _ => None,
        }
    }

    /// The number, if the value is one.
    pub fn as_u64(&self) -> (r: Option<u64>)
        ensures
            match r {
                Some(n) => json(*self) == JsonView::Number(n as nat),
                None => !(json(*self) is Number),
            },
    {
        match self {
            Json::Number(n) => Some(*n),
            _ => None,
        }
    }
}

} // verus!
