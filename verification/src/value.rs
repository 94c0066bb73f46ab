//! The value tree and its mathematical model.

use vstd::prelude::*;
use crate::scan::{run_end, CharClass};

verus! {

/// A JSON document as a mathematical value: what a [`JsonValue`] stands for.
///
/// A number is kept as the literal that denotes it. The members of an
/// object are kept in the order in which their keys first appeared.
pub enum Json {
    Null,
    Boolean(bool),
    Number(Seq<char>),
    String(Seq<char>),
    Array(Seq<Json>),
    Object(Seq<(Seq<char>, Json)>),
}

/// A JSON document in memory.
///
/// A number holds its literal, since its value may exceed every machine
/// number; [`is_json_number`] says which literals are numbers. An object
/// holds its members in the order in which their keys first appeared, each
/// key once.
#[derive(Debug, PartialEq, Eq)]
pub enum JsonValue {
    Null,
    Boolean(bool),
    Number(String),
    String(String),
    Array(Vec<JsonValue>),
    Object(Vec<(String, JsonValue)>),
}

/// Where the digits that start at `from` end.
pub open spec fn digits_end(s: Seq<char>, from: int) -> int {
    run_end(s, from, CharClass::Digit)
}

/// Whether `s` is a number of the JSON grammar: an optional `-`; then `0`
/// or a digit other than `0` followed by any digits; then optionally `.`
/// and at least one digit; then optionally `e` or `E`, an optional sign and
/// at least one digit; and nothing after that.
pub open spec fn is_json_number(s: Seq<char>) -> bool {
    let int_start = if s.len() > 0 && s[0] == '-' { 1int } else { 0int };
    let int_end = digits_end(s, int_start);
    let frac_end = if int_end < s.len() && s[int_end] == '.' {
        digits_end(s, int_end + 1)
    } else {
        int_end
    };
    let exp_start = if frac_end < s.len() && (s[frac_end] == 'e' || s[frac_end] == 'E') {
        if frac_end + 1 < s.len() && (s[frac_end + 1] == '+' || s[frac_end + 1] == '-') {
            frac_end + 2
        } else {
            frac_end + 1
        }
    } else {
        frac_end
    };
    let exp_end = if exp_start > frac_end { digits_end(s, exp_start) } else { frac_end };
    &&& int_start < int_end
    &&& s[int_start] == '0' ==> int_end == int_start + 1
    &&& int_end < frac_end ==> int_end + 1 < frac_end
    &&& frac_end < exp_start ==> exp_start < exp_end
    &&& exp_end == s.len()
}

/// The position of the first member at or after `from` whose key is `key`.
pub open spec fn key_index_from(members: Seq<(Seq<char>, Json)>, key: Seq<char>, from: int) -> Option<int>
    decreases members.len() - from,
{
    if from < 0 || from >= members.len() {
        None
    } else if members[from].0 == key {
        Some(from)
    } else {
        key_index_from(members, key, from + 1)
    }
}

/// The position of the member whose key is `key`.
pub open spec fn key_index(members: Seq<(Seq<char>, Json)>, key: Seq<char>) -> Option<int> {
    key_index_from(members, key, 0)
}

/// No key occurs twice.
pub open spec fn distinct_keys(members: Seq<(Seq<char>, Json)>) -> bool {
    forall|i: int, j: int|
        0 <= i < j < members.len() ==> (#[trigger] members[i]).0 != (#[trigger] members[j]).0
}

/// The members after `key` has been given `value`: a key that is there
/// keeps its place and gets the new value, a new key goes to the end.
pub open spec fn with_member(
    members: Seq<(Seq<char>, Json)>,
    key: Seq<char>,
    value: Json,
) -> Seq<(Seq<char>, Json)> {
    match key_index(members, key) {
        Some(i) => members.update(i, (key, value)),
        None => members.push((key, value)),
    }
}

impl Json {
    /// Every number in the tree is a JSON number, and no object in it has a
    /// key twice.
    pub open spec fn well_formed(self) -> bool
        decreases self,
    {
        match self {
            Json::Number(literal) => is_json_number(literal),
            Json::Array(items) => {
                &&& forall|i: int| 0 <= i < items.len() ==> (#[trigger] items[i]).well_formed()
            },
            Json::Object(members) => {
                &&& distinct_keys(members)
                &&& forall|i: int|
                    0 <= i < members.len() ==> (#[trigger] members[i]).1.well_formed()
            },
            _ => true,
        }
    }

    /// The value under `key`, if this is an object that has the key.
    pub open spec fn member(self, key: Seq<char>) -> Option<Json> {
        match self {
            Json::Object(members) => match key_index(members, key) {
                Some(i) => Some(members[i].1),
                None => None,
            },
            _ => None,
        }
    }
}

/// An array is well formed when each of its items is.
pub proof fn lemma_array_well_formed(items: Seq<Json>)
    ensures
        Json::Array(items).well_formed() <==> forall|i: int|
            0 <= i < items.len() ==> (#[trigger] items[i]).well_formed(),
{
    assert(Json::Array(items)->Array_0 == items);
}

/// An object is well formed when no key occurs twice in it and each of
/// its values is well formed.
pub proof fn lemma_object_well_formed(members: Seq<(Seq<char>, Json)>)
    ensures
        Json::Object(members).well_formed() <==> distinct_keys(members) && forall|i: int|
            0 <= i < members.len() ==> (#[trigger] members[i]).1.well_formed(),
{
    assert(Json::Object(members)->Object_0 == members);
}

/// The models of the items of an array.
pub open spec fn items_model(items: Seq<JsonValue>) -> Seq<Json> {
    Seq::new(items.len(), |i: int| items[i]@)
}

/// The models of the members of an object.
pub open spec fn members_model(members: Seq<(String, JsonValue)>) -> Seq<(Seq<char>, Json)> {
    Seq::new(members.len(), |i: int| (members[i].0@, members[i].1@))
}

/// The mathematical value that `value` stands for.
pub open spec fn model_of(value: JsonValue) -> Json
    decreases value,
{
    match value {
        JsonValue::Null => Json::Null,
        JsonValue::Boolean(b) => Json::Boolean(b),
        JsonValue::Number(literal) => Json::Number(literal@),
        JsonValue::String(s) => Json::String(s@),
        JsonValue::Array(items) => Json::Array(
            Seq::new(
                items@.len(),
                |i: int|
                    if 0 <= i < items@.len() {
                        model_of(items@[i])
                    } else {
                        arbitrary()
                    },
            ),
        ),
        JsonValue::Object(members) => Json::Object(
            Seq::new(
                members@.len(),
                |i: int|
                    if 0 <= i < members@.len() {
                        (members@[i].0@, model_of(members@[i].1))
                    } else {
                        arbitrary()
                    },
            ),
        ),
    }
}

impl View for JsonValue {
    type V = Json;

    open spec fn view(&self) -> Json {
        model_of(*self)
    }
}

/// An array stands for the array of what its items stand for.
pub proof fn lemma_array_model(items: Vec<JsonValue>)
    ensures
        JsonValue::Array(items)@ == Json::Array(items_model(items@)),
{
    assert(JsonValue::Array(items)@->Array_0 =~= items_model(items@));
}

/// An object stands for the object of what its members stand for.
pub proof fn lemma_object_model(members: Vec<(String, JsonValue)>)
    ensures
        JsonValue::Object(members)@ == Json::Object(members_model(members@)),
{
    assert(JsonValue::Object(members)@->Object_0 =~= members_model(members@));
}

/// The position of the member whose key is `key`.
pub fn find_member(members: &Vec<(String, JsonValue)>, key: &String) -> (found: Option<usize>)
    ensures
        match found {
            Some(i) => i < members@.len() && key_index(members_model(members@), key@) == Some(
                i as int,
            ),
            None => key_index(members_model(members@), key@) is None,
        },
{
    let ghost model = members_model(members@);
    let mut i: usize = 0;
    while i < members.len()
        invariant
            i <= members@.len(),
            model == members_model(members@),
            key_index(model, key@) == key_index_from(model, key@, i as int),
        decreases members@.len() - i,
    {
        if members[i].0 == *key {
            return Some(i);
        }
        i = i + 1;
    }
    None
}

/// Gives `key` the value `value`: a key that is there keeps its place and
/// gets the new value, a new key goes to the end.
pub fn insert_member(members: &mut Vec<(String, JsonValue)>, key: String, value: JsonValue)
    ensures
        members_model(final(members)@) == with_member(members_model(old(members)@), key@, value@),
{
    match find_member(members, &key) {
        Some(i) => {
            members.set(i, (key, value));
        },
        None => {
            members.push((key, value));
        },
    }
    assert(members_model(members@) =~= with_member(members_model(old(members)@), key@, value@));
}

impl JsonValue {
    /// The value under `key`, if this is an object that has the key.
    pub fn get(&self, key: &str) -> (found: Option<&JsonValue>)
        ensures
            match self@.member(key@) {
                Some(value) => found matches Some(got) && got@ == value,
                None => found is None,
            },
    {
        match self {
            JsonValue::Object(members) => {
                proof {
                    lemma_object_model(*members);
                }
                let key = key.to_owned();
                match find_member(members, &key) {
                    Some(i) => Some(&members[i].1),
                    None => None,
                }
            },
            _ => None,
        }
    }
}

} // verus!
