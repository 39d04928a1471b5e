//! JSON documents as plain values: the form in which schemas and trees arrive.

use vstd::prelude::*;
use vstd::string::StringExecFns;

verus! {

/// One member of a JSON object.
#[derive(Debug)]
pub struct Member {
    pub key: String,
    pub value: Json,
}

/// A JSON value.
#[derive(Debug)]
pub enum Json {
    Null,
    Bool(bool),
    /// A number, with its value where it is an integer of 64 signed bits.
    Number(Option<i64>),
    Text(String),
    List(Vec<Json>),
    /// An object: its members in the order in which they are held.
    Record(Vec<Member>),
}

/// The mathematical content of a [`Json`].
pub ghost enum JsonValue {
    Null,
    Bool(bool),
    Number(Option<i64>),
    Text(Seq<char>),
    List(Seq<JsonValue>),
    Record(Seq<(Seq<char>, JsonValue)>),
}

/// The six kinds of JSON value.
#[derive(Debug, Clone, Copy, PartialEq, Eq, Structural)]
pub enum JsonKind {
    Null,
    Bool,
    Number,
    Text,
    List,
    Record,
}

impl View for Json {
    type V = JsonValue;

    open spec fn view(&self) -> JsonValue
        decreases self,
    {
        match self {
            Json::Null => JsonValue::Null,
            Json::Bool(b) => JsonValue::Bool(*b),
            Json::Number(n) => JsonValue::Number(*n),
            Json::Text(s) => JsonValue::Text(s@),
            Json::List(items) => JsonValue::List(list_view(items@)),
            Json::Record(members) => JsonValue::Record(record_view(members@)),
        }
    }
}

/// The views of the items of a list, in order.
pub open spec fn list_view(items: Seq<Json>) -> Seq<JsonValue>
    decreases items,
{
    if items.len() == 0 {
        Seq::empty()
    } else {
        list_view(items.drop_last()).push(items.last()@)
    }
}

/// The keys of the members of an object, each with the view of its value, in
/// order.
pub open spec fn record_view(members: Seq<Member>) -> Seq<(Seq<char>, JsonValue)>
    decreases members,
{
    if members.len() == 0 {
        Seq::empty()
    } else {
        record_view(members.drop_last()).push((members.last().key@, members.last().value@))
    }
}

/// `list_view` keeps the length and views item by item.
pub proof fn lemma_list_view(items: Seq<Json>)
    ensures
        list_view(items).len() == items.len(),
        forall|i: int| 0 <= i < items.len() ==> (#[trigger] list_view(items)[i]) == items[i]@,
    decreases items.len(),
{
    if items.len() > 0 {
        lemma_list_view(items.drop_last());
        assert(list_view(items) == list_view(items.drop_last()).push(items.last()@));
    } else {
        assert(list_view(items) == Seq::<JsonValue>::empty());
    }
}

/// `record_view` keeps the length and views member by member.
pub proof fn lemma_record_view(members: Seq<Member>)
    ensures
        record_view(members).len() == members.len(),
        forall|i: int|
            0 <= i < members.len() ==> (#[trigger] record_view(members)[i]) == (
                members[i].key@,
                members[i].value@,
            ),
    decreases members.len(),
{
    if members.len() > 0 {
        lemma_record_view(members.drop_last());
        assert(record_view(members) == record_view(members.drop_last()).push(
            (members.last().key@, members.last().value@),
        ));
    } else {
        assert(record_view(members) == Seq::<(Seq<char>, JsonValue)>::empty());
    }
}

/// The index of the last member of `members` whose key is `key`, or -1 where
/// there is none.
pub open spec fn last_position(members: Seq<(Seq<char>, JsonValue)>, key: Seq<char>) -> int
    decreases members.len(),
{
    if members.len() == 0 {
        -1
    } else if members.last().0 == key {
        members.len() - 1
    } else {
        last_position(members.drop_last(), key)
    }
}

/// `last_position` answers with -1 or with the index of a member that has the key,
/// after which no member has it.
pub proof fn lemma_last_position(members: Seq<(Seq<char>, JsonValue)>, key: Seq<char>)
    ensures
        -1 <= last_position(members, key) < members.len(),
        last_position(members, key) >= 0 ==> members[last_position(members, key)].0 == key,
        forall|i: int|
            last_position(members, key) < i < members.len() ==> (#[trigger] members[i]).0 != key,
    decreases members.len(),
{
    if members.len() > 0 && members.last().0 != key {
        let front = members.drop_last();
        lemma_last_position(front, key);
        assert forall|i: int| last_position(members, key) < i < members.len() implies (
        #[trigger] members[i]).0 != key by {
            if i < front.len() {
                assert(front[i] == members[i]);
            }
        }
    }
}

impl JsonValue {
    pub open spec fn kind(self) -> JsonKind {
        match self {
            JsonValue::Null => JsonKind::Null,
            JsonValue::Bool(_) => JsonKind::Bool,
            JsonValue::Number(_) => JsonKind::Number,
            JsonValue::Text(_) => JsonKind::Text,
            JsonValue::List(_) => JsonKind::List,
            JsonValue::Record(_) => JsonKind::Record,
        }
    }

    /// The value that an object holds under `key`: that of the last member with
    /// that key. `None` where no member has it, or `self` is no object.
    pub open spec fn member(self, key: Seq<char>) -> Option<JsonValue> {
        match self {
            JsonValue::Record(members) => {
                let i = last_position(members, key);
                if 0 <= i < members.len() {
                    Some(members[i].1)
                } else {
                    None
                }
            },
            _ => None,
        }
    }

    /// A member counts as absent where the object does not hold it or holds
    /// `null` under its key.
    pub open spec fn optional(self, key: Seq<char>) -> Option<JsonValue> {
        match self.member(key) {
            Some(JsonValue::Null) => None,
            other => other,
        }
    }
}

/// What is inside a value is smaller than the value.
pub proof fn lemma_member_decreases(value: JsonValue, key: Seq<char>)
    ensures
        value.member(key) matches Some(inner) ==> decreases_to!(value => inner),
{
    if let JsonValue::Record(members) = value {
        lemma_last_position(members, key);
        let i = last_position(members, key);
        if 0 <= i < members.len() {
            assert(decreases_to!(value => value->Record_0));
            assert(decreases_to!(members => members[i]));
            assert(decreases_to!(members[i] => members[i].1));
        }
    }
}

impl Json {
    pub fn kind(&self) -> (kind: JsonKind)
        ensures
            kind == self@.kind(),
    {
        match self {
            Json::Null => JsonKind::Null,
            Json::Bool(_) => JsonKind::Bool,
            Json::Number(_) => JsonKind::Number,
            Json::Text(_) => JsonKind::Text,
            Json::List(_) => JsonKind::List,
            Json::Record(_) => JsonKind::Record,
        }
    }

    /// The value held under `key`, where `self` is an object that has such a
    /// member; of several members with one key the last counts.
    pub fn member(&self, key: &str) -> (found: Option<&Json>)
        ensures
            match found {
                Some(value) => self@.member(key@) == Some(value@) && decreases_to!(*self => *value),
                None => self@.member(key@) is None,
            },
    {
        match self {
            Json::Record(members) => {
                let wanted = String::from_str(key);
                let ghost model = self@->Record_0;
                let mut i: usize = members.len();
                proof {
                    lemma_record_view(members@);
                    assert(model.take(i as int) =~= model);
                }
                while i > 0
                    invariant
                        i <= members.len(),
                        wanted@ == key@,
                        *self == Json::Record(*members),
                        self@ == JsonValue::Record(model),
                        model.len() == members@.len(),
                        forall|j: int|
                            0 <= j < model.len() ==> #[trigger] model[j] == (
                                members@[j].key@,
                                members@[j].value@,
                            ),
                        last_position(model, key@) == last_position(model.take(i as int), key@),
                    decreases i,
                {
                    i -= 1;
                    proof {
                        assert(model.take(i + 1).last() == model[i as int]);
                        assert(model.take(i + 1).drop_last() =~= model.take(i as int));
                    }
                    if members[i].key == wanted {
                        proof {
                            assert(decreases_to!(*self => self->Record_0));
                            assert(decreases_to!(*members => members@[i as int]));
                            assert(decreases_to!(members@[i as int] => members@[i as int].value));
                        }
                        return Some(&members[i].value);
                    }
                }
                proof {
                    assert(model.take(0) =~= Seq::<(Seq<char>, JsonValue)>::empty());
                }
                None
            },
            _ => None,
        }
    }

    /// As [`Json::member`], with a member that holds `null` counted as absent.
    pub fn optional(&self, key: &str) -> (found: Option<&Json>)
        ensures
            match found {
                Some(value) => self@.optional(key@) == Some(value@) && decreases_to!(*self => *value),
                None => self@.optional(key@) is None,
            },
    {
        match self.member(key) {
            Some(Json::Null) => None,
            other => other,
        }
    }
}

/// Whether two texts are the same, character by character.
pub fn same_text(left: &str, right: &str) -> (same: bool)
    ensures
        same == (left@ == right@),
{
    String::from_str(left) == String::from_str(right)
}

/// What `serde_json::from_str` makes of a text: the value that the text denotes,
/// or the message of the error with which it refuses the text.
pub uninterp spec fn json_reading(text: Seq<char>) -> Result<JsonValue, Seq<char>>;

/// The mathematical content of the outcome of a reading.
pub open spec fn reading_view(outcome: Result<Json, String>) -> Result<JsonValue, Seq<char>> {
    match outcome {
        Ok(json) => Ok(json@),
        Err(message) => Err(message@),
    }
}

#[verifier::external_type_specification]
#[verifier::external_body]
pub struct ExValue(serde_json::Value);

/// What a `serde_json::Value` holds: null, a truth value, a number, a text, the
/// items of an array in their order, or the members of an object in the order
/// in which the object hands them out.
pub uninterp spec fn value_content(value: serde_json::Value) -> JsonValue;

/// Calls `serde_json::from_str` for a `serde_json::Value`; an error is turned
/// into its message by `to_string`. The contract claims only that the outcome
/// is a function of the text: what the value holds, or the message, is what
/// [`json_reading`] names.
#[verifier::external_body]
fn read_value(text: &str) -> (outcome: Result<serde_json::Value, String>)
    ensures
        match outcome {
            Ok(value) => json_reading(text@) == Ok::<JsonValue, Seq<char>>(value_content(value)),
            Err(message) => json_reading(text@) == Err::<JsonValue, Seq<char>>(message@),
        },
{
    match serde_json::from_str::<serde_json::Value>(text) {
        Ok(value) => Ok(value),
        Err(error) => Err(error.to_string()),
    }
}

/// Moves a `serde_json::Value` into a [`Json`], variant by variant and item by
/// item; a number goes through `serde_json::Number::as_i64`. The contract
/// claims that the result holds what the value held.
#[verifier::external_body]
fn json_from_value(value: serde_json::Value) -> (json: Json)
    ensures
        json@ == value_content(value),
{
    match value {
        serde_json::Value::Null => Json::Null,
        serde_json::Value::Bool(b) => Json::Bool(b),
        serde_json::Value::Number(n) => Json::Number(n.as_i64()),
        serde_json::Value::String(s) => Json::Text(s),
        serde_json::Value::Array(items) => Json::List(items.into_iter().map(json_from_value).collect()),
        serde_json::Value::Object(members) => Json::Record(
            members.into_iter().map(|(key, value)| Member { key, value: json_from_value(value) }).collect(),
        ),
    }
}

/// Reads a text as JSON.
pub fn read_json(text: &str) -> (outcome: Result<Json, String>)
    ensures
        reading_view(outcome) == json_reading(text@),
{
    match read_value(text) {
        Ok(value) => Ok(json_from_value(value)),
        Err(message) => Err(message),
    }
}

} // verus!
