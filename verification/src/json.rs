//! JSON documents as plain values: parsing a text into one with serde_json,
//! and reading members out of it the way indexing a `serde_json::Value` by a
//! key does.

use vstd::prelude::*;
use crate::text::str_equal;

verus! {

/// A JSON value. Numbers are kept as their text; an object keeps its members
/// in order. Reading a member by name takes the first member of that name
/// (a document from serde_json has each name once).
#[derive(Debug)]
pub enum JsonValue {
    Null,
    Bool(bool),
    Number(String),
    Str(String),
    Array(Vec<JsonValue>),
    Object(Vec<(String, JsonValue)>),
}


#[verifier::external_type_specification]
#[verifier::external_body]
pub struct ExValue(serde_json::Value);

/// What serde_json makes of a text: the document, or the text of its error.
pub uninterp spec fn json_of_text(text: Seq<char>) -> Result<JsonValue, Seq<char>>;

/// The plain form of a `serde_json::Value`, kind for kind; numbers become
/// their text as `Number`'s `Display` writes it.
#[verifier::external_body]
fn json_value_of(v: &serde_json::Value) -> JsonValue {
    match v {
        serde_json::Value::Null => JsonValue::Null,
        serde_json::Value::Bool(b) => JsonValue::Bool(*b),
        serde_json::Value::Number(n) => JsonValue::Number(n.to_string()),
        serde_json::Value::String(s) => JsonValue::Str(s.clone()),
        serde_json::Value::Array(a) => JsonValue::Array(a.iter().map(json_value_of).collect()),
        serde_json::Value::Object(m) => JsonValue::Object(
            m.iter().map(|(k, x)| (k.clone(), json_value_of(x))).collect(),
        ),
    }
}

/// Calls `serde_json::from_str::<serde_json::Value>`. Its outcome is taken to
/// be `json_of_text` of the text, a function of the text alone: the document
/// (in plain form) when the text is JSON, else the error's text. Which texts
/// parse, and to what, is left to serde_json.
#[verifier::external_body]
pub(crate) fn parse_json(text: &str) -> (r: Result<JsonValue, String>)
    ensures
        match r {
            Ok(v) => json_of_text(text@) == Ok::<JsonValue, Seq<char>>(v),
            Err(e) => json_of_text(text@) == Err::<JsonValue, Seq<char>>(e@),
        },
{
    match serde_json::from_str::<serde_json::Value>(text) {
        Ok(v) => Ok(json_value_of(&v)),
        Err(e) => Err(e.to_string()),
    }
}

/// The value of the first member named `key` among `members`.
pub open spec fn lookup(members: Seq<(String, JsonValue)>, key: Seq<char>) -> Option<JsonValue>
    decreases members.len(),
{
    if members.len() == 0 {
        None
    } else if members[0].0@ == key {
        Some(members[0].1)
    } else {
        lookup(members.drop_first(), key)
    }
}


/// Reading a member by name gives the value of the first member of that
/// name, and nothing when no member has it.
pub proof fn lemma_lookup_first(members: Seq<(String, JsonValue)>, key: Seq<char>)
    ensures
        lookup(members, key) is None <==> forall|i: int| 0 <= i < members.len() ==> (#[trigger] members[i]).0@ != key,
        lookup(members, key) is Some ==> exists|i: int|
            0 <= i < members.len() && (#[trigger] members[i]).0@ == key && lookup(members, key) == Some(members[i].1)
                && forall|j: int| 0 <= j < i ==> (#[trigger] members[j]).0@ != key,
    decreases members.len(),
{
    if members.len() > 0 {
        let t = members.drop_first();
        lemma_lookup_first(t, key);
        assert forall|i: int| 0 <= i < t.len() implies #[trigger] t[i] == members[i + 1] by {}
        if members[0].0@ != key {
            if lookup(members, key) is Some {
                let i = choose|i: int|
                    0 <= i < t.len() && (#[trigger] t[i]).0@ == key && lookup(t, key) == Some(t[i].1)
                        && forall|j: int| 0 <= j < i ==> (#[trigger] t[j]).0@ != key;
                assert(members[i + 1] == t[i]);
                assert forall|j: int| 0 <= j < i + 1 implies (#[trigger] members[j]).0@ != key by {
                    if j > 0 {
                        assert(members[j] == t[j - 1]);
                    }
                }
            } else {
                assert forall|i: int| 0 <= i < members.len() implies (#[trigger] members[i]).0@ != key by {
                    if i > 0 {
                        assert(members[i] == t[i - 1]);
                    }
                }
            }
        }
    }
}

/// The member `key` of `v` when `v` is an object that has one.
pub open spec fn member(v: JsonValue, key: Seq<char>) -> Option<JsonValue> {
    match v {
        JsonValue::Object(members) => lookup(members@, key),
        _ => None,
    }
}

/// The member `key` of `v` when it is a string, by its characters.
pub open spec fn str_member(v: JsonValue, key: Seq<char>) -> Option<Seq<char>> {
    match member(v, key) {
        Some(JsonValue::Str(s)) => Some(s@),
        _ => None,
    }
}

/// The member `key` of `v`, when `v` is an object that has one.
pub fn get_member<'a>(v: &'a JsonValue, key: &str) -> (r: Option<&'a JsonValue>)
    ensures
        match r {
            Some(m) => member(*v, key@) == Some(*m),
            None => member(*v, key@).is_none(),
        },
{
    match v {
        JsonValue::Object(members) => {
            let n = members.len();
            let mut i: usize = 0;
            assert(members@.skip(0) =~= members@);
            while i < n
                invariant
                    n == members@.len(),
                    *v == JsonValue::Object(*members),
                    i <= n,
                    lookup(members@, key@) == lookup(members@.skip(i as int), key@),
                decreases n - i,
            {
                assert(members@.skip(i as int).drop_first() =~= members@.skip(i + 1));
                assert(members@.skip(i as int)[0] == members@[i as int]);
                if str_equal(members[i].0.as_str(), key) {
                    return Some(&members[i].1);
                }
                i = i + 1;
            }
            None
        },
        _ => None,
    }
}

/// The member `key` of `v` when it is a string.
pub fn get_str_member<'a>(v: &'a JsonValue, key: &str) -> (r: Option<&'a String>)
    ensures
        match r {
            Some(s) => str_member(*v, key@) == Some(s@),
            None => str_member(*v, key@).is_none(),
        },
{
    match get_member(v, key) {
        Some(JsonValue::Str(s)) => Some(s),
        _ => None,
    }
}

} // verus!
