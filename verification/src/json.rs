//! A JSON document as plain data, for plugin and configuration settings.
use vstd::prelude::*;

use crate::text::{chars_equal, chars_of};

verus! {

/// A JSON value. Numbers are kept as their decimal text.
#[derive(Debug)]
pub enum JsonValue {
    Null,
    Bool(bool),
    Number(String),
    String(String),
    Array(Vec<JsonValue>),
    /// Members in document order.
    Object(Vec<(String, JsonValue)>),
}

/// Member `i` is the first one named `key`.
pub open spec fn is_first_member(members: Seq<(String, JsonValue)>, key: Seq<char>, i: int) -> bool {
    &&& 0 <= i < members.len()
    &&& members[i].0@ == key
    &&& forall|j: int| 0 <= j < i ==> #[trigger] members[j].0@ != key
}

/// The position of the first member of `members` named `key`.
pub open spec fn member_index(members: Seq<(String, JsonValue)>, key: Seq<char>) -> Option<int> {
    if exists|i: int| is_first_member(members, key, i) {
        Some(choose|i: int| is_first_member(members, key, i))
    } else {
        None
    }
}

/// `value[key]`: the member named `key` of an object, `None` otherwise.
pub open spec fn spec_member(value: JsonValue, key: Seq<char>) -> Option<JsonValue> {
    match value {
        JsonValue::Object(members) => match member_index(members@, key) {
            Some(i) => Some(members@[i].1),
            None => None,
        },
        _ => None,
    }
}

/// The string items of an array, in order, skipping items of other kinds.
pub open spec fn string_items(items: Seq<JsonValue>) -> Seq<Seq<char>>
    decreases items.len(),
{
    if items.len() == 0 {
        seq![]
    } else {
        let rest = string_items(items.drop_last());
        match items.last() {
            JsonValue::String(s) => rest.push(s@),
            _ => rest,
        }
    }
}

/// The strings listed under `key`: the string items when `value[key]` is an
/// array, nothing otherwise.
pub open spec fn spec_string_list(value: JsonValue, key: Seq<char>) -> Seq<Seq<char>> {
    match spec_member(value, key) {
        Some(JsonValue::Array(items)) => string_items(items@),
        _ => seq![],
    }
}

impl JsonValue {
    /// The member named `key`, when this is an object that has one.
    pub fn member(&self, key: &str) -> (r: Option<&JsonValue>)
        ensures
            r matches Some(v) ==> spec_member(*self, key@) == Some(*v),
            r is None ==> spec_member(*self, key@) is None,
    {
        match self {
            JsonValue::Object(members) => {
                let kc = chars_of(key);
                let mut i: usize = 0;
                while i < members.len()
                    invariant
                        *self == JsonValue::Object(*members),
                        kc@ == key@,
                        i <= members.len(),
                        forall|j: int| 0 <= j < i ==> #[trigger] members@[j].0@ != key@,
                    decreases members.len() - i,
                {
                    let name = chars_of(members[i].0.as_str());
                    if chars_equal(&name, &kc) {
                        proof {
                            assert(is_first_member(members@, key@, i as int));
                            let c = choose|c: int| is_first_member(members@, key@, c);
                            if c < i {
                                assert(members@[c].0@ != key@);
                            } else if c > i {
                                assert(members@[i as int].0@ != key@);
                            }
                        }
                        return Some(&members[i].1);
                    }
                    i += 1;
                }
                assert(!exists|c: int| is_first_member(members@, key@, c));
                None
            },
            _ => None,
        }
    }

    /// The strings listed under `key` (see [`spec_string_list`]).
    pub fn string_list(&self, key: &str) -> (r: Vec<String>)
        ensures
            r@.map_values(|s: String| s@) == spec_string_list(*self, key@),
    {
        let mut out: Vec<String> = Vec::new();
        match self.member(key) {
            Some(JsonValue::Array(items)) => {
                let mut i: usize = 0;
                while i < items.len()
                    invariant
                        i <= items.len(),
                        out@.map_values(|s: String| s@) == string_items(items@.take(i as int)),
                    decreases items.len() - i,
                {
                    assert(items@.take(i + 1).drop_last() =~= items@.take(i as int));
                    match &items[i] {
                        JsonValue::String(s) => {
                            out.push(s.clone());
                            assert(out@.map_values(|s: String| s@) =~= string_items(items@.take(i as int)).push(s@));
                        },
                        _ => {},
                    }
                    i += 1;
                }
                assert(items@.take(items.len() as int) =~= items@);
            },
            _ => {},
        }
        out
    }
}

} // verus!
