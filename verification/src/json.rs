//! A JSON document as plain values, with the accessors that the user-info
//! parser reads it through (`get`, `as_str`, `as_i64`, `as_bool`, numbers).
use vstd::prelude::*;

verus! {

broadcast use vstd::string::group_string_axioms;

/// A JSON number: a non-negative integer, a negative integer, or a finite
/// floating-point number kept as the bits of its `f64`.
#[derive(Debug, Clone, Copy, PartialEq, Eq)]
pub enum JsonNumber {
    PosInt(u64),
    NegInt(i64),
    Float(u64),
}

/// A JSON value. An object keeps its members in order; its keys are distinct
/// when it comes from a parsed document.
#[derive(Debug, PartialEq)]
pub enum JsonValue {
    Null,
    Bool(bool),
    Number(JsonNumber),
    String(String),
    Array(Vec<JsonValue>),
    Object(Vec<(String, JsonValue)>),
}

/// The value of the first member named `key`.
pub open spec fn member_lookup(members: Seq<(String, JsonValue)>, key: Seq<char>) -> Option<
    JsonValue,
>
    decreases members.len(),
{
    if members.len() == 0 {
        None
    } else if members[0].0@ == key {
        Some(members[0].1)
    } else {
        member_lookup(members.skip(1), key)
    }
}

/// A member inserted anywhere leaves the lookup of every other key as it was.
pub proof fn lemma_member_insert_keeps_lookup(
    members: Seq<(String, JsonValue)>,
    i: int,
    member: (String, JsonValue),
    key: Seq<char>,
)
    requires
        0 <= i <= members.len(),
        member.0@ != key,
    ensures
        member_lookup(members.insert(i, member), key) == member_lookup(members, key),
    decreases i,
{
    let more = members.insert(i, member);
    if i == 0 {
        assert(more[0] == member);
        assert(more.skip(1) =~= members);
    } else {
        lemma_member_insert_keeps_lookup(members.skip(1), i - 1, member, key);
        assert(more[0] == members[0]);
        assert(more.skip(1) =~= members.skip(1).insert(i - 1, member));
    }
}

/// `Value::get` with a string key: the member of an object, nothing for any
/// other kind of value.
pub open spec fn json_get(v: JsonValue, key: Seq<char>) -> Option<JsonValue> {
    match v {
        JsonValue::Object(members) => member_lookup(members@, key),
        _ => None,
    }
}

/// `json_get` on an optional value.
pub open spec fn json_get_opt(v: Option<JsonValue>, key: Seq<char>) -> Option<JsonValue> {
    match v {
        Some(inner) => json_get(inner, key),
        None => None,
    }
}

/// `Value::as_str`.
pub open spec fn json_str(v: Option<JsonValue>) -> Option<Seq<char>> {
    match v {
        Some(JsonValue::String(s)) => Some(s@),
        _ => None,
    }
}

/// `Value::as_i64`: integers that fit in an `i64`.
pub open spec fn json_i64(v: Option<JsonValue>) -> Option<i64> {
    match v {
        Some(JsonValue::Number(JsonNumber::PosInt(n))) => if n <= 0x7fff_ffff_ffff_ffff {
            Some(n as i64)
        } else {
            None
        },
        Some(JsonValue::Number(JsonNumber::NegInt(n))) => Some(n),
        _ => None,
    }
}

/// `Value::as_bool`.
pub open spec fn json_bool(v: Option<JsonValue>) -> Option<bool> {
    match v {
        Some(JsonValue::Bool(b)) => Some(b),
        _ => None,
    }
}

/// The number a value holds; `Value::as_f64` gives a float exactly for these.
pub open spec fn json_number(v: Option<JsonValue>) -> Option<JsonNumber> {
    match v {
        Some(JsonValue::Number(n)) => Some(n),
        _ => None,
    }
}

/// A member lookup finds the first member with the key, and finds one
/// whenever there is one.
pub proof fn lemma_member_lookup_first(members: Seq<(String, JsonValue)>, key: Seq<char>)
    ensures
        member_lookup(members, key) is None <==> forall|i: int|
            0 <= i < members.len() ==> (#[trigger] members[i]).0@ != key,
        member_lookup(members, key) matches Some(v) ==> exists|i: int|
            0 <= i < members.len() && (#[trigger] members[i]).0@ == key && members[i].1 == v
                && forall|j: int| 0 <= j < i ==> (#[trigger] members[j]).0@ != key,
    decreases members.len(),
{
    if members.len() > 0 {
        let rest = members.skip(1);
        lemma_member_lookup_first(rest, key);
        assert forall|i: int| 1 <= i < members.len() implies #[trigger] members[i] == rest[i - 1] by {}
        if members[0].0@ == key {
            assert(members[0].0@ == key && members[0].1 == member_lookup(members, key)->0);
        } else if member_lookup(rest, key) is Some {
            let v = member_lookup(rest, key)->0;
            let i = choose|i: int|
                0 <= i < rest.len() && (#[trigger] rest[i]).0@ == key && rest[i].1 == v && forall|j: int|
                    0 <= j < i ==> (#[trigger] rest[j]).0@ != key;
            assert(members[i + 1] == rest[i]);
            assert forall|j: int| 0 <= j < i + 1 implies (#[trigger] members[j]).0@ != key by {
                if j > 0 {
                    assert(members[j] == rest[j - 1]);
                }
            }
        } else {
            assert forall|i: int| 0 <= i < members.len() implies (#[trigger] members[i]).0@ != key by {
                if i > 0 {
                    assert(members[i] == rest[i - 1]);
                }
            }
        }
    }
}

/// `as_i64` gives an integer's exact value, never a wrapped one: a value is
/// read when the number is a negative integer, or a non-negative one of at
/// most `i64::MAX`, and then it equals the number.
pub proof fn lemma_json_i64_exact(v: Option<JsonValue>)
    ensures
        json_i64(v) is Some <==> (v matches Some(JsonValue::Number(JsonNumber::PosInt(n)))
            && n <= 0x7fff_ffff_ffff_ffff) || (v matches Some(
            JsonValue::Number(JsonNumber::NegInt(_)),
        )),
        v matches Some(JsonValue::Number(JsonNumber::PosInt(n))) ==> (json_i64(v) matches Some(x)
            ==> x as int == n as int),
        v matches Some(JsonValue::Number(JsonNumber::NegInt(m))) ==> json_i64(v) == Some(m),
{
}

/// `as_str`, `as_bool` and the number accessor read only their own kind of
/// value, and read it as it is; only an object has members.
pub proof fn lemma_json_accessors_read_own_kind(v: Option<JsonValue>)
    ensures
        json_str(v) is Some <==> v matches Some(JsonValue::String(_)),
        v matches Some(JsonValue::String(t)) ==> json_str(v) == Some(t@),
        json_bool(v) is Some <==> v matches Some(JsonValue::Bool(_)),
        v matches Some(JsonValue::Bool(b)) ==> json_bool(v) == Some(b),
        json_number(v) is Some <==> v matches Some(JsonValue::Number(_)),
        v matches Some(JsonValue::Number(n)) ==> json_number(v) == Some(n),
        forall|key: Seq<char>|
            #[trigger] json_get_opt(v, key) is Some ==> v matches Some(JsonValue::Object(_)),
{
}

impl JsonValue {
    /// The member `key` of an object; `None` for other values.
    pub fn get(&self, key: &str) -> (r: Option<&JsonValue>)
        ensures
            match r {
                Some(v) => json_get(*self, key@) == Some(*v),
                None => json_get(*self, key@) is None,
            },
    {
        match self {
            JsonValue::Object(members) => {
                let n = members.len();
                let k = key.to_string();
                assert(members@.skip(0) == members@);
                for i in 0..n
                    invariant
                        n == members@.len(),
                        k@ == key@,
                        *self == JsonValue::Object(*members),
                        member_lookup(members@, key@) == member_lookup(members@.skip(i as int), key@),
                {
                    proof {
                        assert(members@.skip(i as int).skip(1) == members@.skip(i + 1));
                        assert(members@.skip(i as int)[0] == members@[i as int]);
                    }
                    if members[i].0 == k {
                        assert(member_lookup(members@.skip(i as int), key@) == Some(
                            members@[i as int].1,
                        ));
                        return Some(&members[i].1);
                    }
                }
                assert(members@.skip(n as int).len() == 0);
                None
            },
            _ => None,
        }
    }

    /// The text of a string value.
    pub fn as_str(&self) -> (r: Option<&str>)
        ensures
            match r {
                Some(s) => json_str(Some(*self)) == Some(s@),
                None => json_str(Some(*self)) is None,
            },
    {
        match self {
            JsonValue::String(s) => Some(s.as_str()),
            _ => None,
        }
    }

    /// An integer value that fits in an `i64`.
    pub fn as_i64(&self) -> (r: Option<i64>)
        ensures
            r == json_i64(Some(*self)),
    {
        match self {
            JsonValue::Number(JsonNumber::PosInt(n)) => if *n <= 0x7fff_ffff_ffff_ffff {
                Some(*n as i64)
            } else {
                None
            },
            JsonValue::Number(JsonNumber::NegInt(n)) => Some(*n),
            _ => None,
        }
    }

    /// A boolean value.
    pub fn as_bool(&self) -> (r: Option<bool>)
        ensures
            r == json_bool(Some(*self)),
    {
        match self {
            JsonValue::Bool(b) => Some(*b),
            _ => None,
        }
    }

    /// A number value, of any kind.
    pub fn as_number(&self) -> (r: Option<JsonNumber>)
        ensures
            r == json_number(Some(*self)),
    {
        match self {
            JsonValue::Number(n) => Some(*n),
            _ => None,
        }
    }
}

} // verus!
