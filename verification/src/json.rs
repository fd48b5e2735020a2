//! JSON values.

use vstd::prelude::*;

use crate::outside::json_bytes;
use crate::outside::write_json;
use crate::text::same_text;
use crate::text::texts;

verus! {

/// A JSON value. A number is held as it is written, an integer apart from one with a fraction
/// or an exponent, and the members of an object stand in the order in which they are written.
#[derive(Debug)]
pub enum Json {
    Null,
    Bool(bool),
    Number(String),
    Float(String),
    Str(String),
    Array(Vec<Json>),
    Object(Vec<(String, Json)>),
}

/// A JSON value as a mathematical value.
pub enum Value {
    Null,
    Bool(bool),
    Number(Seq<char>),
    Float(Seq<char>),
    Str(Seq<char>),
    Array(Seq<Value>),
    Object(Seq<(Seq<char>, Value)>),
}

/// A JSON value as a mathematical value.
pub open spec fn value_of(j: Json) -> Value
    decreases j,
{
    match j {
        Json::Null => Value::Null,
        Json::Bool(b) => Value::Bool(b),
        Json::Number(n) => Value::Number(n@),
        Json::Float(x) => Value::Float(x@),
        Json::Str(s) => Value::Str(s@),
        Json::Array(items) => Value::Array(
            Seq::new(
                items@.len(),
                |i: int|
                    if 0 <= i < items@.len() {
                        value_of(items@[i])
                    } else {
                        Value::Null
                    },
            ),
        ),
        Json::Object(members) => Value::Object(
            Seq::new(
                members@.len(),
                |i: int|
                    if 0 <= i < members@.len() {
                        (members@[i].0@, value_of(members@[i].1))
                    } else {
                        (Seq::<char>::empty(), Value::Null)
                    },
            ),
        ),
    }
}

impl View for Json {
    type V = Value;

    open spec fn view(&self) -> Value {
        value_of(*self)
    }
}

/// Members of an object as mathematical values.
pub open spec fn members_of(members: Seq<(String, Json)>) -> Seq<(Seq<char>, Value)> {
    members.map_values(|m: (String, Json)| (m.0@, m.1@))
}

/// Items of an array as mathematical values.
pub open spec fn items_of(items: Seq<Json>) -> Seq<Value> {
    items.map_values(|j: Json| j@)
}

/// An object is its members.
pub proof fn lemma_object(members: Vec<(String, Json)>)
    ensures
        Json::Object(members)@ == Value::Object(members_of(members@)),
{
    assert(Json::Object(members)@->Object_0 =~= members_of(members@));
}

/// An array is its items.
pub proof fn lemma_array(items: Vec<Json>)
    ensures
        Json::Array(items)@ == Value::Array(items_of(items@)),
{
    assert(Json::Array(items)@->Array_0 =~= items_of(items@));
}

/// How deep arrays and objects may stand in one another to be read or written.
pub const MAX_JSON_DEPTH: u32 = 128;

/// Whether arrays and objects stand in one another no deeper than `n`.
pub open spec fn is_shallow(value: Value, n: nat) -> bool
    decreases n,
{
    match value {
        Value::Array(items) => n > 0 && forall|i: int|
            0 <= i < items.len() ==> is_shallow(#[trigger] items[i], (n - 1) as nat),
        Value::Object(members) => n > 0 && forall|i: int|
            0 <= i < members.len() ==> is_shallow((#[trigger] members[i]).1, (n - 1) as nat),
        _ => true,
    }
}

/// The items of an array are less deep than the array.
proof fn lemma_shallow_item(items: Seq<Value>, n: nat, i: int)
    requires
        is_shallow(Value::Array(items), n),
        0 <= i < items.len(),
    ensures
        n > 0,
        is_shallow(items[i], (n - 1) as nat),
{
    assert(Value::Array(items)->Array_0[i] == items[i]);
}

/// The members of an object are less deep than the object.
proof fn lemma_shallow_member(members: Seq<(Seq<char>, Value)>, n: nat, i: int)
    requires
        is_shallow(Value::Object(members), n),
        0 <= i < members.len(),
    ensures
        n > 0,
        is_shallow(members[i].1, (n - 1) as nat),
{
    assert(Value::Object(members)->Object_0[i] == members[i]);
}

/// Whether arrays and objects stand in one another no deeper than `n`.
fn shallow(json: &Json, n: u32) -> (r: bool)
    ensures
        r == is_shallow(json@, n as nat),
    decreases n,
{
    match json {
        Json::Array(items) => {
            proof {
                lemma_array(*items);
            }
            if n == 0 {
                return false;
            }
            let mut i: usize = 0;
            while i < items.len()
                invariant
                    i <= items@.len(),
                    n > 0,
                    json@ == Value::Array(items_of(items@)),
                    forall|j: int|
                        0 <= j < i ==> is_shallow(#[trigger] items_of(items@)[j], (n - 1) as nat),
                decreases items@.len() - i,
            {
                assert(items_of(items@)[i as int] == items@[i as int]@);
                if !shallow(&items[i], n - 1) {
                    proof {
                        if is_shallow(json@, n as nat) {
                            lemma_shallow_item(items_of(items@), n as nat, i as int);
                        }
                    }
                    return false;
                }
                i += 1;
            }
            true
        },
        Json::Object(members) => {
            proof {
                lemma_object(*members);
            }
            if n == 0 {
                return false;
            }
            let mut i: usize = 0;
            while i < members.len()
                invariant
                    i <= members@.len(),
                    n > 0,
                    json@ == Value::Object(members_of(members@)),
                    forall|j: int|
                        0 <= j < i ==> is_shallow(
                            (#[trigger] members_of(members@)[j]).1,
                            (n - 1) as nat,
                        ),
                decreases members@.len() - i,
            {
                assert(members_of(members@)[i as int].1 == members@[i as int].1@);
                if !shallow(&members[i].1, n - 1) {
                    proof {
                        if is_shallow(json@, n as nat) {
                            lemma_shallow_member(members_of(members@), n as nat, i as int);
                        }
                    }
                    return false;
                }
                i += 1;
            }
            true
        },
        _ => true,
    }
}

/// The bytes that a JSON value is sent as, where it is not too deep and its numbers are numbers.
pub open spec fn sent_bytes(value: Value) -> Option<Seq<u8>> {
    if is_shallow(value, MAX_JSON_DEPTH as nat) {
        json_bytes(value)
    } else {
        None
    }
}

/// The bytes that a JSON value is sent as, where it is not too deep and its numbers are numbers.
pub fn json_text(value: Json) -> (r: Option<Vec<u8>>)
    ensures
        match sent_bytes(value@) {
            Some(b) => r matches Some(v) && v@ == b,
            None => r is None,
        },
{
    if shallow(&value, MAX_JSON_DEPTH) {
        write_json(value)
    } else {
        None
    }
}

/// Texts as items of an array.
pub open spec fn text_items(ts: Seq<Seq<char>>) -> Value {
    Value::Array(ts.map_values(|t: Seq<char>| Value::Str(t)))
}

/// A JSON string.
pub fn text(s: &str) -> (r: Json)
    ensures
        r@ == Value::Str(s@),
{
    Json::Str(s.to_owned())
}

/// A JSON array of strings.
pub fn text_array(v: &Vec<String>) -> (r: Json)
    ensures
        r@ == text_items(texts(v@)),
{
    let mut items: Vec<Json> = Vec::new();
    let ghost f = |t: Seq<char>| Value::Str(t);
    let mut i: usize = 0;
    while i < v.len()
        invariant
            i <= v@.len(),
            f == (|t: Seq<char>| Value::Str(t)),
            items_of(items@) == texts(v@).take(i as int).map_values(f),
        decreases v@.len() - i,
    {
        let ghost before = items_of(items@);
        items.push(Json::Str(v[i].clone()));
        i += 1;
        assert(items_of(items@) =~= before.push(Value::Str(v@[i - 1]@)));
        assert(texts(v@).take(i as int).map_values(f) =~= texts(v@).take(i - 1).map_values(f).push(
            Value::Str(v@[i - 1]@),
        ));
    }
    assert(texts(v@).take(v@.len() as int) =~= texts(v@));
    proof {
        lemma_array(items);
    }
    Json::Array(items)
}

/// Appends a member.
pub fn push_member(members: &mut Vec<(String, Json)>, key: &str, value: Json)
    ensures
        members_of(final(members)@) == members_of(old(members)@).push((key@, value@)),
{
    let ghost shown = value@;
    members.push((key.to_owned(), value));
    assert(members_of(members@) =~= members_of(old(members)@).push((key@, shown)));
}

/// The object with the given members.
pub fn object(members: Vec<(String, Json)>) -> (r: Json)
    ensures
        r@ == Value::Object(members_of(members@)),
{
    proof {
        lemma_object(members);
    }
    Json::Object(members)
}

/// The position of the first member with the given name, from `from` on.
pub open spec fn member_place(m: Seq<(Seq<char>, Value)>, key: Seq<char>, from: int) -> Option<int>
    decreases m.len() - from,
{
    if from < 0 || from >= m.len() {
        None
    } else if m[from].0 == key {
        Some(from)
    } else {
        member_place(m, key, from + 1)
    }
}

/// The position of the first member with the given name.
pub fn find_member(members: &Vec<(String, Json)>, key: &str) -> (r: Option<usize>)
    ensures
        match r {
            Some(i) => i < members@.len() && member_place(members_of(members@), key@, 0) == Some(
                i as int,
            ),
            None => member_place(members_of(members@), key@, 0) is None,
        },
{
    let mut i: usize = 0;
    while i < members.len()
        invariant
            i <= members@.len(),
            member_place(members_of(members@), key@, 0) == member_place(
                members_of(members@),
                key@,
                i as int,
            ),
        decreases members@.len() - i,
    {
        assert(members_of(members@)[i as int].0 == members@[i as int].0@);
        if same_text(members[i].0.as_str(), key) {
            return Some(i);
        }
        i += 1;
    }
    None
}

/// The members with one more, where there is none of that name.
pub open spec fn with_default(
    m: Seq<(Seq<char>, Value)>,
    key: Seq<char>,
    value: Value,
) -> Seq<(Seq<char>, Value)> {
    match member_place(m, key, 0) {
        Some(_) => m,
        None => m.push((key, value)),
    }
}

/// Adds a member where there is none of that name.
pub fn push_default(members: &mut Vec<(String, Json)>, key: &str, value: Json)
    ensures
        members_of(final(members)@) == with_default(members_of(old(members)@), key@, value@),
{
    match find_member(members, key) {
        Some(_) => {},
        None => push_member(members, key, value),
    }
}

/// A found member has the name that was looked for.
pub proof fn lemma_member_place(m: Seq<(Seq<char>, Value)>, key: Seq<char>, from: int)
    requires
        0 <= from,
    ensures
        match member_place(m, key, from) {
            Some(i) => from <= i < m.len() && m[i].0 == key && forall|j: int|
                from <= j < i ==> (#[trigger] m[j]).0 != key,
            None => forall|j: int| from <= j < m.len() ==> (#[trigger] m[j]).0 != key,
        },
    decreases m.len() - from,
{
    if from < m.len() && m[from].0 != key {
        lemma_member_place(m, key, from + 1);
    }
}

/// Where a member is found depends on the names alone.
pub proof fn lemma_member_names(
    a: Seq<(Seq<char>, Value)>,
    b: Seq<(Seq<char>, Value)>,
    key: Seq<char>,
    from: int,
)
    requires
        0 <= from,
        a.len() <= b.len(),
        forall|i: int| 0 <= i < a.len() ==> (#[trigger] a[i]).0 == b[i].0,
    ensures
        member_place(a, key, from) is Some ==> member_place(b, key, from) == member_place(
            a,
            key,
            from,
        ),
        a.len() == b.len() ==> member_place(b, key, from) == member_place(a, key, from),
    decreases a.len() - from,
{
    if from < a.len() {
        assert(a[from].0 == b[from].0);
        lemma_member_names(a, b, key, from + 1);
    }
}

/// A member that is missing is added behind the others, with the given value. A list that has a
/// member of that name, with whatever value, stays as it is.
pub proof fn lemma_default_is_added_where_missing(
    m: Seq<(Seq<char>, Value)>,
    key: Seq<char>,
    value: Value,
)
    ensures
        (forall|i: int| 0 <= i < m.len() ==> (#[trigger] m[i]).0 != key) ==> with_default(
            m,
            key,
            value,
        ) == m + seq![(key, value)],
        (exists|i: int| 0 <= i < m.len() && (#[trigger] m[i]).0 == key) ==> with_default(
            m,
            key,
            value,
        ) == m,
{
    lemma_member_place(m, key, 0);
    assert(m.push((key, value)) =~= m + seq![(key, value)]);
}

/// The first member of a name is the one that is found.
pub proof fn lemma_first_member_is_found(
    before: Seq<(Seq<char>, Value)>,
    key: Seq<char>,
    value: Value,
    after: Seq<(Seq<char>, Value)>,
)
    requires
        forall|i: int| 0 <= i < before.len() ==> (#[trigger] before[i]).0 != key,
    ensures
        member_place(before + seq![(key, value)] + after, key, 0) == Some(before.len() as int),
        member_place(before, key, 0) is None,
{
    let m = before + seq![(key, value)] + after;
    let n = before.len() as int;
    lemma_member_place(m, key, 0);
    lemma_member_place(before, key, 0);
    assert(m[n] == (key, value));
    match member_place(m, key, 0) {
        Some(i) => {
            if i < n {
                assert(m[i] == before[i]);
            }
        },
        None => {},
    }
}

/// A list of texts, one by one.
pub proof fn lemma_text_items(ts: Seq<Seq<char>>, i: int)
    requires
        0 <= i < ts.len(),
    ensures
        text_items(ts) matches Value::Array(items) && items.len() == ts.len() && items[i]
            == Value::Str(ts[i]),
{
}

/// How deep a value is: one that holds nothing is no level deep, and a list or an object is one
/// level deeper than what it holds.
pub proof fn lemma_depth(items: Seq<Value>, members: Seq<(Seq<char>, Value)>, text: Seq<char>, n: nat)
    ensures
        is_shallow(Value::Null, 0),
        is_shallow(Value::Str(text), 0),
        is_shallow(Value::Number(text), 0),
        !is_shallow(Value::Array(items), 0),
        !is_shallow(Value::Object(members), 0),
        is_shallow(Value::Array(items), n + 1) <==> forall|i: int|
            0 <= i < items.len() ==> is_shallow(#[trigger] items[i], n),
        is_shallow(Value::Object(members), n + 1) <==> forall|i: int|
            0 <= i < members.len() ==> is_shallow((#[trigger] members[i]).1, n),
{
    assert((n + 1 - 1) as nat == n);
    let a = Value::Array(items);
    let o = Value::Object(members);
    assert(a->Array_0 == items);
    assert(o->Object_0 == members);
    if forall|i: int| 0 <= i < items.len() ==> is_shallow(#[trigger] items[i], n) {
        assert(is_shallow(a, n + 1));
    }
    if is_shallow(a, n + 1) {
        assert forall|i: int| 0 <= i < items.len() implies is_shallow(#[trigger] items[i], n) by {
            assert(a->Array_0[i] == items[i]);
        }
    }
    if forall|i: int| 0 <= i < members.len() ==> is_shallow((#[trigger] members[i]).1, n) {
        assert(is_shallow(o, n + 1));
    }
    if is_shallow(o, n + 1) {
        assert forall|i: int| 0 <= i < members.len() implies is_shallow(
            (#[trigger] members[i]).1,
            n,
        ) by {
            assert(o->Object_0[i] == members[i]);
        }
    }
}

/// What a value in memory stands for, and how deep a value may be that is sent: 128 levels.
pub proof fn lemma_values(b: bool, s: String, items: Vec<Json>, value: Value)
    ensures
        Json::Null@ == Value::Null,
        Json::Bool(b)@ == Value::Bool(b),
        Json::Number(s)@ == Value::Number(s@),
        Json::Str(s)@ == Value::Str(s@),
        Json::Array(items)@ == Value::Array(items@.map_values(|j: Json| j@)),
        is_shallow(value, 128) ==> sent_bytes(value) == json_bytes(value),
        !is_shallow(value, 128) ==> sent_bytes(value) is None,
{
    lemma_array(items);
}

} // verus!
