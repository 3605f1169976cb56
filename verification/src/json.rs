//! A JSON document as the library reads it: the same shape as a parsed
//! `serde_json::Value`, with numbers kept as the integer they hold or, for a
//! fraction, as its decimal text.

use vstd::prelude::*;
use crate::text::{chars_of, seq_eq, str_eq, to_string};

verus! {

/// A JSON number: a non-negative or negative integer, or a number with a
/// fraction or exponent written as its decimal text.
#[derive(Debug)]
pub enum JsonNumber {
    PosInt(u64),
    NegInt(i64),
    Float(String),
}

/// A JSON value. Object members keep the order of the document; a key occurs
/// at most once.
#[derive(Debug)]
pub enum Json {
    Null,
    Bool(bool),
    Number(JsonNumber),
    Str(String),
    Array(Vec<Json>),
    Object(Vec<(String, Json)>),
}

/// The mathematical value of a JSON number.
pub enum NumberV {
    PosInt(u64),
    NegInt(i64),
    Float(Seq<char>),
}

/// The mathematical value of a JSON document.
pub enum JsonV {
    Null,
    Bool(bool),
    Number(NumberV),
    Str(Seq<char>),
    Array(Seq<JsonV>),
    Object(Seq<(Seq<char>, JsonV)>),
}

pub open spec fn number_view(n: JsonNumber) -> NumberV {
    match n {
        JsonNumber::PosInt(x) => NumberV::PosInt(x),
        JsonNumber::NegInt(x) => NumberV::NegInt(x),
        JsonNumber::Float(t) => NumberV::Float(t@),
    }
}

pub open spec fn json_view(j: Json) -> JsonV
    decreases j,
{
    match j {
        Json::Null => JsonV::Null,
        Json::Bool(b) => JsonV::Bool(b),
        Json::Number(n) => JsonV::Number(number_view(n)),
        Json::Str(s) => JsonV::Str(s@),
        Json::Array(a) => JsonV::Array(
            Seq::new(a@.len(), |i: int| if 0 <= i < a@.len() { json_view(a@[i]) } else { JsonV::Null }),
        ),
        Json::Object(m) => JsonV::Object(
            Seq::new(
                m@.len(),
                |i: int|
                    if 0 <= i < m@.len() {
                        (m@[i].0@, json_view(m@[i].1))
                    } else {
                        (Seq::empty(), JsonV::Null)
                    },
            ),
        ),
    }
}

impl View for Json {
    type V = JsonV;

    open spec fn view(&self) -> JsonV {
        json_view(*self)
    }
}

impl View for JsonNumber {
    type V = NumberV;

    open spec fn view(&self) -> NumberV {
        number_view(*self)
    }
}

/// The value of the first member named `key`.
pub open spec fn members_get(members: Seq<(Seq<char>, JsonV)>, key: Seq<char>) -> Option<JsonV>
    decreases members.len(),
{
    if members.len() == 0 {
        None
    } else if members[0].0 == key {
        Some(members[0].1)
    } else {
        members_get(members.drop_first(), key)
    }
}

/// The member `key` of an object (`Value::get`).
pub open spec fn get(v: JsonV, key: Seq<char>) -> Option<JsonV> {
    match v {
        JsonV::Object(m) => members_get(m, key),
        _ => None,
    }
}

/// The member `key` of an object, `Null` when absent (`value["key"]`).
pub open spec fn at(v: JsonV, key: Seq<char>) -> JsonV {
    match get(v, key) {
        Some(x) => x,
        None => JsonV::Null,
    }
}

/// The element `i` of an array, `Null` when absent (`value[i]`).
pub open spec fn at_index(v: JsonV, i: int) -> JsonV {
    match v {
        JsonV::Array(a) => if 0 <= i < a.len() {
            a[i]
        } else {
            JsonV::Null
        },
        _ => JsonV::Null,
    }
}

pub open spec fn as_str(v: JsonV) -> Option<Seq<char>> {
    match v {
        JsonV::Str(s) => Some(s),
        _ => None,
    }
}

pub open spec fn as_array(v: JsonV) -> Option<Seq<JsonV>> {
    match v {
        JsonV::Array(a) => Some(a),
        _ => None,
    }
}

pub open spec fn as_object(v: JsonV) -> Option<Seq<(Seq<char>, JsonV)>> {
    match v {
        JsonV::Object(m) => Some(m),
        _ => None,
    }
}

pub open spec fn as_u64(v: JsonV) -> Option<u64> {
    match v {
        JsonV::Number(NumberV::PosInt(n)) => Some(n),
        JsonV::Number(NumberV::NegInt(n)) => if n >= 0 {
            Some(n as u64)
        } else {
            None
        },
        _ => None,
    }
}

pub open spec fn as_i64(v: JsonV) -> Option<i64> {
    match v {
        JsonV::Number(NumberV::PosInt(n)) => if n <= i64::MAX {
            Some(n as i64)
        } else {
            None
        },
        JsonV::Number(NumberV::NegInt(n)) => Some(n),
        _ => None,
    }
}

impl Json {
    /// The member `key` of an object.
    pub fn get(&self, key: &str) -> (r: Option<&Json>)
        ensures
            r matches Some(x) ==> get(self@, key@) == Some(x@),
            r is None ==> get(self@, key@) is None,
    {
        match self {
            Json::Object(members) => {
                let k = chars_of(key);
                let mut i: usize = 0;
                assert((self@->Object_0).skip(0) =~= self@->Object_0);
                while i < members.len()
                    invariant
                        i <= members@.len(),
                        k@ == key@,
                        self@ == json_view(Json::Object(*members)),
                        members_get(self@->Object_0, key@) == members_get(
                            (self@->Object_0).skip(i as int),
                            key@,
                        ),
                        (self@->Object_0).len() == members@.len(),
                        forall|j: int|
                            0 <= j < members@.len() ==> (#[trigger] (self@->Object_0)[j]) == (
                            members@[j].0@,
                            members@[j].1@,
                        ),
                    decreases members.len() - i,
                {
                    let kk = chars_of(members[i].0.as_str());
                    proof {
                        let mv = self@->Object_0;
                        assert(mv.skip(i as int)[0] == mv[i as int]);
                        assert(mv.skip(i as int).drop_first() =~= mv.skip(i + 1));
                    }
                    if seq_eq(&kk, &k) {
                        return Some(&members[i].1);
                    }
                    i += 1;
                }
                None
            },
            _ => None,
        }
    }

    /// The member `key` of an object, `Null` when absent.
    pub fn at(&self, key: &str) -> (r: Json)
        ensures
            r@ == at(self@, key@),
    {
        match self.get(key) {
            Some(x) => x.clone_json(),
            None => Json::Null,
        }
    }

    pub fn as_str(&self) -> (r: Option<&str>)
        ensures
            r matches Some(s) ==> as_str(self@) == Some(s@),
            r is None ==> as_str(self@) is None,
    {
        match self {
            Json::Str(s) => Some(s.as_str()),
            _ => None,
        }
    }

    pub fn as_array(&self) -> (r: Option<&Vec<Json>>)
        ensures
            r matches Some(a) ==> as_array(self@) == Some(a@.map_values(|x: Json| x@)),
            r is None ==> as_array(self@) is None,
    {
        match self {
            Json::Array(a) => Some(a),
            _ => None,
        }
    }

    pub fn as_u64(&self) -> (r: Option<u64>)
        ensures
            r == as_u64(self@),
    {
        match self {
            Json::Number(JsonNumber::PosInt(n)) => Some(*n),
            Json::Number(JsonNumber::NegInt(n)) => if *n >= 0 {
                Some(*n as u64)
            } else {
                None
            },
            _ => None,
        }
    }

    pub fn as_i64(&self) -> (r: Option<i64>)
        ensures
            r == as_i64(self@),
    {
        match self {
            Json::Number(JsonNumber::PosInt(n)) => if *n <= i64::MAX as u64 {
                Some(*n as i64)
            } else {
                None
            },
            Json::Number(JsonNumber::NegInt(n)) => Some(*n),
            _ => None,
        }
    }

    pub fn is_null(&self) -> (r: bool)
        ensures
            r == (self@ is Null),
    {
        match self {
            Json::Null => true,
            _ => false,
        }
    }

    pub fn is_object(&self) -> (r: bool)
        ensures
            r == (self@ is Object),
    {
        match self {
            Json::Object(_) => true,
            _ => false,
        }
    }

    /// A deep copy.
    pub fn clone_json(&self) -> (r: Json)
        ensures
            r@ == self@,
        decreases self,
    {
        match self {
            Json::Null => Json::Null,
            Json::Bool(b) => Json::Bool(*b),
            Json::Number(n) => Json::Number(
                match n {
                    JsonNumber::PosInt(x) => JsonNumber::PosInt(*x),
                    JsonNumber::NegInt(x) => JsonNumber::NegInt(*x),
                    JsonNumber::Float(t) => JsonNumber::Float(t.clone()),
                },
            ),
            Json::Str(s) => Json::Str(s.clone()),
            Json::Array(a) => {
                let mut out: Vec<Json> = Vec::new();
                let mut i: usize = 0;
                while i < a.len()
                    invariant
                        *self == Json::Array(*a),
                        i <= a@.len(),
                        out@.len() == i,
                        forall|j: int| 0 <= j < i ==> (#[trigger] out@[j])@ == a@[j]@,
                    decreases a.len() - i,
                {
                    assert(decreases_to!(*self => a@[i as int])) by {
                        assert(decreases_to!(*self => (*self)->Array_0));
                        assert(decreases_to!(*a => a@));
                        assert(decreases_to!(a@ => a@[i as int]));
                    }
                    out.push(a[i].clone_json());
                    i += 1;
                }
                let r = Json::Array(out);
                assert(r@ == self@) by {
                    assert((r@->Array_0) =~= (self@->Array_0));
                }
                r
            },
            Json::Object(m) => {
                let mut out: Vec<(String, Json)> = Vec::new();
                let mut i: usize = 0;
                while i < m.len()
                    invariant
                        *self == Json::Object(*m),
                        i <= m@.len(),
                        out@.len() == i,
                        forall|j: int|
                            0 <= j < i ==> (#[trigger] out@[j]).0@ == m@[j].0@ && out@[j].1@
                                == m@[j].1@,
                    decreases m.len() - i,
                {
                    assert(decreases_to!(*self => m@[i as int].1)) by {
                        assert(decreases_to!(*self => (*self)->Object_0));
                        assert(decreases_to!(*m => m@));
                        assert(decreases_to!(m@ => m@[i as int]));
                        assert(decreases_to!(m@[i as int] => m@[i as int].1));
                    }
                    out.push((m[i].0.clone(), m[i].1.clone_json()));
                    i += 1;
                }
                let r = Json::Object(out);
                assert(r@ == self@) by {
                    assert((r@->Object_0) =~= (self@->Object_0));
                }
                r
            },
        }
    }

    /// A JSON string.
    pub fn str(s: &str) -> (r: Json)
        ensures
            r@ == JsonV::Str(s@),
    {
        Json::Str(to_string(s))
    }

    /// A JSON boolean.
    pub fn boolean(b: bool) -> (r: Json)
        ensures
            r@ == JsonV::Bool(b),
    {
        Json::Bool(b)
    }

    /// A JSON non-negative integer.
    pub fn uint(n: u64) -> (r: Json)
        ensures
            r@ == JsonV::Number(NumberV::PosInt(n)),
    {
        Json::Number(JsonNumber::PosInt(n))
    }

    /// A JSON array.
    pub fn arr(items: Vec<Json>) -> (r: Json)
        ensures
            r@ == JsonV::Array(items@.map_values(|x: Json| x@)),
    {
        let r = Json::Array(items);
        assert((r@->Array_0) =~= items@.map_values(|x: Json| x@));
        r
    }

    /// A JSON object from `(key, value)` members, in order.
    pub fn obj(members: Vec<(&str, Json)>) -> (r: Json)
        ensures
            r@ == JsonV::Object(members@.map_values(|p: (&str, Json)| (p.0@, p.1@))),
    {
        let mut out: Vec<(String, Json)> = Vec::new();
        let mut i: usize = 0;
        while i < members.len()
            invariant
                i <= members@.len(),
                out@.len() == i,
                forall|j: int|
                    0 <= j < i ==> (#[trigger] out@[j]).0@ == members@[j].0@ && out@[j].1@
                        == members@[j].1@,
            decreases members.len() - i,
        {
            out.push((to_string(members[i].0), members[i].1.clone_json()));
            i += 1;
        }
        let r = Json::Object(out);
        assert((r@->Object_0) =~= members@.map_values(|p: (&str, Json)| (p.0@, p.1@)));
        r
    }
}

/// The members of an object by their views.
pub open spec fn members_view(m: Seq<(String, Json)>) -> Seq<(Seq<char>, JsonV)> {
    m.map_values(|x: (String, Json)| (x.0@, x.1@))
}

/// Appends a member.
pub fn push_member(members: &mut Vec<(String, Json)>, key: &str, value: Json)
    ensures
        members_view(final(members)@) == members_view(old(members)@).push((key@, value@)),
{
    let ghost before = members_view(members@);
    let ghost vv = value@;
    members.push((to_string(key), value));
    assert(members_view(members@) =~= before.push((key@, vv)));
}

/// Appends a string member when the value is present.
pub fn push_opt_str(members: &mut Vec<(String, Json)>, key: &str, v: &Option<String>)
    ensures
        members_view(final(members)@) == members_view(old(members)@) + match v {
            Some(s) => seq![(key@, JsonV::Str(s@))],
            None => Seq::<(Seq<char>, JsonV)>::empty(),
        },
{
    let ghost before = members_view(members@);
    match v {
        Some(s) => {
            push_member(members, key, Json::str(s.as_str()));
            assert(members_view(members@) =~= before + seq![(key@, JsonV::Str(s@))]);
        },
        None => {
            assert(members_view(members@) =~= before + Seq::<(Seq<char>, JsonV)>::empty());
        },
    }
}

/// An object of these members.
pub fn object_of(members: Vec<(String, Json)>) -> (r: Json)
    ensures
        r@ == JsonV::Object(members_view(members@)),
{
    let ghost mv = members_view(members@);
    let r = Json::Object(members);
    assert((r@->Object_0) =~= mv);
    r
}

/// A one-member object.
pub open spec fn obj1(k1: Seq<char>, v1: JsonV) -> JsonV {
    JsonV::Object(seq![(k1, v1)])
}

/// A two-member object, members in this order.
pub open spec fn obj2(k1: Seq<char>, v1: JsonV, k2: Seq<char>, v2: JsonV) -> JsonV {
    JsonV::Object(seq![(k1, v1), (k2, v2)])
}

/// A three-member object, members in this order.
pub open spec fn obj3(
    k1: Seq<char>,
    v1: JsonV,
    k2: Seq<char>,
    v2: JsonV,
    k3: Seq<char>,
    v3: JsonV,
) -> JsonV {
    JsonV::Object(seq![(k1, v1), (k2, v2), (k3, v3)])
}

/// Strings as JSON strings.
pub open spec fn str_values(s: Seq<String>) -> Seq<JsonV> {
    s.map_values(|x: String| JsonV::Str(x@))
}

impl Json {
    pub fn object1(k1: &str, v1: Json) -> (r: Json)
        ensures
            r@ == obj1(k1@, v1@),
    {
        let mut m: Vec<(String, Json)> = Vec::new();
        m.push((to_string(k1), v1));
        let r = Json::Object(m);
        assert((r@->Object_0) =~= seq![(k1@, v1@)]);
        r
    }

    pub fn object2(k1: &str, v1: Json, k2: &str, v2: Json) -> (r: Json)
        ensures
            r@ == obj2(k1@, v1@, k2@, v2@),
    {
        let mut m: Vec<(String, Json)> = Vec::new();
        m.push((to_string(k1), v1));
        m.push((to_string(k2), v2));
        let r = Json::Object(m);
        assert((r@->Object_0) =~= seq![(k1@, v1@), (k2@, v2@)]);
        r
    }

    pub fn object3(k1: &str, v1: Json, k2: &str, v2: Json, k3: &str, v3: Json) -> (r: Json)
        ensures
            r@ == obj3(k1@, v1@, k2@, v2@, k3@, v3@),
    {
        let mut m: Vec<(String, Json)> = Vec::new();
        m.push((to_string(k1), v1));
        m.push((to_string(k2), v2));
        m.push((to_string(k3), v3));
        let r = Json::Object(m);
        assert((r@->Object_0) =~= seq![(k1@, v1@), (k2@, v2@), (k3@, v3@)]);
        r
    }

    /// A JSON array of strings.
    pub fn str_array(v: &Vec<String>) -> (r: Json)
        ensures
            r@ == JsonV::Array(str_values(v@)),
    {
        let mut out: Vec<Json> = Vec::new();
        let mut i: usize = 0;
        while i < v.len()
            invariant
                i <= v@.len(),
                out@.map_values(|x: Json| x@) == str_values(v@.take(i as int)),
            decreases v.len() - i,
        {
            let ghost before = out@;
            out.push(Json::str(v[i].as_str()));
            assert(v@.take(i + 1) =~= v@.take(i as int).push(v@[i as int]));
            assert(out@.map_values(|x: Json| x@) =~= before.map_values(|x: Json| x@).push(
                JsonV::Str(v@[i as int]@),
            ));
            assert(str_values(v@.take(i + 1)) =~= str_values(v@.take(i as int)).push(
                JsonV::Str(v@[i as int]@),
            ));
            i += 1;
        }
        assert(v@.take(v@.len() as int) =~= v@);
        Json::arr(out)
    }
}

impl Clone for Json {
    fn clone(&self) -> (r: Self)
        ensures
            r@ == self@,
    {
        self.clone_json()
    }
}

/// Whether two strings hold the same characters (used for JSON keys).
pub fn key_eq(a: &str, b: &str) -> (r: bool)
    ensures
        r == (a@ == b@),
{
    str_eq(a, b)
}

/// The index of the first member named `key`.
pub open spec fn key_index(members: Seq<(Seq<char>, JsonV)>, key: Seq<char>) -> Option<int>
    decreases members.len(),
{
    if members.len() == 0 {
        None
    } else if members[0].0 == key {
        Some(0)
    } else {
        match key_index(members.drop_first(), key) {
            Some(i) => Some(i + 1),
            None => None,
        }
    }
}

pub proof fn lemma_key_index(members: Seq<(Seq<char>, JsonV)>, key: Seq<char>)
    ensures
        key_index(members, key) matches Some(i) ==> 0 <= i < members.len() && members[i].0 == key
            && forall|j: int| 0 <= j < i ==> members[j].0 != key,
        key_index(members, key) is None ==> forall|j: int|
            0 <= j < members.len() ==> members[j].0 != key,
    decreases members.len(),
{
    if members.len() > 0 && members[0].0 != key {
        lemma_key_index(members.drop_first(), key);
        assert forall|j: int| 1 <= j < members.len() implies members[j] == members.drop_first()[j
            - 1] by {}
    }
}

/// The first member named `key` is the one `key_index` finds.
pub proof fn lemma_members_get_index(members: Seq<(Seq<char>, JsonV)>, key: Seq<char>)
    ensures
        members_get(members, key) == match key_index(members, key) {
            Some(i) => Some(members[i].1),
            None => None,
        },
    decreases members.len(),
{
    if members.len() > 0 && members[0].0 != key {
        lemma_members_get_index(members.drop_first(), key);
        lemma_key_index(members.drop_first(), key);
    }
}

/// The index of the first member named `key`.
pub fn find_member(members: &Vec<(String, Json)>, key: &str) -> (r: Option<usize>)
    ensures
        match r {
            Some(i) => key_index(members@.map_values(|m: (String, Json)| (m.0@, m.1@)), key@) == Some(
                i as int,
            ),
            None => key_index(members@.map_values(|m: (String, Json)| (m.0@, m.1@)), key@) is None,
        },
{
    let ghost mv = members@.map_values(|m: (String, Json)| (m.0@, m.1@));
    let mut i: usize = 0;
    while i < members.len() && !str_eq(members[i].0.as_str(), key)
        invariant
            i <= members@.len(),
            mv == members@.map_values(|m: (String, Json)| (m.0@, m.1@)),
            forall|j: int| 0 <= j < i ==> mv[j].0 != key@,
        decreases members.len() - i,
    {
        i += 1;
    }
    proof {
        lemma_key_index(mv, key@);
    }
    if i == members.len() {
        None
    } else {
        assert(mv[i as int].0 == key@);
        Some(i)
    }
}

/// The members with `key` set to `value`: the first member of that name
/// takes the new value in place, or the member is added at the end (what
/// inserting into a `serde_json::Map` does to its contents).
pub open spec fn with_member(members: Seq<(Seq<char>, JsonV)>, key: Seq<char>, value: JsonV) -> Seq<
    (Seq<char>, JsonV),
> {
    match key_index(members, key) {
        Some(i) => members.update(i, (key, value)),
        None => members.push((key, value)),
    }
}

/// Sets the member `key` of an object's members to `value`.
pub fn set_member(members: &mut Vec<(String, Json)>, key: &str, value: Json)
    ensures
        final(members)@.map_values(|m: (String, Json)| (m.0@, m.1@)) == with_member(
            old(members)@.map_values(|m: (String, Json)| (m.0@, m.1@)),
            key@,
            value@,
        ),
{
    let ghost mv = members@.map_values(|m: (String, Json)| (m.0@, m.1@));
    proof {
        lemma_key_index(mv, key@);
    }
    let mut i: usize = 0;
    while i < members.len()
        invariant
            i <= members@.len(),
            members@ == old(members)@,
            mv == members@.map_values(|m: (String, Json)| (m.0@, m.1@)),
            forall|j: int| 0 <= j < i ==> mv[j].0 != key@,
        decreases members.len() - i,
    {
        if str_eq(members[i].0.as_str(), key) {
            proof {
                lemma_key_index(mv, key@);
                assert(mv[i as int].0 == key@);
            }
            assert(key_index(mv, key@) == Some(i as int));
            let ghost vv = value@;
            members.set(i, (to_string(key), value));
            assert(members@.map_values(|m: (String, Json)| (m.0@, m.1@)) =~= mv.update(
                i as int,
                (key@, vv),
            ));
            return;
        }
        i += 1;
    }
    proof {
        lemma_key_index(mv, key@);
    }
    assert(key_index(mv, key@) is None);
    let ghost vv = value@;
    members.push((to_string(key), value));
    assert(members@.map_values(|m: (String, Json)| (m.0@, m.1@)) =~= mv.push((key@, vv)));
}

impl Json {
    /// Whether two documents are the same (member order included).
    pub fn same_as(&self, other: &Json) -> (r: bool)
        ensures
            r == (self@ == other@),
        decreases self,
    {
        match (self, other) {
            (Json::Null, Json::Null) => true,
            (Json::Bool(a), Json::Bool(b)) => *a == *b,
            (Json::Number(a), Json::Number(b)) => match (a, b) {
                (JsonNumber::PosInt(x), JsonNumber::PosInt(y)) => *x == *y,
                (JsonNumber::NegInt(x), JsonNumber::NegInt(y)) => *x == *y,
                (JsonNumber::Float(x), JsonNumber::Float(y)) => str_eq(x.as_str(), y.as_str()),
                _ => false,
            },
            (Json::Str(a), Json::Str(b)) => str_eq(a.as_str(), b.as_str()),
            (Json::Array(a), Json::Array(b)) => {
                if a.len() != b.len() {
                    assert((self@->Array_0).len() != (other@->Array_0).len());
                    return false;
                }
                let mut i: usize = 0;
                while i < a.len()
                    invariant
                        *self == Json::Array(*a),
                        *other == Json::Array(*b),
                        a@.len() == b@.len(),
                        i <= a@.len(),
                        forall|j: int| 0 <= j < i ==> a@[j]@ == b@[j]@,
                    decreases a.len() - i,
                {
                    assert(decreases_to!(*self => a@[i as int])) by {
                        assert(decreases_to!(*self => (*self)->Array_0));
                        assert(decreases_to!(*a => a@));
                        assert(decreases_to!(a@ => a@[i as int]));
                    }
                    if !a[i].same_as(&b[i]) {
                        assert((self@->Array_0)[i as int] != (other@->Array_0)[i as int]);
                        return false;
                    }
                    i += 1;
                }
                assert((self@->Array_0) =~= (other@->Array_0));
                true
            },
            (Json::Object(a), Json::Object(b)) => {
                if a.len() != b.len() {
                    assert((self@->Object_0).len() != (other@->Object_0).len());
                    return false;
                }
                let mut i: usize = 0;
                while i < a.len()
                    invariant
                        *self == Json::Object(*a),
                        *other == Json::Object(*b),
                        a@.len() == b@.len(),
                        i <= a@.len(),
                        forall|j: int| 0 <= j < i ==> a@[j].0@ == b@[j].0@ && a@[j].1@ == b@[j].1@,
                    decreases a.len() - i,
                {
                    assert(decreases_to!(*self => a@[i as int].1)) by {
                        assert(decreases_to!(*self => (*self)->Object_0));
                        assert(decreases_to!(*a => a@));
                        assert(decreases_to!(a@ => a@[i as int]));
                        assert(decreases_to!(a@[i as int] => a@[i as int].1));
                    }
                    if !str_eq(a[i].0.as_str(), b[i].0.as_str()) || !a[i].1.same_as(&b[i].1) {
                        assert((self@->Object_0)[i as int] != (other@->Object_0)[i as int]);
                        return false;
                    }
                    i += 1;
                }
                assert((self@->Object_0) =~= (other@->Object_0));
                true
            },
            _ => false,
        }
    }
}

/// The compact JSON text `serde_json` writes for a document.
pub uninterp spec fn compact_json(v: JsonV) -> Seq<char>;

/// `serde_json::Value`'s `Display` (compact JSON) of the document. Taken to
/// depend on the document alone; the text itself is not restated.
#[verifier::external_body]
pub(crate) fn json_text(j: &Json) -> (r: String)
    ensures
        r@ == compact_json(j@),
{
    json_to_value(j).to_string()
}

/// The `Debug` text `serde_json` gives a document.
pub uninterp spec fn debug_json(v: JsonV) -> Seq<char>;

/// `serde_json::Value`'s `Debug` text of the document. Taken to depend on the
/// document alone; the text itself is not restated.
#[verifier::external_body]
pub(crate) fn json_debug(j: &Json) -> (r: String)
    ensures
        r@ == debug_json(j@),
{
    format!("{:?}", json_to_value(j))
}

/// `serde_json`'s document type, carried through the HTTP boundary.
#[verifier::external_type_specification]
#[verifier::external_body]
pub struct ExJsonValue(serde_json::Value);

/// The `serde_json::Value` of a document, node for node. A fraction is read
/// back from its decimal text by `serde_json::from_str`. Nothing is stated of
/// the result: the tree is `serde_json`'s.
#[verifier::external_body]
pub(crate) fn json_to_value(j: &Json) -> serde_json::Value {
    match j {
        Json::Null => serde_json::Value::Null,
        Json::Bool(b) => serde_json::Value::Bool(*b),
        Json::Number(JsonNumber::PosInt(n)) => serde_json::Value::from(*n),
        Json::Number(JsonNumber::NegInt(n)) => serde_json::Value::from(*n),
        Json::Number(JsonNumber::Float(t)) => serde_json::from_str(t).unwrap_or(serde_json::Value::Null),
        Json::Str(s) => serde_json::Value::String(s.clone()),
        Json::Array(a) => serde_json::Value::Array(a.iter().map(json_to_value).collect()),
        Json::Object(m) => serde_json::Value::Object(m.iter().map(|(k, x)| (k.clone(), json_to_value(x))).collect()),
    }
}

/// The document `serde_json` reads from a text, or the message of its error.
pub uninterp spec fn json_parse(text: Seq<char>) -> Result<JsonV, Seq<char>>;

/// `serde_json::from_str::<serde_json::Value>`: the document turned into a
/// `Json`, an error into its message. Taken to depend on the text alone;
/// JSON's grammar is not restated here.
#[verifier::external_body]
pub(crate) fn parse_json(text: &str) -> (r: Result<Json, String>)
    ensures
        match r {
            Ok(v) => json_parse(text@) == Ok::<JsonV, Seq<char>>(v@),
            Err(e) => json_parse(text@) == Err::<JsonV, Seq<char>>(e@),
        },
{
    match serde_json::from_str::<serde_json::Value>(text) {
        Ok(v) => Ok(json_from_value(v)),
        Err(e) => Err(e.to_string()),
    }
}

/// The document of a `serde_json::Value`, node for node: an integer that fits
/// `u64` or `i64` as that integer, any other number as its decimal text.
/// Nothing is stated of the result: the tree is `serde_json`'s.
#[verifier::external_body]
pub(crate) fn json_from_value(v: serde_json::Value) -> Json {
    match v {
        serde_json::Value::Null => Json::Null,
        serde_json::Value::Bool(b) => Json::Bool(b),
        serde_json::Value::Number(n) => Json::Number(match (n.as_u64(), n.as_i64()) {
            (Some(u), _) => JsonNumber::PosInt(u),
            (None, Some(i)) => JsonNumber::NegInt(i),
            _ => JsonNumber::Float(n.to_string()),
        }),
        serde_json::Value::String(s) => Json::Str(s),
        serde_json::Value::Array(a) => Json::Array(a.into_iter().map(json_from_value).collect()),
        serde_json::Value::Object(m) => Json::Object(m.into_iter().map(|(k, x)| (k, json_from_value(x))).collect()),
    }
}

} // verus!
