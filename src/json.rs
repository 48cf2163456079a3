use vstd::prelude::*;

verus! {

/// Mathematical model of a JSON document.
pub enum Json {
    Null,
    Bool(bool),
    /// A number, kept as the decimal text it was written with.
    Number(Seq<char>),
    Str(Seq<char>),
    Array(Seq<Json>),
    /// Members in document order.
    Object(Seq<(Seq<char>, Json)>),
}

/// A JSON document held in memory; its model is `Json`.
#[derive(Debug, PartialEq, Eq)]
pub enum JsonValue {
    Null,
    Bool(bool),
    Number(String),
    Str(String),
    Array(Vec<JsonValue>),
    Object(Vec<(String, JsonValue)>),
}

/// Model of the first `n` elements of `items`.
pub open spec fn items_view(items: Seq<JsonValue>, n: int) -> Seq<Json>
    decreases items, n,
{
    if n <= 0 || n > items.len() {
        Seq::empty()
    } else {
        items_view(items, n - 1).push(items[n - 1].view_json())
    }
}

/// Model of the first `n` members of `members`.
pub open spec fn members_view(members: Seq<(String, JsonValue)>, n: int) -> Seq<(Seq<char>, Json)>
    decreases members, n,
{
    if n <= 0 || n > members.len() {
        Seq::empty()
    } else {
        members_view(members, n - 1).push((members[n - 1].0@, members[n - 1].1.view_json()))
    }
}

pub proof fn lemma_items_view(items: Seq<JsonValue>, n: int)
    requires
        0 <= n <= items.len(),
    ensures
        items_view(items, n).len() == n,
        forall|i: int| 0 <= i < n ==> #[trigger] items_view(items, n)[i] == items[i].view_json(),
    decreases n,
{
    if n > 0 {
        lemma_items_view(items, n - 1);
    }
}

pub proof fn lemma_members_view(members: Seq<(String, JsonValue)>, n: int)
    requires
        0 <= n <= members.len(),
    ensures
        members_view(members, n).len() == n,
        forall|i: int|
            0 <= i < n ==> #[trigger] members_view(members, n)[i] == (
            members[i].0@,
            members[i].1.view_json(),
        ),
    decreases n,
{
    if n > 0 {
        lemma_members_view(members, n - 1);
    }
}

/// The value of the first member named `key` at or after position `i`.
pub open spec fn lookup_from(members: Seq<(Seq<char>, Json)>, key: Seq<char>, i: int) -> Option<Json>
    decreases members.len() - i,
{
    if i < 0 || i >= members.len() {
        None
    } else if members[i].0 == key {
        Some(members[i].1)
    } else {
        lookup_from(members, key, i + 1)
    }
}

impl Json {
    /// The member named `key`, where `self` is an object that has one.
    pub open spec fn get(self, key: Seq<char>) -> Option<Json> {
        match self {
            Json::Object(members) => lookup_from(members, key, 0),
            _ => None,
        }
    }

    pub open spec fn str_value(self) -> Option<Seq<char>> {
        match self {
            Json::Str(s) => Some(s),
            _ => None,
        }
    }

    pub open spec fn bool_value(self) -> Option<bool> {
        match self {
            Json::Bool(b) => Some(b),
            _ => None,
        }
    }
}

/// The string held by `v`, if `v` holds a string.
pub open spec fn opt_str(v: Option<Json>) -> Option<Seq<char>> {
    match v {
        Some(j) => j.str_value(),
        None => None,
    }
}

/// The boolean held by `v`, if `v` holds one.
pub open spec fn opt_bool(v: Option<Json>) -> Option<bool> {
    match v {
        Some(j) => j.bool_value(),
        None => None,
    }
}

/// Model of an optional string.
pub open spec fn text_view(o: Option<String>) -> Option<Seq<char>> {
    match o {
        Some(s) => Some(s@),
        None => None,
    }
}

/// Model of an optional document.
pub open spec fn json_view(o: Option<JsonValue>) -> Option<Json> {
    match o {
        Some(v) => Some(v@),
        None => None,
    }
}

impl JsonValue {
    pub open spec fn view_json(self) -> Json
        decreases self, 0int,
    {
        match self {
            JsonValue::Null => Json::Null,
            JsonValue::Bool(b) => Json::Bool(b),
            JsonValue::Number(s) => Json::Number(s@),
            JsonValue::Str(s) => Json::Str(s@),
            JsonValue::Array(items) => Json::Array(items_view(items@, items@.len() as int)),
            JsonValue::Object(members) => Json::Object(
                members_view(members@, members@.len() as int),
            ),
        }
    }
}

impl View for JsonValue {
    type V = Json;

    open spec fn view(&self) -> Json {
        self.view_json()
    }
}

impl Clone for JsonValue {
    fn clone(&self) -> (r: JsonValue)
        ensures
            r@ == self@,
    {
        self.duplicate()
    }
}

/// Whether two strings hold the same characters.
pub fn text_eq(a: &str, b: &str) -> (r: bool)
    ensures
        r == (a@ == b@),
{
    let x = a.to_owned();
    let y = b.to_owned();
    x == y
}

/// A string holding the characters of `s`.
pub fn text(s: &str) -> (r: String)
    ensures
        r@ == s@,
{
    s.to_owned()
}

impl JsonValue {
    /// The member named `key`, where `self` is an object that has one.
    pub fn get(&self, key: &str) -> (r: Option<&JsonValue>)
        ensures
            match r {
                Some(v) => self@.get(key@) == Some(v@),
                None => self@.get(key@) is None,
            },
    {
        match self {
            JsonValue::Object(members) => {
                proof {
                    lemma_members_view(members@, members@.len() as int);
                }
                let ghost ms = members_view(members@, members@.len() as int);
                let mut i: usize = 0;
                while i < members.len()
                    invariant
                        0 <= i <= members@.len(),
                        ms == members_view(members@, members@.len() as int),
                        self@ == Json::Object(ms),
                        ms.len() == members@.len(),
                        forall|j: int|
                            0 <= j < members@.len() ==> #[trigger] ms[j] == (
                            members@[j].0@,
                            members@[j].1.view_json(),
                        ),
                        lookup_from(ms, key@, 0) == lookup_from(ms, key@, i as int),
                    decreases members.len() - i,
                {
                    if text_eq(members[i].0.as_str(), key) {
                        proof {
                            assert(ms[i as int].0 == key@);
                            assert(lookup_from(ms, key@, i as int) == Some(ms[i as int].1));
                        }
                        return Some(&members[i].1);
                    }
                    i = i + 1;
                }
                None
            },
            _ => None,
        }
    }

    /// The text of `self`, where it is a string.
    pub fn as_str(&self) -> (r: Option<&str>)
        ensures
            match r {
                Some(t) => self@.str_value() == Some(t@),
                None => self@.str_value() is None,
            },
    {
        match self {
            JsonValue::Str(s) => Some(s.as_str()),
            _ => None,
        }
    }

    /// The value of `self`, where it is a boolean.
    pub fn as_bool(&self) -> (r: Option<bool>)
        ensures
            r == self@.bool_value(),
    {
        match self {
            JsonValue::Bool(b) => Some(*b),
            _ => None,
        }
    }

    /// A copy of `self`, member for member.
    pub fn duplicate(&self) -> (r: JsonValue)
        ensures
            r@ == self@,
        decreases self,
    {
        match self {
            JsonValue::Null => JsonValue::Null,
            JsonValue::Bool(b) => JsonValue::Bool(*b),
            JsonValue::Number(s) => JsonValue::Number(s.clone()),
            JsonValue::Str(s) => JsonValue::Str(s.clone()),
            JsonValue::Array(items) => {
                let mut out: Vec<JsonValue> = Vec::new();
                let mut i: usize = 0;
                while i < items.len()
                    invariant
                        0 <= i <= items@.len(),
                        *self == JsonValue::Array(*items),
                        out@.len() == i,
                        forall|j: int|
                            0 <= j < i ==> (#[trigger] out@[j]).view_json()
                                == items@[j].view_json(),
                    decreases items.len() - i,
                {
                    proof {
                        assert(decreases_to!(*self => (*self)->Array_0));
                        assert(decreases_to!(*items => items@));
                        assert(decreases_to!(items@ => items@[i as int]));
                    }
                    let c = items[i].duplicate();
                    out.push(c);
                    i = i + 1;
                }
                proof {
                    lemma_items_view(items@, items@.len() as int);
                    lemma_items_view(out@, out@.len() as int);
                    assert(items_view(out@, out@.len() as int) =~= items_view(
                        items@,
                        items@.len() as int,
                    ));
                }
                JsonValue::Array(out)
            },
            JsonValue::Object(members) => {
                let mut out: Vec<(String, JsonValue)> = Vec::new();
                let mut i: usize = 0;
                while i < members.len()
                    invariant
                        0 <= i <= members@.len(),
                        *self == JsonValue::Object(*members),
                        out@.len() == i,
                        forall|j: int|
                            0 <= j < i ==> (#[trigger] out@[j]).0@ == members@[j].0@
                                && out@[j].1.view_json() == members@[j].1.view_json(),
                    decreases members.len() - i,
                {
                    proof {
                        assert(decreases_to!(*self => (*self)->Object_0));
                        assert(decreases_to!(*members => members@));
                        assert(decreases_to!(members@ => members@[i as int]));
                        assert(decreases_to!(members@[i as int] => members@[i as int].1));
                    }
                    let c = members[i].1.duplicate();
                    out.push((members[i].0.clone(), c));
                    i = i + 1;
                }
                proof {
                    lemma_members_view(members@, members@.len() as int);
                    lemma_members_view(out@, out@.len() as int);
                    assert(members_view(out@, out@.len() as int) =~= members_view(
                        members@,
                        members@.len() as int,
                    ));
                }
                JsonValue::Object(out)
            },
        }
    }
}

} // verus!
