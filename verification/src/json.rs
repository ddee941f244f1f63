//! JSON values as the library reads and writes them.
//!
//! A number is kept the way `serde_json` keeps it: a non-negative integer,
//! a negative one, or a floating-point number (whose value the library never
//! reads, so it is not kept). An object keeps its members in order.
use vstd::prelude::*;

verus! {

/// A JSON value.
#[derive(Debug)]
pub enum Json {
    Null,
    Bool(bool),
    /// A non-negative integer.
    PosInt(u64),
    /// A negative integer.
    NegInt(i64),
    /// A number with a fraction or an exponent.
    Float,
    Text(String),
    Array(Vec<Json>),
    Object(Vec<(String, Json)>),
}

/// The value of the first member of `members` named `key`.
pub open spec fn member(members: Seq<(String, Json)>, key: Seq<char>) -> Option<Json>
    decreases members.len(),
{
    if members.len() == 0 {
        None
    } else if members[0].0@ == key {
        Some(members[0].1)
    } else {
        member(members.drop_first(), key)
    }
}

pub proof fn lemma_member_at(members: Seq<(String, Json)>, key: Seq<char>, i: int)
    requires
        0 <= i < members.len(),
        members[i].0@ == key,
        forall|j: int| 0 <= j < i ==> (#[trigger] members[j]).0@ != key,
    ensures
        member(members, key) == Some(members[i].1),
    decreases i,
{
    if i > 0 {
        let t = members.drop_first();
        assert forall|j: int| 0 <= j < i - 1 implies (#[trigger] t[j]).0@ != key by {
            assert(t[j] == members[j + 1]);
        }
        lemma_member_at(t, key, i - 1);
    }
}

/// Whether `j` is the integer `v`, or `null` when `v` is absent.
pub open spec fn is_optional_int(j: Option<Json>, v: Option<i64>) -> bool {
    match v {
        Some(n) => json_i64(j) == Some(n),
        None => j == Some(Json::Null),
    }
}

/// Whether `j` is an array of exactly the texts `v`, or `null` when `v` is
/// absent.
pub open spec fn is_optional_texts(j: Option<Json>, v: Option<Seq<Seq<char>>>) -> bool {
    match v {
        Some(list) => j matches Some(Json::Array(a)) && texts(a@) == list && a@.len() == list.len(),
        None => j == Some(Json::Null),
    }
}

/// `Value::get(key)`: the member `key` of an object; `None` for anything else.
pub open spec fn json_get(j: Json, key: Seq<char>) -> Option<Json> {
    match j {
        Json::Object(members) => member(members@, key),
        _ => None,
    }
}

/// `Value::as_str`.
pub open spec fn json_text(j: Option<Json>) -> Option<Seq<char>> {
    match j {
        Some(Json::Text(s)) => Some(s@),
        _ => None,
    }
}

/// Whether `j` is the text `t`.
pub open spec fn is_text(j: Json, t: Seq<char>) -> bool {
    match j {
        Json::Text(s) => s@ == t,
        _ => false,
    }
}

/// `Value::as_i64`.
pub open spec fn json_i64(j: Option<Json>) -> Option<i64> {
    match j {
        Some(Json::PosInt(n)) => if n <= i64::MAX {
            Some(n as i64)
        } else {
            None
        },
        Some(Json::NegInt(n)) => Some(n),
        _ => None,
    }
}

/// `Value::as_u64`.
pub open spec fn json_u64(j: Option<Json>) -> Option<u64> {
    match j {
        Some(Json::PosInt(n)) => Some(n),
        _ => None,
    }
}

/// `Value::as_bool`.
pub open spec fn json_bool(j: Option<Json>) -> Option<bool> {
    match j {
        Some(Json::Bool(b)) => Some(b),
        _ => None,
    }
}

/// The texts among `items`, in order: `filter_map(Value::as_str)`.
pub open spec fn texts(items: Seq<Json>) -> Seq<Seq<char>>
    decreases items.len(),
{
    if items.len() == 0 {
        Seq::empty()
    } else {
        match items.last() {
            Json::Text(s) => texts(items.drop_last()).push(s@),
            _ => texts(items.drop_last()),
        }
    }
}

/// `Value::as_array` followed by keeping the texts.
pub open spec fn json_texts(j: Option<Json>) -> Option<Seq<Seq<char>>> {
    match j {
        Some(Json::Array(items)) => Some(texts(items@)),
        _ => None,
    }
}

impl Json {
    /// `value.get(key)`.
    pub fn get(&self, key: &str) -> (r: Option<&Json>)
        ensures
            r matches Some(v) ==> json_get(*self, key@) == Some(*v),
            r is None ==> json_get(*self, key@) is None,
    {
        match self {
            Json::Object(members) => {
                let n = members.len();
                let mut i: usize = 0;
                assert(members@.skip(0) =~= members@);
                assert(json_get(*self, key@) == member(members@, key@));
                while i < n
                    invariant
                        i <= n == members@.len(),
                        json_get(*self, key@) == member(members@.skip(i as int), key@),
                    decreases n - i,
                {
                    assert(members@.skip(i as int).drop_first() == members@.skip(i + 1));
                    assert(members@.skip(i as int)[0] == members@[i as int]);
                    if crate::text::same(members[i].0.as_str(), key) {
                        assert(member(members@.skip(i as int), key@) == Some(members@[i as int].1));
                        assert(json_get(*self, key@) == Some(members@[i as int].1));
                        let found = &members[i].1;
                        assert(*found == members@[i as int].1);
                        return Some(&members[i].1);
                    }
                    i = i + 1;
                }
                None
            },
            _ => None,
        }
    }

    /// `value.get(key).and_then(Value::as_str)`.
    pub fn text_at(&self, key: &str) -> (r: Option<String>)
        ensures
            r matches Some(s) ==> json_text(json_get(*self, key@)) == Some(s@),
            r is None ==> json_text(json_get(*self, key@)) is None,
    {
        match self.get(key) {
            Some(Json::Text(s)) => Some(s.clone()),
            _ => None,
        }
    }

    /// `value.get(key).and_then(Value::as_i64)`.
    pub fn i64_at(&self, key: &str) -> (r: Option<i64>)
        ensures
            r == json_i64(json_get(*self, key@)),
    {
        match self.get(key) {
            Some(Json::PosInt(n)) => if *n <= 9_223_372_036_854_775_807u64 {
                Some(*n as i64)
            } else {
                None
            },
            Some(Json::NegInt(n)) => Some(*n),
            _ => None,
        }
    }

    /// `value.get(key).and_then(Value::as_u64)`.
    pub fn u64_at(&self, key: &str) -> (r: Option<u64>)
        ensures
            r == json_u64(json_get(*self, key@)),
    {
        match self.get(key) {
            Some(Json::PosInt(n)) => Some(*n),
            _ => None,
        }
    }

    /// `value.get(key).and_then(Value::as_bool)`.
    pub fn bool_at(&self, key: &str) -> (r: Option<bool>)
        ensures
            r == json_bool(json_get(*self, key@)),
    {
        match self.get(key) {
            Some(Json::Bool(b)) => Some(*b),
            _ => None,
        }
    }

    /// The texts in the array `key`, skipping anything else in it; `None`
    /// when `key` is not an array.
    pub fn texts_at(&self, key: &str) -> (r: Option<Vec<String>>)
        ensures
            r matches Some(v) ==> json_texts(json_get(*self, key@)) == Some(
                crate::text::texts_view(v@),
            ),
            r is None ==> json_texts(json_get(*self, key@)) is None,
    {
        match self.get(key) {
            Some(Json::Array(items)) => Some(texts_of(items)),
            _ => None,
        }
    }

    /// A text value.
    pub fn text(s: &str) -> (r: Json)
        ensures
            r matches Json::Text(t) && t@ == s@,
    {
        Json::Text(String::from_str(s))
    }

    /// An integer value.
    pub fn integer(n: i64) -> (r: Json)
        ensures
            json_i64(Some(r)) == Some(n),
    {
        if n >= 0 {
            Json::PosInt(n as u64)
        } else {
            Json::NegInt(n)
        }
    }
}

/// The texts among `items`, in order.
pub fn texts_of(items: &Vec<Json>) -> (r: Vec<String>)
    ensures
        texts(items@) == crate::text::texts_view(r@),
{
    let mut out: Vec<String> = Vec::new();
    let n = items.len();
    for i in 0..n
        invariant
            n == items@.len(),
            texts(items@.take(i as int)) == crate::text::texts_view(out@),
    {
        assert(items@.take(i + 1).drop_last() == items@.take(i as int));
        assert(items@.take(i + 1).last() == items@[i as int]);
        match &items[i] {
            Json::Text(s) => {
                let ghost before = out@;
                out.push(s.clone());
                assert(crate::text::texts_view(out@) =~= crate::text::texts_view(before).push(s@));
            },
            _ => {},
        }
    }
    assert(items@.take(n as int) == items@);
    out
}

/// An array of texts.
pub fn text_array(items: &Vec<String>) -> (r: Json)
    ensures
        r matches Json::Array(v) && texts(v@) == crate::text::texts_view(items@) && v@.len()
            == items@.len(),
{
    let mut out: Vec<Json> = Vec::new();
    let n = items.len();
    for i in 0..n
        invariant
            n == items@.len(),
            out@.len() == i,
            texts(out@) == crate::text::texts_view(items@.take(i as int)),
            forall|k: int| 0 <= k < i ==> (#[trigger] out@[k]) is Text,
    {
        let ghost before = out@;
        out.push(Json::Text(items[i].clone()));
        assert(out@.drop_last() == before);
        assert(crate::text::texts_view(items@.take(i + 1)) =~= crate::text::texts_view(
            items@.take(i as int),
        ).push(items@[i as int]@));
    }
    assert(items@.take(n as int) == items@);
    Json::Array(out)
}

} // verus!
