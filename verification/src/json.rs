//! Structured payload values.

use vstd::prelude::*;
use vstd::string::StringExecFns;
use crate::text::str_eq;
use crate::bridge::{decode_json, encode_json, json_text_value, json_value_text};

verus! {

/// A structured value as it is carried in a signal's payload.
#[derive(Debug, PartialEq)]
pub enum Json {
    Null,
    Bool(bool),
    /// A non-negative integer.
    UInt(u64),
    /// A signed integer.
    Int(i64),
    /// A number that is no integer, held by its decimal text.
    Float(String),
    Str(String),
    Array(Vec<Json>),
    /// The members of an object, in order. Where a key occurs twice, the last one counts.
    Object(Vec<(String, Json)>),
}

/// The mathematical model of a [`Json`] value.
pub enum JsonData {
    Null,
    Bool(bool),
    UInt(u64),
    Int(i64),
    Float(Seq<char>),
    Str(Seq<char>),
    Array(Seq<JsonData>),
    Object(Seq<(Seq<char>, JsonData)>),
}

impl DeepView for Json {
    type V = JsonData;

    open spec fn deep_view(&self) -> JsonData
        decreases self,
    {
        match self {
            Json::Null => JsonData::Null,
            Json::Bool(b) => JsonData::Bool(*b),
            Json::UInt(n) => JsonData::UInt(*n),
            Json::Int(n) => JsonData::Int(*n),
            Json::Float(t) => JsonData::Float(t@),
            Json::Str(s) => JsonData::Str(s@),
            Json::Array(items) => JsonData::Array(
                Seq::new(
                    items@.len(),
                    |i: int|
                        if 0 <= i < items@.len() {
                            items@[i].deep_view()
                        } else {
                            JsonData::Null
                        },
                ),
            ),
            Json::Object(members) => JsonData::Object(
                Seq::new(
                    members@.len(),
                    |i: int|
                        if 0 <= i < members@.len() {
                            (members@[i].0@, members@[i].1.deep_view())
                        } else {
                            (Seq::empty(), JsonData::Null)
                        },
                ),
            ),
        }
    }
}

impl Clone for Json {
    fn clone(&self) -> (r: Json)
        ensures
            r.deep_view() == self.deep_view(),
        decreases self,
    {
        match self {
            Json::Null => Json::Null,
            Json::Bool(b) => Json::Bool(*b),
            Json::UInt(n) => Json::UInt(*n),
            Json::Int(n) => Json::Int(*n),
            Json::Float(t) => Json::Float(t.clone()),
            Json::Str(s) => Json::Str(s.clone()),
            Json::Array(items) => {
                let mut out: Vec<Json> = Vec::new();
                let mut i: usize = 0;
                while i < items.len()
                    invariant
                        *self == Json::Array(*items),
                        i <= items.len(),
                        out.len() == i,
                        forall|k: int| 0 <= k < i ==> out@[k].deep_view() == items@[k].deep_view(),
                    decreases items.len() - i,
                {
                    proof {
                        assert(decreases_to!(*self => self->Array_0@[i as int]));
                    }
                    out.push(items[i].clone());
                    i += 1;
                }
                proof {
                    lemma_array_view(out);
                    lemma_array_view(*items);
                    assert(out.deep_view() =~= items.deep_view());
                }
                Json::Array(out)
            },
            Json::Object(members) => {
                let mut out: Vec<(String, Json)> = Vec::new();
                let mut i: usize = 0;
                while i < members.len()
                    invariant
                        *self == Json::Object(*members),
                        i <= members.len(),
                        out.len() == i,
                        forall|k: int|
                            0 <= k < i ==> out@[k].0@ == members@[k].0@ && out@[k].1.deep_view()
                                == members@[k].1.deep_view(),
                    decreases members.len() - i,
                {
                    proof {
                        assert(decreases_to!(*self => self->Object_0@[i as int].1));
                    }
                    out.push((members[i].0.clone(), members[i].1.clone()));
                    i += 1;
                }
                proof {
                    lemma_object_view(out);
                    lemma_object_view(*members);
                    assert(out.deep_view() =~= members.deep_view());
                }
                Json::Object(out)
            },
        }
    }
}

/// An array's model holds the models of its items, in order.
pub proof fn lemma_array_view(items: Vec<Json>)
    ensures
        Json::Array(items).deep_view() == JsonData::Array(items.deep_view()),
{
    reveal_with_fuel(<Json as DeepView>::deep_view, 2);
    assert(Json::Array(items).deep_view()->Array_0 =~= items.deep_view());
}

/// An object's model holds its keys and the models of their values, in order.
pub proof fn lemma_object_view(members: Vec<(String, Json)>)
    ensures
        Json::Object(members).deep_view() == JsonData::Object(members.deep_view()),
{
    reveal_with_fuel(<Json as DeepView>::deep_view, 2);
    assert(Json::Object(members).deep_view()->Object_0 =~= members.deep_view());
}

/// How deep arrays and objects may stand in each other in a value that is
/// written: as deep as the reader goes.
pub const NESTING_LIMIT: usize = 127;

/// Whether arrays and objects stand at most `limit` deep in each other in `j`.
pub open spec fn nested_within(j: JsonData, limit: nat) -> bool
    decreases limit, 0nat, 0nat,
{
    match j {
        JsonData::Array(items) => limit > 0 && items_nested(
            items,
            (limit - 1) as nat,
            items.len(),
        ),
        JsonData::Object(members) => limit > 0 && members_nested(
            members,
            (limit - 1) as nat,
            members.len(),
        ),
        _ => true,
    }
}

/// Whether each of the first `n` items is nested within `limit`.
pub open spec fn items_nested(items: Seq<JsonData>, limit: nat, n: nat) -> bool
    decreases limit, 1nat, n,
{
    if n == 0 {
        true
    } else {
        nested_within(items[n - 1], limit) && items_nested(items, limit, (n - 1) as nat)
    }
}

/// Whether the value of each of the first `n` members is nested within `limit`.
pub open spec fn members_nested(members: Seq<(Seq<char>, JsonData)>, limit: nat, n: nat) -> bool
    decreases limit, 1nat, n,
{
    if n == 0 {
        true
    } else {
        nested_within(members[n - 1].1, limit) && members_nested(members, limit, (n - 1) as nat)
    }
}

/// The compact JSON text of a value; `None` where the value is nested too deep
/// or cannot be written.
pub open spec fn rendered(value: JsonData) -> Option<Seq<char>> {
    if nested_within(value, NESTING_LIMIT as nat) {
        json_value_text(value)
    } else {
        None
    }
}

/// The value of the last member of `members` whose key is `key`.
pub open spec fn lookup(members: Seq<(Seq<char>, JsonData)>, key: Seq<char>) -> Option<JsonData>
    decreases members.len(),
{
    if members.len() == 0 {
        None
    } else if members.last().0 == key {
        Some(members.last().1)
    } else {
        lookup(members.drop_last(), key)
    }
}

/// The strings among `items`, in order; what is no string is left out.
pub open spec fn strings(items: Seq<JsonData>) -> Seq<Seq<char>>
    decreases items.len(),
{
    if items.len() == 0 {
        Seq::empty()
    } else {
        let rest = strings(items.drop_last());
        match items.last() {
            JsonData::Str(s) => rest.push(s),
            _ => rest,
        }
    }
}

/// The value of the member at `i`, where its key occurs at no later place.
pub proof fn lemma_lookup_at(members: Seq<(Seq<char>, JsonData)>, i: int)
    requires
        0 <= i < members.len(),
        forall|k: int| i < k < members.len() ==> (#[trigger] members[k]).0 != members[i].0,
    ensures
        lookup(members, members[i].0) == Some(members[i].1),
    decreases members.len(),
{
    if i < members.len() - 1 {
        let rest = members.drop_last();
        assert(members.last() == members[members.len() - 1]);
        assert forall|k: int| i < k < rest.len() implies (#[trigger] rest[k]).0 != rest[i].0 by {
            assert(rest[k] == members[k]);
        }
        lemma_lookup_at(rest, i);
    }
}

/// No member has the key `key`: then there is nothing to look up.
pub proof fn lemma_lookup_none(members: Seq<(Seq<char>, JsonData)>, key: Seq<char>)
    requires
        forall|k: int| 0 <= k < members.len() ==> (#[trigger] members[k]).0 != key,
    ensures
        lookup(members, key) is None,
    decreases members.len(),
{
    if members.len() > 0 {
        let rest = members.drop_last();
        assert(members.last() == members[members.len() - 1]);
        assert forall|k: int| 0 <= k < rest.len() implies (#[trigger] rest[k]).0 != key by {
            assert(rest[k] == members[k]);
        }
        lemma_lookup_none(rest, key);
    }
}

/// The strings of a sequence of strings are the sequence itself.
pub proof fn lemma_strings_of_strings(texts: Seq<Seq<char>>)
    ensures
        strings(texts.map_values(|t: Seq<char>| JsonData::Str(t))) == texts,
    decreases texts.len(),
{
    let items = texts.map_values(|t: Seq<char>| JsonData::Str(t));
    if texts.len() > 0 {
        lemma_strings_of_strings(texts.drop_last());
        assert(items.drop_last() =~= texts.drop_last().map_values(|t: Seq<char>| JsonData::Str(t)));
        assert(items.last() == JsonData::Str(texts.last()));
        assert(texts.drop_last().push(texts.last()) =~= texts);
    } else {
        assert(strings(items) =~= texts);
    }
}

impl JsonData {
    /// The member `key` of an object; `None` for another value or a missing key.
    pub open spec fn field(self, key: Seq<char>) -> Option<JsonData> {
        match self {
            JsonData::Object(members) => lookup(members, key),
            _ => None,
        }
    }

    /// The value as a string, where it is one.
    pub open spec fn as_str(self) -> Option<Seq<char>> {
        match self {
            JsonData::Str(s) => Some(s),
            _ => None,
        }
    }

    /// The value as a truth value, where it is one.
    pub open spec fn as_bool(self) -> Option<bool> {
        match self {
            JsonData::Bool(b) => Some(b),
            _ => None,
        }
    }

    /// The value as a signed 64-bit integer, where it is an integer in that range.
    pub open spec fn as_i64(self) -> Option<i64> {
        match self {
            JsonData::Int(n) => Some(n),
            JsonData::UInt(n) => if n <= i64::MAX {
                Some(n as i64)
            } else {
                None
            },
            _ => None,
        }
    }

    /// The value as an unsigned 64-bit integer, where it is an integer in that range.
    pub open spec fn as_u64(self) -> Option<u64> {
        match self {
            JsonData::UInt(n) => Some(n),
            JsonData::Int(n) => if n >= 0 {
                Some(n as u64)
            } else {
                None
            },
            _ => None,
        }
    }

    /// The items of the value, where it is an array.
    pub open spec fn as_array(self) -> Option<Seq<JsonData>> {
        match self {
            JsonData::Array(items) => Some(items),
            _ => None,
        }
    }

    /// The member `key`, where it is a string.
    pub open spec fn str_field(self, key: Seq<char>) -> Option<Seq<char>> {
        match self.field(key) {
            Some(v) => v.as_str(),
            None => None,
        }
    }

}

impl Json {
    /// The member `key` of an object.
    pub fn get(&self, key: &str) -> (r: Option<&Json>)
        ensures
            match r {
                Some(v) => self.deep_view().field(key@) == Some(v.deep_view()),
                None => self.deep_view().field(key@) is None,
            },
    {
        match self {
            Json::Object(members) => {
                let ghost all = members.deep_view();
                proof {
                    lemma_object_view(*members);
                    assert(all.take(all.len() as int) == all);
                }
                let mut i: usize = members.len();
                while i > 0
                    invariant
                        all == members.deep_view(),
                        self.deep_view() == JsonData::Object(all),
                        i <= members.len(),
                        lookup(all, key@) == lookup(all.take(i as int), key@),
                    decreases i,
                {
                    assert(all.take(i as int).drop_last() == all.take(i - 1));
                    i -= 1;
                    assert(all.take(i + 1).last() == (members@[i as int].0@, members@[i as int].1.deep_view()));
                    if str_eq(members[i].0.as_str(), key) {
                        return Some(&members[i].1);
                    }
                }
                assert(all.take(0).len() == 0);
                None
            },
            _ => None,
        }
    }

    /// The value as a string, where it is one.
    pub fn as_str(&self) -> (r: Option<&str>)
        ensures
            match r {
                Some(s) => self.deep_view().as_str() == Some(s@),
                None => self.deep_view().as_str() is None,
            },
    {
        match self {
            Json::Str(s) => Some(s.as_str()),
            _ => None,
        }
    }

    /// The value as a truth value, where it is one.
    pub fn as_bool(&self) -> (r: Option<bool>)
        ensures
            r == self.deep_view().as_bool(),
    {
        match self {
            Json::Bool(b) => Some(*b),
            _ => None,
        }
    }

    /// The value as a signed 64-bit integer, where it is an integer in that range.
    pub fn as_i64(&self) -> (r: Option<i64>)
        ensures
            r == self.deep_view().as_i64(),
    {
        match self {
            Json::Int(n) => Some(*n),
            Json::UInt(n) => if *n <= 0x7fff_ffff_ffff_ffff {
                Some(*n as i64)
            } else {
                None
            },
            _ => None,
        }
    }

    /// The value as an unsigned 64-bit integer, where it is an integer in that range.
    pub fn as_u64(&self) -> (r: Option<u64>)
        ensures
            r == self.deep_view().as_u64(),
    {
        match self {
            Json::UInt(n) => Some(*n),
            Json::Int(n) => if *n >= 0 {
                Some(*n as u64)
            } else {
                None
            },
            _ => None,
        }
    }

    /// The items of the value, where it is an array.
    pub fn as_array(&self) -> (r: Option<&Vec<Json>>)
        ensures
            match r {
                Some(items) => self.deep_view().as_array() == Some(items.deep_view()),
                None => self.deep_view().as_array() is None,
            },
    {
        match self {
            Json::Array(items) => {
                proof {
                    lemma_array_view(*items);
                }
                Some(items)
            },
            _ => None,
        }
    }

    /// A string value with the characters of `s`.
    pub fn string(s: &str) -> (r: Json)
        ensures
            r.deep_view() == JsonData::Str(s@),
    {
        Json::Str(String::from_str(s))
    }

    /// An array of the given strings.
    pub fn string_array(texts: &[String]) -> (r: Json)
        ensures
            r.deep_view() == JsonData::Array(
                texts.deep_view().map_values(|t: Seq<char>| JsonData::Str(t)),
            ),
    {
        let mut items: Vec<Json> = Vec::new();
        let mut i: usize = 0;
        let ghost all = texts.deep_view();
        while i < texts.len()
            invariant
                i <= texts.len(),
                all == texts.deep_view(),
                items.len() == i,
                forall|k: int| 0 <= k < i ==> #[trigger] items@[k].deep_view() == JsonData::Str(all[k]),
            decreases texts.len() - i,
        {
            assert(all[i as int] == texts@[i as int]@);
            items.push(Json::Str(texts[i].clone()));
            i += 1;
        }
        proof {
            lemma_array_view(items);
            assert(items.deep_view() =~= all.map_values(|t: Seq<char>| JsonData::Str(t)));
        }
        Json::Array(items)
    }

    /// An object with the given members, in order.
    pub fn object(members: Vec<(String, Json)>) -> (r: Json)
        ensures
            r.deep_view() == JsonData::Object(members.deep_view()),
    {
        proof {
            lemma_object_view(members);
        }
        Json::Object(members)
    }

    /// The strings among `items`, in order.
    pub fn strings(items: &Vec<Json>) -> (r: Vec<String>)
        ensures
            r.deep_view() == strings(items.deep_view()),
    {
        let mut r: Vec<String> = Vec::new();
        let ghost all = items.deep_view();
        let mut i: usize = 0;
        assert(all.take(0) =~= Seq::<JsonData>::empty());
        assert(r.deep_view() =~= Seq::<Seq<char>>::empty());
        while i < items.len()
            invariant
                i <= items.len(),
                all == items.deep_view(),
                r.deep_view() == strings(all.take(i as int)),
            decreases items.len() - i,
        {
            proof {
                assert(all.take(i + 1).drop_last() =~= all.take(i as int));
                assert(all.take(i + 1).last() == items@[i as int].deep_view());
            }
            let ghost before = r.deep_view();
            match items[i].as_str() {
                Some(s) => {
                    let owned = String::from_str(s);
                    r.push(owned);
                    assert(r.deep_view() =~= before.push(s@));
                },
                None => {},
            }
            i += 1;
        }
        assert(all.take(i as int) =~= all);
        r
    }

    /// Reads a value from its JSON text; `None` where the text is no JSON.
    pub fn parse(text: &str) -> (r: Option<Json>)
        ensures
            match r {
                Some(j) => json_text_value(text@) == Some(j.deep_view()),
                None => json_text_value(text@) is None,
            },
    {
        match decode_json(text) {
            Ok(j) => Some(j),
            Err(_) => None,
        }
    }

    /// Whether arrays and objects stand at most `limit` deep in each other.
    pub fn nests_within(&self, limit: usize) -> (r: bool)
        ensures
            r == nested_within(self.deep_view(), limit as nat),
        decreases limit,
    {
        match self {
            Json::Array(items) => {
                proof {
                    lemma_array_view(*items);
                }
                if limit == 0 {
                    return false;
                }
                let ghost all = items.deep_view();
                let mut i: usize = items.len();
                while i > 0
                    invariant
                        i <= items.len(),
                        limit > 0,
                        all == items.deep_view(),
                        self.deep_view() == JsonData::Array(all),
                        items_nested(all, (limit - 1) as nat, all.len()) == items_nested(
                            all,
                            (limit - 1) as nat,
                            i as nat,
                        ),
                    decreases i,
                {
                    i -= 1;
                    assert(all[i as int] == items@[i as int].deep_view());
                    if !items[i].nests_within(limit - 1) {
                        return false;
                    }
                }
                true
            },
            Json::Object(members) => {
                proof {
                    lemma_object_view(*members);
                }
                if limit == 0 {
                    return false;
                }
                let ghost all = members.deep_view();
                let mut i: usize = members.len();
                while i > 0
                    invariant
                        i <= members.len(),
                        limit > 0,
                        all == members.deep_view(),
                        self.deep_view() == JsonData::Object(all),
                        members_nested(all, (limit - 1) as nat, all.len()) == members_nested(
                            all,
                            (limit - 1) as nat,
                            i as nat,
                        ),
                    decreases i,
                {
                    i -= 1;
                    assert(all[i as int] == (
                        members@[i as int].0@,
                        members@[i as int].1.deep_view(),
                    ));
                    if !members[i].1.nests_within(limit - 1) {
                        return false;
                    }
                }
                true
            },
            _ => true,
        }
    }

    /// Writes the value as compact JSON text; `None` where it is nested too deep
    /// or cannot be written.
    pub fn render(&self) -> (r: Option<String>)
        ensures
            r.deep_view() == rendered(self.deep_view()),
    {
        if !self.nests_within(NESTING_LIMIT) {
            return None;
        }
        match encode_json(self) {
            Ok(t) => Some(t),
            Err(_) => None,
        }
    }

    /// The member `key`, where it is a string.
    pub fn get_str(&self, key: &str) -> (r: Option<&str>)
        ensures
            match r {
                Some(s) => self.deep_view().str_field(key@) == Some(s@),
                None => self.deep_view().str_field(key@) is None,
            },
    {
        match self.get(key) {
            Some(v) => v.as_str(),
            None => None,
        }
    }
}

} // verus!
