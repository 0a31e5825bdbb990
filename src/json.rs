//! A JSON value as plain data, with field lookup and typed accessors.

use vstd::prelude::*;
use crate::text::text_eq;

verus! {

/// A JSON value. Objects keep their entries in the order they were given;
/// their key order carries no meaning.
#[derive(Debug)]
pub enum JsonValue {
    Null,
    Bool(bool),
    /// An integer number.
    Int(i128),
    /// A number with a fraction or an exponent, held as its JSON text.
    Float(String),
    Str(String),
    Array(Vec<JsonValue>),
    Object(Vec<(String, JsonValue)>),
}

/// The mathematical form of a JSON value: texts as character sequences.
pub enum Json {
    Null,
    Bool(bool),
    Int(int),
    Float(Seq<char>),
    Str(Seq<char>),
    Array(Seq<Json>),
    Object(Seq<(Seq<char>, Json)>),
}

/// The views of the items, in order.
pub open spec fn view_items(s: Seq<JsonValue>) -> Seq<Json>
    decreases s, 0nat,
{
    if s.len() == 0 {
        seq![]
    } else {
        view_items(s.drop_last()).push(view_json(s.last()))
    }
}

/// The views of the entries, in order.
pub open spec fn view_entries(es: Seq<(String, JsonValue)>) -> Seq<(Seq<char>, Json)>
    decreases es, 0nat,
{
    if es.len() == 0 {
        seq![]
    } else {
        view_entries(es.drop_last()).push((es.last().0@, view_json(es.last().1)))
    }
}

/// The view of a value.
pub open spec fn view_json(v: JsonValue) -> Json
    decreases v, 0nat,
{
    match v {
        JsonValue::Null => Json::Null,
        JsonValue::Bool(b) => Json::Bool(b),
        JsonValue::Int(n) => Json::Int(n as int),
        JsonValue::Float(t) => Json::Float(t@),
        JsonValue::Str(s) => Json::Str(s@),
        JsonValue::Array(items) => Json::Array(view_items(items@)),
        JsonValue::Object(es) => Json::Object(view_entries(es@)),
    }
}

impl View for JsonValue {
    type V = Json;

    open spec fn view(&self) -> Json {
        view_json(*self)
    }
}

/// The view of the items keeps their number and order.
pub proof fn lemma_view_items(s: Seq<JsonValue>)
    ensures
        view_items(s).len() == s.len(),
        forall|i: int| 0 <= i < s.len() ==> #[trigger] view_items(s)[i] == view_json(s[i]),
    decreases s.len(),
{
    if s.len() > 0 {
        lemma_view_items(s.drop_last());
    }
}

/// The view of the entries keeps their number and order.
pub proof fn lemma_view_entries(es: Seq<(String, JsonValue)>)
    ensures
        view_entries(es).len() == es.len(),
        forall|i: int|
            0 <= i < es.len() ==> #[trigger] view_entries(es)[i] == (es[i].0@, view_json(es[i].1)),
    decreases es.len(),
{
    if es.len() > 0 {
        lemma_view_entries(es.drop_last());
    }
}

/// Appending a value appends its view.
pub proof fn lemma_view_items_push(s: Seq<JsonValue>, x: JsonValue)
    ensures
        view_items(s.push(x)) == view_items(s).push(view_json(x)),
{
    assert(s.push(x).drop_last() =~= s);
}

/// Appending an entry appends its view.
pub proof fn lemma_view_entries_push(es: Seq<(String, JsonValue)>, e: (String, JsonValue))
    ensures
        view_entries(es.push(e)) == view_entries(es).push((e.0@, view_json(e.1))),
{
    assert(es.push(e).drop_last() =~= es);
}

/// Appends an entry to an object's entries.
pub fn push_entry(es: &mut Vec<(String, JsonValue)>, key: &str, v: JsonValue)
    ensures
        view_entries(final(es)@) == view_entries(old(es)@).push((key@, v@)),
{
    let k = key.to_owned();
    proof { lemma_view_entries_push(es@, (k, v)); }
    es.push((k, v));
}

/// A copy of the value.
pub fn copy_json(v: &JsonValue) -> (r: JsonValue)
    ensures
        r@ == v@,
    decreases v,
{
    match v {
        JsonValue::Null => JsonValue::Null,
        JsonValue::Bool(b) => JsonValue::Bool(*b),
        JsonValue::Int(n) => JsonValue::Int(*n),
        JsonValue::Float(t) => JsonValue::Float(t.clone()),
        JsonValue::Str(s) => JsonValue::Str(s.clone()),
        JsonValue::Array(items) => {
            let mut out: Vec<JsonValue> = Vec::new();
            let mut i: usize = 0;
            proof { lemma_view_items(items@); }
            while i < items.len()
                invariant
                    i <= items@.len(),
                    *v == JsonValue::Array(*items),
                    view_items(out@) == view_items(items@).take(i as int),
                    view_items(items@).len() == items@.len(),
                    forall|j: int| 0 <= j < items@.len() ==> #[trigger] view_items(items@)[j] == view_json(items@[j]),
                decreases items.len() - i,
            {
                proof {
                    assert(decreases_to!(*v => v->Array_0));
                    assert(decreases_to!(v->Array_0 => v->Array_0@));
                    assert(decreases_to!(v->Array_0@ => v->Array_0@[i as int]));
                }
                let c = copy_json(&items[i]);
                proof { lemma_view_items_push(out@, c); }
                out.push(c);
                assert(view_items(items@).take(i + 1) =~= view_items(items@).take(i as int).push(view_json(items@[i as int])));
                i = i + 1;
            }
            assert(view_items(items@).take(i as int) =~= view_items(items@));
            JsonValue::Array(out)
        },
        JsonValue::Object(es) => {
            let mut out: Vec<(String, JsonValue)> = Vec::new();
            let mut i: usize = 0;
            proof { lemma_view_entries(es@); }
            while i < es.len()
                invariant
                    i <= es@.len(),
                    *v == JsonValue::Object(*es),
                    view_entries(out@) == view_entries(es@).take(i as int),
                    view_entries(es@).len() == es@.len(),
                    forall|j: int| 0 <= j < es@.len() ==> #[trigger] view_entries(es@)[j] == (es@[j].0@, view_json(es@[j].1)),
                decreases es.len() - i,
            {
                proof {
                    assert(decreases_to!(*v => v->Object_0));
                    assert(decreases_to!(v->Object_0 => v->Object_0@));
                    assert(decreases_to!(v->Object_0@ => v->Object_0@[i as int]));
                    assert(decreases_to!(v->Object_0@[i as int] => v->Object_0@[i as int].1));
                }
                let c = copy_json(&es[i].1);
                let k = es[i].0.clone();
                proof { lemma_view_entries_push(out@, (k, c)); }
                out.push((k, c));
                assert(view_entries(es@).take(i + 1) =~= view_entries(es@).take(i as int).push((es@[i as int].0@, view_json(es@[i as int].1))));
                i = i + 1;
            }
            assert(view_entries(es@).take(i as int) =~= view_entries(es@));
            JsonValue::Object(out)
        },
    }
}

/// A string value, or `null` for no text.
pub open spec fn text_json(o: Option<Seq<char>>) -> Json {
    match o {
        Some(s) => Json::Str(s),
        None => Json::Null,
    }
}

/// The view of an optional text.
pub open spec fn opt_view(o: Option<String>) -> Option<Seq<char>> {
    match o {
        Some(s) => Some(s@),
        None => None,
    }
}

/// A string value holding a copy of the text, or `null`.
pub fn opt_text_value(o: &Option<String>) -> (r: JsonValue)
    ensures
        r@ == text_json(opt_view(*o)),
{
    match o {
        Some(s) => JsonValue::Str(s.clone()),
        None => JsonValue::Null,
    }
}

/// A string value holding a copy of the text.
pub fn text_value(s: &String) -> (r: JsonValue)
    ensures
        r@ == Json::Str(s@),
{
    JsonValue::Str(s.clone())
}

/// The value of the first entry whose key is `key`.
pub open spec fn entry_lookup(es: Seq<(Seq<char>, Json)>, key: Seq<char>) -> Option<Json>
    decreases es.len(),
{
    if es.len() == 0 {
        None
    } else if es[0].0 == key {
        Some(es[0].1)
    } else {
        entry_lookup(es.drop_first(), key)
    }
}

/// The field `key` of an object; `None` for a missing key or a non-object.
pub open spec fn field(v: Json, key: Seq<char>) -> Option<Json> {
    match v {
        Json::Object(es) => entry_lookup(es, key),
        _ => None,
    }
}

/// The text of a string value.
pub open spec fn str_of(v: Option<Json>) -> Option<Seq<char>> {
    match v {
        Some(Json::Str(s)) => Some(s),
        _ => None,
    }
}

/// The boolean of a boolean value.
pub open spec fn bool_of(v: Option<Json>) -> Option<bool> {
    match v {
        Some(Json::Bool(b)) => Some(b),
        _ => None,
    }
}

/// The value of an integer that fits in `u64`.
pub open spec fn u64_of(v: Option<Json>) -> Option<u64> {
    match v {
        Some(Json::Int(n)) => if 0 <= n <= u64::MAX {
            Some(n as u64)
        } else {
            None
        },
        _ => None,
    }
}

impl JsonValue {
    /// The field `key` of an object.
    pub fn get(&self, key: &str) -> (r: Option<&JsonValue>)
        ensures
            match r {
                Some(x) => field(self@, key@) == Some(x@),
                None => field(self@, key@) is None,
            },
    {
        match self {
            JsonValue::Object(es) => {
                let ghost vs = view_entries(es@);
                proof { lemma_view_entries(es@); }
                let mut i: usize = 0;
                assert(vs.skip(0) =~= vs);
                while i < es.len()
                    invariant
                        i <= es@.len(),
                        vs == view_entries(es@),
                        vs.len() == es@.len(),
                        forall|j: int| 0 <= j < es@.len() ==> #[trigger] vs[j] == (es@[j].0@, view_json(es@[j].1)),
                        field(self@, key@) == entry_lookup(vs, key@),
                        entry_lookup(vs, key@) == entry_lookup(vs.skip(i as int), key@),
                    decreases es.len() - i,
                {
                    assert(vs.skip(i as int).drop_first() =~= vs.skip(i + 1));
                    assert(vs.skip(i as int)[0] == vs[i as int]);
                    if text_eq(es[i].0.as_str(), key) {
                        return Some(&es[i].1);
                    }
                    i = i + 1;
                }
                None
            },
            _ => None,
        }
    }

    /// The text of a string value.
    pub fn as_str(&self) -> (r: Option<&str>)
        ensures
            match r {
                Some(s) => str_of(Some(self@)) == Some(s@),
                None => str_of(Some(self@)) is None,
            },
    {
        match self {
            JsonValue::Str(s) => Some(s.as_str()),
            _ => None,
        }
    }

    /// The boolean of a boolean value.
    pub fn as_bool(&self) -> (r: Option<bool>)
        ensures
            r == bool_of(Some(self@)),
    {
        match self {
            JsonValue::Bool(b) => Some(*b),
            _ => None,
        }
    }

    /// The value of an integer that fits in `u64`.
    pub fn as_u64(&self) -> (r: Option<u64>)
        ensures
            r == u64_of(Some(self@)),
    {
        match self {
            JsonValue::Int(n) => if 0 <= *n && *n <= 0xffff_ffff_ffff_ffff {
                Some(*n as u64)
            } else {
                None
            },
            _ => None,
        }
    }

    /// The items of an array.
    pub fn as_array(&self) -> (r: Option<&Vec<JsonValue>>)
        ensures
            match *self {
                JsonValue::Array(items) => r is Some && *r->0 == items,
                _ => r is None,
            },
    {
        match self {
            JsonValue::Array(items) => Some(items),
            _ => None,
        }
    }

    /// The entries of an object.
    pub fn as_object(&self) -> (r: Option<&Vec<(String, JsonValue)>>)
        ensures
            match *self {
                JsonValue::Object(es) => r is Some && *r->0 == es,
                _ => r is None,
            },
    {
        match self {
            JsonValue::Object(es) => Some(es),
            _ => None,
        }
    }

    /// Whether the value is `null`.
    pub fn is_null(&self) -> (r: bool)
        ensures
            r == (self@ is Null),
    {
        match self {
            JsonValue::Null => true,
            _ => false,
        }
    }
}

#[verifier::external_type_specification]
#[verifier::external_body]
pub struct ExSerdeValue(serde_json::Value);

/// The value that the JSON text denotes, when it is valid JSON.
pub uninterp spec fn parsed_json(text: Seq<char>) -> Option<Json>;

/// Relies on `serde_json::from_str` into a `serde_json::Value`, converted
/// variant for variant; the error is serde_json's message. Its objects are
/// maps, so their keys are distinct.
#[verifier::external_body]
pub(crate) fn parse_text(text: &str) -> (r: Result<JsonValue, String>)
    ensures
        match r {
            Ok(v) => parsed_json(text@) == Some(v@) && crate::canonical::well_formed(v@),
            Err(_) => parsed_json(text@) is None,
        },
{
    match serde_json::from_str::<serde_json::Value>(text) {
        Ok(v) => Ok(from_serde(v)),
        Err(e) => Err(e.to_string()),
    }
}

/// Relies on the variants of `serde_json::Value`: each becomes the matching variant.
#[verifier::external_body]
fn from_serde(v: serde_json::Value) -> JsonValue {
    match v {
        serde_json::Value::Null => JsonValue::Null,
        serde_json::Value::Bool(b) => JsonValue::Bool(b),
        serde_json::Value::Number(n) => match (n.as_u64(), n.as_i64()) {
            (Some(u), _) => JsonValue::Int(u as i128),
            (None, Some(i)) => JsonValue::Int(i as i128),
            (None, None) => JsonValue::Float(n.to_string()),
        },
        serde_json::Value::String(s) => JsonValue::Str(s),
        serde_json::Value::Array(a) => JsonValue::Array(a.into_iter().map(from_serde).collect()),
        serde_json::Value::Object(m) => {
            JsonValue::Object(m.into_iter().map(|(k, x)| (k, from_serde(x))).collect())
        },
    }
}

} // verus!
