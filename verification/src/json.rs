//! JSON values, and the lenient reading of their fields.

use crate::text::same_text;
use vstd::prelude::*;
use vstd::string::*;

verus! {

/// A number: as an integer where it is one, as the bits of the nearest double,
/// and as it is written.
pub struct JsonNumber {
    pub unsigned: Option<u64>,
    pub signed: Option<i64>,
    pub bits: u64,
    pub text: String,
}

/// A JSON value. An array and an object also hold how they are written, without
/// blanks.
pub enum Json {
    Null,
    Bool(bool),
    Number(JsonNumber),
    Str(String),
    Array(Vec<Json>, String),
    Object(Vec<(String, Json)>, String),
}

/// A value of `serde_json`.
#[verifier::external_type_specification]
#[verifier::external_body]
pub struct ExValue(serde_json::Value);

/// What a value of `serde_json` holds.
pub uninterp spec fn json_model(v: serde_json::Value) -> Json;

/// What `serde_json` reads in a text; nothing where it is not JSON.
pub uninterp spec fn json_text(text: Seq<char>) -> Option<Json>;

/// `serde_json::from_str` into a `Value`: whether the text is JSON, and which
/// value it holds, depends on the text alone.
#[verifier::external_body]
fn parse_value(text: &str) -> (r: Option<serde_json::Value>)
    ensures
        r is Some <==> json_text(text@) is Some,
        r matches Some(v) ==> json_text(text@) == Some(json_model(v)),
{
    serde_json::from_str::<serde_json::Value>(text).ok()
}

/// The variants of a `serde_json::Value`, the accessors of its `Number` and the
/// text that `to_string` gives, taken over one for one: the result is what the
/// value holds.
#[verifier::external_body]
fn json_from(v: serde_json::Value) -> (r: Json)
    ensures
        r == json_model(v),
{
    let text = v.to_string();
    match v {
        serde_json::Value::Null => Json::Null,
        serde_json::Value::Bool(b) => Json::Bool(b),
        serde_json::Value::Number(n) => Json::Number(JsonNumber {
            unsigned: n.as_u64(),
            signed: n.as_i64(),
            bits: n.as_f64().unwrap_or_default().to_bits(),
            text,
        }),
        serde_json::Value::String(s) => Json::Str(s),
        serde_json::Value::Array(a) => Json::Array(a.into_iter().map(json_from).collect(), text),
        serde_json::Value::Object(m) => Json::Object(m.into_iter().map(|(k, v)| (k, json_from(v))).collect(), text),
    }
}

/// Reads a JSON text.
pub fn parse_json(text: &str) -> (r: Option<Json>)
    ensures
        r == json_text(text@),
{
    match parse_value(text) {
        Some(v) => Some(json_from(v)),
        None => None,
    }
}

// ---------------------------------------------------------------------------
// Fields
// ---------------------------------------------------------------------------

/// The value of the first entry from `i` on whose key is `key`.
pub open spec fn entry_from(v: Seq<(String, Json)>, key: Seq<char>, i: int) -> Option<Json>
    decreases v.len() - i,
{
    if i < 0 || i >= v.len() {
        None
    } else if v[i].0@ == key {
        Some(v[i].1)
    } else {
        entry_from(v, key, i + 1)
    }
}

/// The field `key` of an object.
pub open spec fn field(j: Json, key: Seq<char>) -> Option<Json> {
    match j {
        Json::Object(v, _) => entry_from(v@, key, 0),
        _ => None,
    }
}

/// The field `key` as the bits of a double.
pub open spec fn double_field(j: Json, key: Seq<char>) -> Option<u64> {
    match field(j, key) {
        Some(Json::Number(n)) => Some(n.bits),
        _ => None,
    }
}

pub open spec fn double_or(j: Json, key: Seq<char>, default: u64) -> u64 {
    match double_field(j, key) {
        Some(b) => b,
        None => default,
    }
}

/// A value as an integer of 64 bits.
pub open spec fn as_int(j: Json) -> Option<i64> {
    match j {
        Json::Number(n) => n.signed,
        _ => None,
    }
}

pub open spec fn int_or(j: Json, key: Seq<char>, default: i32) -> i32 {
    match field(j, key) {
        Some(v) => match as_int(v) {
            Some(n) => n as i32,
            None => default,
        },
        None => default,
    }
}

pub open spec fn bool_or(j: Json, key: Seq<char>, default: bool) -> bool {
    match field(j, key) {
        Some(Json::Bool(b)) => b,
        _ => default,
    }
}

pub open spec fn str_or(j: Json, key: Seq<char>, default: Seq<char>) -> Seq<char> {
    match field(j, key) {
        Some(Json::Str(s)) => s@,
        _ => default,
    }
}

/// The field `key` where it is an array.
pub open spec fn array_field(j: Json, key: Seq<char>) -> Option<Seq<Json>> {
    match field(j, key) {
        Some(Json::Array(v, _)) => Some(v@),
        _ => None,
    }
}

/// The field `key` where it is an object with at least one entry.
pub open spec fn full_object(j: Json, key: Seq<char>) -> Option<Json> {
    match field(j, key) {
        Some(Json::Object(v, t)) => if v@.len() > 0 {
            Some(Json::Object(v, t))
        } else {
            None
        },
        _ => None,
    }
}

impl Json {
    /// The field `key` of an object.
    pub fn get(&self, key: &str) -> (r: Option<&Json>)
        ensures
            r is Some <==> field(*self, key@) is Some,
            r matches Some(v) ==> *v == field(*self, key@)->0,
    {
        match self {
            Json::Object(v, t) => {
                let mut i: usize = 0;
                while i < v.len()
                    invariant
                        i <= v@.len(),
                        *self == Json::Object(*v, *t),
                        entry_from(v@, key@, 0) == entry_from(v@, key@, i as int),
                    decreases v.len() - i,
                {
                    if same_text(v[i].0.as_str(), key) {
                        return Some(&v[i].1);
                    }
                    i += 1;
                }
                None
            },
            _ => None,
        }
    }

    /// The field `key` as the bits of a double, else `default`.
    pub fn double_bits(&self, key: &str, default: u64) -> (r: u64)
        ensures
            r == double_or(*self, key@, default),
    {
        match self.get(key) {
            Some(Json::Number(n)) => n.bits,
            _ => default,
        }
    }

    /// The field `key` as an integer of 32 bits, else `default`; a larger
    /// integer is cut to its low bits.
    pub fn integer(&self, key: &str, default: i32) -> (r: i32)
        ensures
            r == int_or(*self, key@, default),
    {
        match self.get(key) {
            Some(Json::Number(n)) => match n.signed {
                Some(x) => x as i32,
                None => default,
            },
            _ => default,
        }
    }

    /// The field `key` as a truth value, else `default`.
    pub fn truth(&self, key: &str, default: bool) -> (r: bool)
        ensures
            r == bool_or(*self, key@, default),
    {
        match self.get(key) {
            Some(Json::Bool(b)) => *b,
            _ => default,
        }
    }

    /// The field `key` as a text, else `default`.
    pub fn text(&self, key: &str, default: &str) -> (r: String)
        ensures
            r@ == str_or(*self, key@, default@),
    {
        match self.get(key) {
            Some(Json::Str(s)) => s.clone(),
            _ => default.to_owned(),
        }
    }

    /// The field `key` where it is an array.
    pub fn array(&self, key: &str) -> (r: Option<&Vec<Json>>)
        ensures
            r is Some <==> array_field(*self, key@) is Some,
            r matches Some(v) ==> v@ == array_field(*self, key@)->0,
    {
        match self.get(key) {
            Some(Json::Array(v, _)) => Some(v),
            _ => None,
        }
    }

    /// The field `key` where it is an object that is not empty.
    pub fn object(&self, key: &str) -> (r: Option<&Json>)
        ensures
            r is Some <==> full_object(*self, key@) is Some,
            r matches Some(v) ==> *v == full_object(*self, key@)->0,
    {
        match self.get(key) {
            Some(j) => match j {
                Json::Object(v, _) => if v.len() > 0 {
                    Some(j)
                } else {
                    None
                },
                _ => None,
            },
            None => None,
        }
    }
}

// ---------------------------------------------------------------------------
// Laws
// ---------------------------------------------------------------------------

/// The object `j` holds `v` under `key`, and nothing else under it.
pub open spec fn holds(j: Json, key: Seq<char>, v: Json) -> bool {
    &&& j is Object
    &&& exists|i: int|
        0 <= i < j->Object_0@.len() && (#[trigger] j->Object_0@[i]).0@ == key && j->Object_0@[i].1
            == v
    &&& forall|i: int, k: int|
        0 <= i < k < j->Object_0@.len() ==> !((#[trigger] j->Object_0@[i]).0@ == key && (
        #[trigger] j->Object_0@[k]).0@ == key)
}

/// The object `j` holds nothing under `key`.
pub open spec fn lacks(j: Json, key: Seq<char>) -> bool {
    j is Object && forall|i: int|
        0 <= i < j->Object_0@.len() ==> (#[trigger] j->Object_0@[i]).0@ != key
}

/// The object `j` holds a number under `key`, whose double has these bits.
pub open spec fn holds_number(j: Json, key: Seq<char>, bits: u64) -> bool {
    exists|n: JsonNumber| #[trigger] holds(j, key, Json::Number(n)) && n.bits == bits
}

/// The object `j` holds an integer under `key`.
pub open spec fn holds_integer(j: Json, key: Seq<char>, x: i64) -> bool {
    exists|n: JsonNumber| #[trigger] holds(j, key, Json::Number(n)) && n.signed == Some(x)
}

/// The object `j` holds a text under `key`.
pub open spec fn holds_text(j: Json, key: Seq<char>, text: Seq<char>) -> bool {
    exists|s: String| #[trigger] holds(j, key, Json::Str(s)) && s@ == text
}

/// The object `j` holds an array under `key`.
pub open spec fn holds_array(j: Json, key: Seq<char>, a: Seq<Json>) -> bool {
    exists|v: Vec<Json>, written: String| #[trigger]
        holds(j, key, Json::Array(v, written)) && v@ == a
}

proof fn lemma_entry_from(v: Seq<(String, Json)>, key: Seq<char>, i: int)
    requires
        0 <= i,
    ensures
        match entry_from(v, key, i) {
            Some(x) => exists|k: int|
                i <= k < v.len() && (#[trigger] v[k]).0@ == key && v[k].1 == x,
            None => forall|k: int| i <= k < v.len() ==> (#[trigger] v[k]).0@ != key,
        },
    decreases v.len() - i,
{
    if i < v.len() {
        if v[i].0@ != key {
            lemma_entry_from(v, key, i + 1);
        }
    }
}

/// A field is what the object holds under the key, in whatever order it holds
/// its entries; of a value that holds nothing there, and of one that is no
/// object, there is none.
pub proof fn law_field_is_found(j: Json, key: Seq<char>, v: Json)
    ensures
        holds(j, key, v) ==> field(j, key) == Some(v),
        lacks(j, key) ==> field(j, key) is None,
        !(j is Object) ==> field(j, key) is None,
        field(j, key) is Some ==> !lacks(j, key),
{
    if j is Object {
        lemma_entry_from(j->Object_0@, key, 0);
    }
}

/// A number that an object holds is read whatever the default is, and the
/// default is what comes of a missing field and of one that is no number.
pub proof fn law_numbers_are_read(j: Json, key: Seq<char>, bits: u64, v: Json, default: u64)
    ensures
        holds_number(j, key, bits) ==> double_or(j, key, default) == bits && double_field(j, key)
            == Some(bits),
        lacks(j, key) || !(j is Object) ==> double_or(j, key, default) == default && double_field(
            j,
            key,
        ) is None,
        holds(j, key, v) && !(v is Number) ==> double_or(j, key, default) == default
            && double_field(j, key) is None,
{
    if holds_number(j, key, bits) {
        let n = choose|n: JsonNumber| #[trigger]
            holds(j, key, Json::Number(n)) && n.bits == bits;
        law_field_is_found(j, key, Json::Number(n));
    }
    law_field_is_found(j, key, v);
}

/// The same of integers that fit into 32 bits.
pub proof fn law_integers_are_read(j: Json, key: Seq<char>, x: i32, v: Json, default: i32)
    ensures
        holds_integer(j, key, x as i64) ==> int_or(j, key, default) == x,
        lacks(j, key) || !(j is Object) ==> int_or(j, key, default) == default,
        holds(j, key, v) && (!(v is Number) || v->Number_0.signed is None) ==> int_or(
            j,
            key,
            default,
        ) == default,
{
    if holds_integer(j, key, x as i64) {
        let n = choose|n: JsonNumber| #[trigger]
            holds(j, key, Json::Number(n)) && n.signed == Some(x as i64);
        law_field_is_found(j, key, Json::Number(n));
    }
    law_field_is_found(j, key, v);
}

/// The same of truth values.
pub proof fn law_truths_are_read(j: Json, key: Seq<char>, b: bool, v: Json, default: bool)
    ensures
        holds(j, key, Json::Bool(b)) ==> bool_or(j, key, default) == b,
        lacks(j, key) || !(j is Object) ==> bool_or(j, key, default) == default,
        holds(j, key, v) && !(v is Bool) ==> bool_or(j, key, default) == default,
{
    law_field_is_found(j, key, Json::Bool(b));
    law_field_is_found(j, key, v);
}

/// The same of texts.
pub proof fn law_texts_are_read(
    j: Json,
    key: Seq<char>,
    text: Seq<char>,
    v: Json,
    default: Seq<char>,
)
    ensures
        holds_text(j, key, text) ==> str_or(j, key, default) == text,
        lacks(j, key) || !(j is Object) ==> str_or(j, key, default) == default,
        holds(j, key, v) && !(v is Str) ==> str_or(j, key, default) == default,
{
    if holds_text(j, key, text) {
        let s = choose|s: String| #[trigger] holds(j, key, Json::Str(s)) && s@ == text;
        law_field_is_found(j, key, Json::Str(s));
    }
    law_field_is_found(j, key, v);
}

/// The same of arrays and of objects; an empty object counts as none.
pub proof fn law_lists_are_read(j: Json, key: Seq<char>, a: Seq<Json>, v: Json)
    ensures
        holds_array(j, key, a) ==> array_field(j, key) == Some(a),
        lacks(j, key) || !(j is Object) ==> array_field(j, key) is None && full_object(
            j,
            key,
        ) is None,
        holds(j, key, v) && !(v is Array) ==> array_field(j, key) is None,
        holds(j, key, v) && v is Object && v->Object_0@.len() > 0 ==> full_object(j, key) == Some(
            v,
        ),
        holds(j, key, v) && !(v is Object && v->Object_0@.len() > 0) ==> full_object(
            j,
            key,
        ) is None,
{
    if holds_array(j, key, a) {
        let (w, written) = choose|w: Vec<Json>, written: String| #[trigger]
            holds(j, key, Json::Array(w, written)) && w@ == a;
        law_field_is_found(j, key, Json::Array(w, written));
    }
    law_field_is_found(j, key, v);
}

} // verus!
