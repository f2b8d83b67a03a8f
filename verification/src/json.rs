//! A JSON document model for the messages the remote reads: agent JSON-RPC
//! lines, session files and chat history lines.
//!
//! The shape follows `serde_json::Value`; an object keeps its members as an
//! ordered list of (key, value) pairs and a lookup takes the first member
//! with the key, as a map with unique keys would.
use vstd::prelude::*;
use crate::text::{chars_of, owned, str_eq};
use serde_json::{Number, Value};

verus! {

/// A JSON number, kept the way `serde_json` keeps it: a non-negative
/// integer, a negative integer, or a floating-point number, which the
/// library only carries and holds as its text.
#[derive(Debug, Clone, PartialEq, Eq)]
pub enum JsonNumber {
    PosInt(u64),
    NegInt(i64),
    Float(String),
}

/// A JSON value.
#[derive(Debug, PartialEq, Eq)]
pub enum Json {
    Null,
    Bool(bool),
    Number(JsonNumber),
    Str(String),
    Array(Vec<Json>),
    Object(Vec<(String, Json)>),
}

/// The spec-level form of a JSON number.
pub enum NumberV {
    PosInt(u64),
    NegInt(i64),
    Float(Seq<char>),
}

/// The spec-level form of a JSON value: strings as `char` sequences,
/// arrays and objects as sequences.
pub enum JsonV {
    Null,
    Bool(bool),
    Number(NumberV),
    Str(Seq<char>),
    Array(Seq<JsonV>),
    Object(Seq<(Seq<char>, JsonV)>),
}

/// The spec-level form of a JSON value.
pub open spec fn json_view(j: Json) -> JsonV
    decreases j,
{
    match j {
        Json::Null => JsonV::Null,
        Json::Bool(b) => JsonV::Bool(b),
        Json::Number(JsonNumber::PosInt(n)) => JsonV::Number(NumberV::PosInt(n)),
        Json::Number(JsonNumber::NegInt(n)) => JsonV::Number(NumberV::NegInt(n)),
        Json::Number(JsonNumber::Float(s)) => JsonV::Number(NumberV::Float(s@)),
        Json::Str(s) => JsonV::Str(s@),
        Json::Array(v) => JsonV::Array(
            Seq::new(
                v@.len(),
                |i: int|
                    if 0 <= i < v@.len() {
                        json_view(v@[i])
                    } else {
                        JsonV::Null
                    },
            ),
        ),
        Json::Object(m) => JsonV::Object(
            Seq::new(
                m@.len(),
                |i: int|
                    if 0 <= i < m@.len() {
                        (m@[i].0@, json_view(m@[i].1))
                    } else {
                        (Seq::empty(), JsonV::Null)
                    },
            ),
        ),
    }
}

impl View for Json {
    type V = JsonV;

    open spec fn view(&self) -> JsonV {
        json_view(*self)
    }
}

/// The value of the first member of `entries` whose key is `key`.
pub open spec fn lookup(entries: Seq<(Seq<char>, JsonV)>, key: Seq<char>) -> Option<JsonV>
    decreases entries.len(),
{
    if entries.len() == 0 {
        None
    } else if entries[0].0 == key {
        Some(entries[0].1)
    } else {
        lookup(entries.drop_first(), key)
    }
}

/// An ASCII decimal digit.
pub open spec fn is_digit(c: char) -> bool {
    '0' <= c <= '9'
}

/// All characters of `s` are ASCII decimal digits.
pub open spec fn all_digits(s: Seq<char>) -> bool {
    forall|i: int| 0 <= i < s.len() ==> is_digit(#[trigger] s[i])
}

/// The value of a string of decimal digits.
pub open spec fn digits_value(s: Seq<char>) -> nat
    decreases s.len(),
{
    if s.len() == 0 {
        0
    } else {
        digits_value(s.drop_last()) * 10 + ((s.last() as nat) - 48) as nat
    }
}

/// An array index in a JSON pointer token: decimal digits without a
/// leading zero (other than "0" itself) that fit in `usize`.
pub open spec fn array_index(t: Seq<char>) -> Option<nat> {
    if t.len() == 0 || (t[0] == '0' && t.len() != 1) || !all_digits(t) || digits_value(t)
        > usize::MAX {
        None
    } else {
        Some(digits_value(t))
    }
}

/// The first of two optional values that is present (`Option::or`).
pub open spec fn or_else<T>(a: Option<T>, b: Option<T>) -> Option<T> {
    match a {
        Some(x) => Some(x),
        None => b,
    }
}

impl JsonV {
    /// The member `key` of an object (`Value::get` with a string key).
    pub open spec fn field(self, key: Seq<char>) -> Option<JsonV> {
        match self {
            JsonV::Object(m) => lookup(m, key),
            _ => None,
        }
    }

    /// One step of a JSON pointer: the member `token` of an object, or the
    /// element of an array at the index that `token` spells.
    pub open spec fn step(self, token: Seq<char>) -> Option<JsonV> {
        match self {
            JsonV::Object(m) => lookup(m, token),
            JsonV::Array(v) => match array_index(token) {
                Some(i) => if i < v.len() {
                    Some(v[i as int])
                } else {
                    None
                },
                None => None,
            },
            _ => None,
        }
    }

    /// The text of a string value (`Value::as_str`).
    pub open spec fn text(self) -> Option<Seq<char>> {
        match self {
            JsonV::Str(s) => Some(s),
            _ => None,
        }
    }

    /// The elements of an array value (`Value::as_array`).
    pub open spec fn items(self) -> Option<Seq<JsonV>> {
        match self {
            JsonV::Array(v) => Some(v),
            _ => None,
        }
    }

    /// A non-negative integer value (`Value::as_u64`).
    pub open spec fn unsigned(self) -> Option<u64> {
        match self {
            JsonV::Number(NumberV::PosInt(n)) => Some(n),
            _ => None,
        }
    }
}

/// The views of a sequence of values.
pub open spec fn views_of(v: Seq<Json>) -> Seq<JsonV> {
    Seq::new(v.len(), |i: int| v[i]@)
}

/// `field` of an optional value.
pub open spec fn opt_field(v: Option<JsonV>, key: Seq<char>) -> Option<JsonV> {
    match v {
        Some(j) => j.field(key),
        None => None,
    }
}

/// `step` of an optional value.
pub open spec fn opt_step(v: Option<JsonV>, token: Seq<char>) -> Option<JsonV> {
    match v {
        Some(j) => j.step(token),
        None => None,
    }
}

/// `text` of an optional value.
pub open spec fn opt_text(v: Option<JsonV>) -> Option<Seq<char>> {
    match v {
        Some(j) => j.text(),
        None => None,
    }
}

/// `items` of an optional value.
pub open spec fn opt_items(v: Option<JsonV>) -> Option<Seq<JsonV>> {
    match v {
        Some(j) => j.items(),
        None => None,
    }
}

/// The view of an optional borrowed value.
pub open spec fn deref_opt(v: Option<&Json>) -> Option<JsonV> {
    match v {
        Some(j) => Some(j@),
        None => None,
    }
}

/// The text behind an optional borrowed string.
pub open spec fn opt_str_view(v: Option<&str>) -> Option<Seq<char>> {
    match v {
        Some(s) => Some(s@),
        None => None,
    }
}

proof fn lemma_digits_push(s: Seq<char>, c: char)
    ensures
        digits_value(s.push(c)) == digits_value(s) * 10 + ((c as nat) - 48) as nat,
{
    assert(s.push(c).drop_last() =~= s);
}

/// The value of a string of digits is at least that of each of its
/// prefixes.
pub proof fn lemma_digits_prefix_le(s: Seq<char>, k: int)
    requires
        0 <= k <= s.len(),
        all_digits(s),
    ensures
        digits_value(s.take(k)) <= digits_value(s),
    decreases s.len() - k,
{
    if k < s.len() {
        lemma_digits_prefix_le(s, k + 1);
        assert(s.take(k + 1).drop_last() =~= s.take(k));
        assert(is_digit(s[k]));
    } else {
        assert(s.take(k) =~= s);
    }
}

/// Parses a JSON pointer array index (as `serde_json` does: no sign, no
/// leading zero, within `usize`).
pub fn parse_array_index(t: &str) -> (r: Option<usize>)
    ensures
        r matches Some(i) ==> array_index(t@) == Some(i as nat),
        r is None ==> array_index(t@) is None,
{
    let cs = chars_of(t);
    if cs.len() == 0 || (cs[0] == '0' && cs.len() != 1) {
        return None;
    }
    let mut acc: usize = 0;
    let mut i: usize = 0;
    while i < cs.len()
        invariant
            cs@ == t@,
            0 <= i <= cs@.len(),
            all_digits(cs@.take(i as int)),
            acc as nat == digits_value(cs@.take(i as int)),
        decreases cs@.len() - i,
    {
        let c = cs[i];
        if !('0' <= c && c <= '9') {
            assert(!all_digits(t@)) by {
                assert(!is_digit(t@[i as int]));
            }
            return None;
        }
        proof {
            assert(cs@.take(i + 1) =~= cs@.take(i as int).push(c));
            lemma_digits_push(cs@.take(i as int), c);
        }
        let d = (c as u32 - 48) as usize;
        match acc.checked_mul(10) {
            Some(m) => match m.checked_add(d) {
                Some(n) => {
                    acc = n;
                },
                None => {
                    proof {
                        lemma_digits_tail_bound(cs@, i as int + 1);
                    }
                    return None;
                },
            },
            None => {
                proof {
                    lemma_digits_tail_bound(cs@, i as int + 1);
                }
                return None;
            },
        }
        i = i + 1;
    }
    assert(cs@.take(cs@.len() as int) =~= cs@);
    Some(acc)
}

/// When a prefix of a digit-prefixed string already exceeds `usize`, the
/// index it spells is not an array index.
proof fn lemma_digits_tail_bound(s: Seq<char>, k: int)
    requires
        0 < k <= s.len(),
        all_digits(s.take(k)),
        digits_value(s.take(k)) > usize::MAX,
    ensures
        array_index(s) is None,
{
    if all_digits(s) {
        lemma_digits_prefix_le(s, k);
    }
}

impl Json {
    /// The member `key` of an object (`Value::get`).
    pub fn get(&self, key: &str) -> (r: Option<&Json>)
        ensures
            deref_opt(r) == self@.field(key@),
    {
        match self {
            Json::Object(m) => {
                let ghost e = match self@ {
                    JsonV::Object(e) => e,
                    _ => Seq::empty(),
                };
                assert(e.len() == m@.len());
                assert forall|j: int| 0 <= j < m@.len() implies #[trigger] e[j] == (
                m@[j].0@,
                m@[j].1@,
                ) by {}
                let mut i: usize = 0;
                assert(e.skip(0) =~= e);
                while i < m.len()
                    invariant
                        self@ == JsonV::Object(e),
                        e.len() == m@.len(),
                        forall|j: int| 0 <= j < m@.len() ==> #[trigger] e[j] == (m@[j].0@, m@[j].1@),
                        0 <= i <= m@.len(),
                        lookup(e, key@) == lookup(e.skip(i as int), key@),
                    decreases m@.len() - i,
                {
                    assert(e.skip(i as int).drop_first() =~= e.skip(i + 1));
                    assert(e.skip(i as int)[0] == e[i as int]);
                    if str_eq(m[i].0.as_str(), key) {
                        return Some(&m[i].1);
                    }
                    i = i + 1;
                }
                None
            },
            _ => None,
        }
    }

    /// One JSON pointer step (`token` names an object member or an array
    /// index).
    pub fn at(&self, token: &str) -> (r: Option<&Json>)
        ensures
            deref_opt(r) == self@.step(token@),
    {
        match self {
            Json::Object(_) => self.get(token),
            Json::Array(v) => match parse_array_index(token) {
                Some(i) => if i < v.len() {
                    Some(&v[i])
                } else {
                    None
                },
                None => None,
            },
            _ => None,
        }
    }

    /// The text of a string value (`Value::as_str`).
    pub fn as_str(&self) -> (r: Option<&str>)
        ensures
            opt_str_view(r) == self@.text(),
    {
        match self {
            Json::Str(s) => Some(s.as_str()),
            _ => None,
        }
    }

    /// The elements of an array value (`Value::as_array`).
    pub fn as_array(&self) -> (r: Option<&Vec<Json>>)
        ensures
            match r {
                Some(v) => self@.items() == Some(views_of(v@)),
                None => self@.items() is None,
            },
    {
        match self {
            Json::Array(v) => Some(v),
            _ => None,
        }
    }

    /// A non-negative integer value (`Value::as_u64`).
    pub fn as_u64(&self) -> (r: Option<u64>)
        ensures
            r == self@.unsigned(),
    {
        match self {
            Json::Number(JsonNumber::PosInt(n)) => Some(*n),
            _ => None,
        }
    }

    /// A copy of this value.
    pub fn copy(&self) -> (r: Json)
        ensures
            r@ == self@,
        decreases self,
    {
        match self {
            Json::Null => Json::Null,
            Json::Bool(b) => Json::Bool(*b),
            Json::Number(JsonNumber::PosInt(n)) => Json::Number(JsonNumber::PosInt(*n)),
            Json::Number(JsonNumber::NegInt(n)) => Json::Number(JsonNumber::NegInt(*n)),
            Json::Number(JsonNumber::Float(s)) => Json::Number(JsonNumber::Float(s.clone())),
            Json::Str(s) => Json::Str(s.clone()),
            Json::Array(v) => {
                let mut out: Vec<Json> = Vec::new();
                let mut i: usize = 0;
                while i < v.len()
                    invariant
                        *self == Json::Array(*v),
                        0 <= i <= v@.len(),
                        out@.len() == i,
                        forall|j: int| 0 <= j < i ==> #[trigger] out@[j]@ == v@[j]@,
                    decreases v@.len() - i,
                {
                    assert(decreases_to!(*self => self->Array_0));
                    assert(decreases_to!(self->Array_0 => self->Array_0@));
                    assert(decreases_to!(self->Array_0@ => self->Array_0@[i as int]));
                    let e = v[i].copy();
                    out.push(e);
                    i = i + 1;
                }
                let r = Json::Array(out);
                proof {
                    let a = match r@ { JsonV::Array(a) => a, _ => Seq::empty() };
                    let b = match self@ { JsonV::Array(b) => b, _ => Seq::empty() };
                    assert(a.len() == b.len());
                    assert forall|j: int| 0 <= j < a.len() implies a[j] == b[j] by {
                        assert(out@[j]@ == v@[j]@);
                    }
                    assert(a =~= b);
                }
                r
            },
            Json::Object(m) => {
                let mut out: Vec<(String, Json)> = Vec::new();
                let mut i: usize = 0;
                while i < m.len()
                    invariant
                        *self == Json::Object(*m),
                        0 <= i <= m@.len(),
                        out@.len() == i,
                        forall|j: int| 0 <= j < i ==> #[trigger] out@[j].0@ == m@[j].0@ && out@[j].1@ == m@[j].1@,
                    decreases m@.len() - i,
                {
                    assert(decreases_to!(*self => self->Object_0));
                    assert(decreases_to!(self->Object_0 => self->Object_0@));
                    assert(decreases_to!(self->Object_0@ => self->Object_0@[i as int]));
                    assert(decreases_to!(self->Object_0@[i as int] => self->Object_0@[i as int].1));
                    let k = m[i].0.clone();
                    let e = m[i].1.copy();
                    out.push((k, e));
                    i = i + 1;
                }
                let r = Json::Object(out);
                proof {
                    let a = match r@ { JsonV::Object(a) => a, _ => Seq::empty() };
                    let b = match self@ { JsonV::Object(b) => b, _ => Seq::empty() };
                    assert(a.len() == b.len());
                    assert forall|j: int| 0 <= j < a.len() implies a[j] == b[j] by {
                        assert(out@[j].0@ == m@[j].0@);
                    }
                    assert(a =~= b);
                }
                r
            },
        }
    }
}

/// `get` on an optional value.
pub fn get_in<'a>(v: Option<&'a Json>, key: &str) -> (r: Option<&'a Json>)
    ensures
        deref_opt(r) == opt_field(deref_opt(v), key@),
{
    match v {
        Some(j) => j.get(key),
        None => None,
    }
}

/// `at` on an optional value.
pub fn at_in<'a>(v: Option<&'a Json>, token: &str) -> (r: Option<&'a Json>)
    ensures
        deref_opt(r) == opt_step(deref_opt(v), token@),
{
    match v {
        Some(j) => j.at(token),
        None => None,
    }
}

/// `as_str` on an optional value.
pub fn str_in<'a>(v: Option<&'a Json>) -> (r: Option<&'a str>)
    ensures
        opt_str_view(r) == opt_text(deref_opt(v)),
{
    match v {
        Some(j) => j.as_str(),
        None => None,
    }
}

/// The first present of two optional values (`Option::or`).
pub fn first_of<'a>(a: Option<&'a Json>, b: Option<&'a Json>) -> (r: Option<&'a Json>)
    ensures
        deref_opt(r) == or_else(deref_opt(a), deref_opt(b)),
{
    match a {
        Some(x) => Some(x),
        None => b,
    }
}

/// An owned copy of an optional text, or `default` (`.unwrap_or(default)`).
pub fn text_or(v: Option<&str>, default: &str) -> (out: String)
    ensures
        out@ == match opt_str_view(v) {
            Some(t) => t,
            None => default@,
        },
{
    match v {
        Some(s) => owned(s),
        None => owned(default),
    }
}

// ---------------------------------------------------------------------
// Building values
// ---------------------------------------------------------------------

/// The (key, value) views of object members.
pub open spec fn members_view(v: Seq<(String, Json)>) -> Seq<(Seq<char>, JsonV)> {
    Seq::new(v.len(), |i: int| (v[i].0@, v[i].1@))
}

/// The object with the given members, in order.
pub fn object_of(members: Vec<(String, Json)>) -> (j: Json)
    ensures
        j@ == JsonV::Object(members_view(members@)),
{
    let ghost m = members@;
    let j = Json::Object(members);
    proof {
        let a = match j@ {
            JsonV::Object(a) => a,
            _ => Seq::empty(),
        };
        assert(a =~= members_view(m));
    }
    j
}

/// The array with the given items, in order.
pub fn array_of(items: Vec<Json>) -> (j: Json)
    ensures
        j@ == JsonV::Array(views_of(items@)),
{
    let ghost v = items@;
    let j = Json::Array(items);
    proof {
        let a = match j@ {
            JsonV::Array(a) => a,
            _ => Seq::empty(),
        };
        assert(a =~= views_of(v));
    }
    j
}

/// The string value `s`.
pub fn string_of(s: &str) -> (j: Json)
    ensures
        j@ == JsonV::Str(s@),
{
    Json::Str(owned(s))
}

// ---------------------------------------------------------------------
// JSON text
// ---------------------------------------------------------------------

/// A value parsed by `serde_json`, carried through unchanged.
#[verifier::external_type_specification]
#[verifier::external_body]
pub struct ExJsonValue(serde_json::Value);

/// What `serde_json::from_str::<serde_json::Value>` gives for a text: the
/// value, or the parser's error message.
pub uninterp spec fn json_text_value(text: Seq<char>) -> Result<JsonV, Seq<char>>;

/// What `serde_json::to_string` gives for a value: its compact JSON text,
/// or the error message.
pub uninterp spec fn json_written(v: JsonV) -> Result<Seq<char>, Seq<char>>;

/// The library form of a `serde_json` value: each variant becomes the same
/// variant; a number becomes a non-negative integer, a negative integer or
/// the text of a floating-point number, as `serde_json` holds it.
///
/// Trusted: a conversion, one arm per variant, used by `parse_json`.
#[verifier::external_body]
fn json_of_value(v: &Value) -> Json {
    match v {
        Value::Null => Json::Null,
        Value::Bool(b) => Json::Bool(*b),
        Value::Number(n) => Json::Number(match (n.as_u64(), n.as_i64()) {
            (Some(u), _) => JsonNumber::PosInt(u),
            (None, Some(i)) => JsonNumber::NegInt(i),
            _ => JsonNumber::Float(n.to_string()),
        }),
        Value::String(t) => Json::Str(t.clone()),
        Value::Array(a) => Json::Array(a.iter().map(json_of_value).collect()),
        Value::Object(m) => Json::Object(
            m.iter().map(|(k, x)| (k.clone(), json_of_value(x))).collect(),
        ),
    }
}

/// The `serde_json` form of a library value: each variant becomes the same
/// variant; a floating-point number is read back from its text (`null`
/// where `serde_json` refuses the text).
///
/// Trusted: a conversion, one arm per variant, used by `write_json`.
#[verifier::external_body]
fn value_of_json(j: &Json) -> Value {
    match j {
        Json::Null => Value::Null,
        Json::Bool(b) => Value::Bool(*b),
        Json::Number(JsonNumber::PosInt(u)) => Value::from(*u),
        Json::Number(JsonNumber::NegInt(i)) => Value::from(*i),
        Json::Number(JsonNumber::Float(t)) => t.parse::<Number>().map_or(Value::Null, Value::Number),
        Json::Str(t) => Value::String(t.clone()),
        Json::Array(a) => Value::Array(a.iter().map(value_of_json).collect()),
        Json::Object(m) => Value::Object(
            m.iter().map(|(k, x)| (k.clone(), value_of_json(x))).collect(),
        ),
    }
}

/// Parses a text as JSON.
///
/// Trusted: calls `serde_json::from_str::<serde_json::Value>` and converts
/// the value (`json_of_value`) or the error's message; its result is a
/// function of the text alone, named `json_text_value`.
#[verifier::external_body]
pub(crate) fn parse_json(text: &str) -> (r: Result<Json, String>)
    ensures
        match r {
            Ok(j) => Ok(j@),
            Err(e) => Err(e@),
        } == json_text_value(text@),
{
    match serde_json::from_str::<serde_json::Value>(text) {
        Ok(v) => Ok(json_of_value(&v)),
        Err(e) => Err(e.to_string()),
    }
}

/// Writes a value as compact JSON text.
///
/// Trusted: converts the value (`value_of_json`) and calls
/// `serde_json::to_string`; its result is a function of the value alone,
/// named `json_written`.
#[verifier::external_body]
pub(crate) fn write_json(j: &Json) -> (r: Result<String, String>)
    ensures
        match r {
            Ok(t) => Ok(t@),
            Err(e) => Err(e@),
        } == json_written(j@),
{
    match serde_json::to_string(&value_of_json(j)) {
        Ok(t) => Ok(t),
        Err(e) => Err(e.to_string()),
    }
}

} // verus!
