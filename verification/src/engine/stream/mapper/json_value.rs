//! JSON documents as the JSON source mapper reads them: parsing (by
//! `serde_json`), field and element lookup, JSONPath extraction and the
//! conversion of JSON values into attribute values.

use vstd::prelude::*;
use crate::engine::event::{AttributeValue, AttrView};
use crate::engine::exception::EventFluxError;
use crate::number::{int_text, parse_unsigned_spec, parse_usize, usize_to_string};
use crate::text::{
    chars_of, concat, owned, string_from_chars, sub_chars, find_char, split_vec, split_spec,
    has_prefix, starts_with, first_index_of, lemma_first_index_of, seq_eq,
};

verus! {

#[verifier::external_type_specification]
#[verifier::external_body]
pub struct ExJsonDocument(serde_json::Value);

/// A JSON number as `serde_json` holds it.
pub struct JsonNumber {
    /// The number's JSON text.
    pub text: String,
    /// The number as an `i64`, when it is an integer that fits.
    pub as_i64: Option<i64>,
    /// The IEEE-754 bits of the number as a double, when it has one.
    pub double_bits: Option<u64>,
}

/// A JSON document.
pub enum JsonValue {
    Null,
    Bool(bool),
    Number(JsonNumber),
    String(String),
    /// The elements, and the compact JSON text of the whole array.
    Array(Vec<JsonValue>, String),
    /// The members in the order of `serde_json`'s map, and the compact JSON
    /// text of the whole object.
    Object(Vec<(String, JsonValue)>, String),
}

/// What `serde_json::from_slice` makes of `input`: the document, or the
/// parser's error message.
pub uninterp spec fn json_parse(input: Seq<u8>) -> Result<JsonValue, Seq<char>>;

/// The millisecond UTC timestamp that `chrono` reads from `text` with
/// `format`, if it reads one.
pub uninterp spec fn datetime_millis(text: Seq<char>, format: Seq<char>) -> Option<i64>;

/// Copies a `serde_json::Value` into a `JsonValue`, node for node.
#[verifier::external_body]
fn json_from_serde(v: &serde_json::Value) -> (r: JsonValue) {
    match v {
        serde_json::Value::Null => JsonValue::Null,
        serde_json::Value::Bool(b) => JsonValue::Bool(*b),
        serde_json::Value::Number(n) => JsonValue::Number(
            JsonNumber { text: n.to_string(), as_i64: n.as_i64(), double_bits: n.as_f64().map(|d| d.to_bits()) },
        ),
        serde_json::Value::String(s) => JsonValue::String(s.clone()),
        serde_json::Value::Array(a) => JsonValue::Array(a.iter().map(json_from_serde).collect(), v.to_string()),
        serde_json::Value::Object(m) => JsonValue::Object(
            m.iter().map(|(k, x)| (k.clone(), json_from_serde(x))).collect(),
            v.to_string(),
        ),
    }
}

/// `serde_json::from_slice` into a `serde_json::Value`; the contract names
/// the document it reads, or the message of its error.
#[verifier::external_body]
pub(crate) fn parse_json(input: &[u8]) -> (r: Result<JsonValue, String>)
    ensures
        r matches Ok(v) ==> (json_parse(input@) matches Ok(w) && w == v),
        r matches Err(e) ==> (json_parse(input@) matches Err(m) && m == e@),
{
    match serde_json::from_slice::<serde_json::Value>(input) {
        Ok(v) => Ok(json_from_serde(&v)),
        Err(e) => Err(e.to_string()),
    }
}

/// `chrono::NaiveDateTime::parse_from_str`, read as milliseconds since the
/// epoch in UTC; the contract names the result.
#[verifier::external_body]
fn parse_datetime_millis(text: &str, format: &str) -> (r: Option<i64>)
    ensures
        r == datetime_millis(text@, format@),
{
    chrono::NaiveDateTime::parse_from_str(text, format).ok().map(|dt| dt.and_utc().timestamp_millis())
}

/// Whether `e` is a mapping failure with message `m`.
pub open spec fn mapping_failure(e: EventFluxError, m: Seq<char>) -> bool {
    e matches EventFluxError::MappingFailed { message } && message@ == m
}

pub(crate) fn mapping_failed(m: String) -> (e: EventFluxError)
    ensures
        mapping_failure(e, m@),
{
    EventFluxError::MappingFailed { message: m }
}

// ---------------------------------------------------------------------------
// Lookup
// ---------------------------------------------------------------------------

/// The first position at or after `i` of a member named `k`.
pub open spec fn member_from(m: Seq<(String, JsonValue)>, k: Seq<char>, i: int) -> Option<int>
    decreases m.len() - i,
{
    if i < 0 || i >= m.len() {
        None
    } else if m[i].0@ == k {
        Some(i)
    } else {
        member_from(m, k, i + 1)
    }
}

/// A member named `k` at or after `i` is found from `j <= i` on.
pub proof fn lemma_member_found(m: Seq<(String, JsonValue)>, k: Seq<char>, j: int, i: int)
    requires
        0 <= j <= i < m.len(),
        m[i].0@ == k,
    ensures
        member_from(m, k, j) is Some,
    decreases i - j,
{
    if m[j].0@ != k {
        lemma_member_found(m, k, j + 1, i);
    }
}

/// The value of member `k` of an object (`Value::get` with a key).
pub open spec fn json_field(v: JsonValue, k: Seq<char>) -> Option<JsonValue> {
    match v {
        JsonValue::Object(m, _) => match member_from(m@, k, 0) {
            Some(i) => Some(m@[i].1),
            None => None,
        },
        _ => None,
    }
}

/// Element `i` of an array (`Value::get` with an index).
pub open spec fn json_index(v: JsonValue, i: int) -> Option<JsonValue> {
    match v {
        JsonValue::Array(a, _) => if 0 <= i < a@.len() {
            Some(a@[i])
        } else {
            None
        },
        _ => None,
    }
}

pub(crate) fn field_of<'a>(v: &'a JsonValue, k: &Vec<char>) -> (r: Option<&'a JsonValue>)
    ensures
        r matches Some(x) ==> json_field(*v, k@) == Some(*x),
        r is None ==> json_field(*v, k@) is None,
{
    match v {
        JsonValue::Object(m, _) => {
            let mut i: usize = 0;
            assert(json_field(*v, k@) == match member_from(m@, k@, 0) {
                Some(j) => Some(m@[j].1),
                None => None,
            });
            while i < m.len()
                invariant
                    i <= m@.len(),
                    member_from(m@, k@, 0) == member_from(m@, k@, i as int),
                    json_field(*v, k@) == match member_from(m@, k@, 0) {
                        Some(j) => Some(m@[j].1),
                        None => None,
                    },
                decreases m@.len() - i,
            {
                let name = chars_of(m[i].0.as_str());
                if seq_eq(&name, k) {
                    assert(member_from(m@, k@, i as int) == Some(i as int));
                    return Some(&m[i].1);
                }
                i = i + 1;
            }
            assert(member_from(m@, k@, i as int) is None);
            None
        },
        _ => None,
    }
}

fn element_of<'a>(v: &'a JsonValue, i: usize) -> (r: Option<&'a JsonValue>)
    ensures
        r matches Some(x) ==> json_index(*v, i as int) == Some(*x),
        r is None ==> json_index(*v, i as int) is None,
{
    match v {
        JsonValue::Array(a, _) => {
            if i < a.len() {
                Some(&a[i])
            } else {
                None
            }
        },
        _ => None,
    }
}

// ---------------------------------------------------------------------------
// JSONPath: `$.field`, `$.a.b`, `$.list[0]`, `$.a.list[0].b`
// ---------------------------------------------------------------------------

pub open spec fn invalid_path_message(path: Seq<char>) -> Seq<char> {
    "Invalid JSONPath '"@ + path + "'. Must start with '$.'"@
}

pub open spec fn depth_message(depth: int, max: int) -> Seq<char> {
    "JSONPath nesting depth "@ + int_text(depth) + " exceeds maximum allowed "@ + int_text(max)
}

pub open spec fn invalid_index_message(part: Seq<char>) -> Seq<char> {
    "Invalid array index in path: "@ + part
}

pub open spec fn missing_field_message(field: Seq<char>) -> Seq<char> {
    "Field '"@ + field + "' not found in JSON"@
}

pub open spec fn missing_index_message(i: int) -> Seq<char> {
    "Array index "@ + int_text(i) + " out of bounds"@
}

/// A part `name[index]` whose index text cannot be cut out: `[` is its last
/// character, or its last character is not ASCII.
pub open spec fn index_uncuttable(p: Seq<char>) -> bool {
    let b = first_index_of(p, '[');
    b == p.len() - 1 || (p.last() as u32) >= 128
}

/// One step of a path: `name` selects a member; `name[index]` a member and
/// then an element of it (the character before the end closes the index).
pub open spec fn path_step(v: JsonValue, p: Seq<char>) -> Result<JsonValue, Seq<char>> {
    if p.contains('[') {
        let b = first_index_of(p, '[');
        let field = p.subrange(0, b);
        if index_uncuttable(p) {
            Err(invalid_index_message(p))
        } else {
            match parse_unsigned_spec(p.subrange(b + 1, p.len() - 1), usize::MAX as int) {
                None => Err(invalid_index_message(p)),
                Some(i) => match json_field(v, field) {
                    None => Err(missing_field_message(field)),
                    Some(w) => match json_index(w, i) {
                        None => Err(missing_index_message(i)),
                        Some(x) => Ok(x),
                    },
                },
            }
        }
    } else {
        match json_field(v, p) {
            None => Err(missing_field_message(p)),
            Some(w) => Ok(w),
        }
    }
}

/// Following the parts of a path from `v`, stopping at the first failure.
pub open spec fn follow_path(v: JsonValue, parts: Seq<Seq<char>>) -> Result<JsonValue, Seq<char>>
    decreases parts.len(),
{
    if parts.len() == 0 {
        Ok(v)
    } else {
        match path_step(v, parts[0]) {
            Ok(w) => follow_path(w, parts.drop_first()),
            Err(m) => Err(m),
        }
    }
}

/// The value a JSONPath selects from `json`, or why it selects none.
pub open spec fn json_path_lookup(json: JsonValue, path: Seq<char>, max_depth: int) -> Result<JsonValue, Seq<char>> {
    if !has_prefix(path, "$."@) {
        Err(invalid_path_message(path))
    } else {
        let parts = split_spec(path.skip(2), '.');
        if parts.len() > max_depth {
            Err(depth_message(parts.len() as int, max_depth))
        } else {
            follow_path(json, parts)
        }
    }
}

fn step<'a>(v: &'a JsonValue, p: &Vec<char>) -> (r: Result<&'a JsonValue, String>)
    ensures
        r matches Ok(x) ==> (path_step(*v, p@) matches Ok(w) && w == *x),
        r matches Err(m) ==> (path_step(*v, p@) matches Err(t) && t == m@),
{
    match find_char(p, '[', 0) {
        Some(b) => {
            proof {
                lemma_first_index_of(p@, '[', b as int);
                assert(p@.contains('['));
            }
            let n = p.len();
            if b == n - 1 || (p[n - 1] as u32) >= 128 {
                let text = string_from_chars(p.as_slice());
                return Err(concat("Invalid array index in path: ", text.as_str()));
            }
            let field = sub_chars(p, 0, b);
            let index_chars = sub_chars(p, b + 1, n - 1);
            let index_text = string_from_chars(index_chars.as_slice());
            match parse_usize(index_text.as_str()) {
                None => {
                    let text = string_from_chars(p.as_slice());
                    Err(concat("Invalid array index in path: ", text.as_str()))
                },
                Some(i) => match field_of(v, &field) {
                    None => {
                        let name = string_from_chars(field.as_slice());
                        let m = concat("Field '", name.as_str());
                        Err(concat(m.as_str(), "' not found in JSON"))
                    },
                    Some(w) => match element_of(w, i) {
                        None => {
                            let t = usize_to_string(i);
                            let m = concat("Array index ", t.as_str());
                            Err(concat(m.as_str(), " out of bounds"))
                        },
                        Some(x) => Ok(x),
                    },
                },
            }
        },
        None => {
            match field_of(v, p) {
                None => {
                    let name = string_from_chars(p.as_slice());
                    let m = concat("Field '", name.as_str());
                    Err(concat(m.as_str(), "' not found in JSON"))
                },
                Some(w) => Ok(w),
            }
        },
    }
}

/// Extracts the value a JSONPath selects (`$.field`, `$.nested.field`,
/// `$.array[0]`, `$.nested.array[0].field`), refusing paths deeper than
/// `max_depth` parts.
pub fn extract_json_path<'a>(json: &'a JsonValue, path: &str, max_depth: usize) -> (r: Result<&'a JsonValue, EventFluxError>)
    ensures
        r is Ok <==> json_path_lookup(*json, path@, max_depth as int) is Ok,
        r matches Ok(x) ==> (json_path_lookup(*json, path@, max_depth as int) matches Ok(w) && w == *x),
        r matches Err(e) ==> (json_path_lookup(*json, path@, max_depth as int) matches Err(m) && mapping_failure(e, m)),
{
    if !starts_with(path, "$.") {
        let m = concat("Invalid JSONPath '", path);
        return Err(mapping_failed(concat(m.as_str(), "'. Must start with '$.'")));
    }
    proof {
        reveal_strlit("$.");
    }
    let chars = chars_of(path);
    let rest = sub_chars(&chars, 2, chars.len());
    proof {
        assert(rest@ =~= path@.skip(2));
    }
    let parts = split_vec(&rest, '.');
    let ghost views = parts@.map_values(|p: Vec<char>| p@);
    if parts.len() > max_depth {
        let a = usize_to_string(parts.len());
        let b = usize_to_string(max_depth);
        let m = concat("JSONPath nesting depth ", a.as_str());
        let m = concat(m.as_str(), " exceeds maximum allowed ");
        return Err(mapping_failed(concat(m.as_str(), b.as_str())));
    }
    assert(views == split_spec(path@.skip(2), '.'));
    assert(json_path_lookup(*json, path@, max_depth as int) == follow_path(*json, views));
    assert(views.skip(0) =~= views);
    let mut current: &'a JsonValue = json;
    let mut i: usize = 0;
    while i < parts.len()
        invariant
            i <= parts@.len(),
            views == parts@.map_values(|p: Vec<char>| p@),
            json_path_lookup(*json, path@, max_depth as int) == follow_path(*json, views),
            follow_path(*json, views) == follow_path(*current, views.skip(i as int)),
        decreases parts@.len() - i,
    {
        proof {
            let s = views.skip(i as int);
            assert(s[0] == parts@[i as int]@);
            assert(follow_path(*current, s) == match path_step(*current, s[0]) {
                Ok(w) => follow_path(w, s.drop_first()),
                Err(m) => Err(m),
            });
            assert(s.drop_first() =~= views.skip(i + 1));
        }
        match step(current, &parts[i]) {
            Ok(next) => {
                current = next;
            },
            Err(m) => {
                return Err(mapping_failed(m));
            },
        }
        i = i + 1;
    }
    Ok(current)
}

// ---------------------------------------------------------------------------
// JSON values as attribute values
// ---------------------------------------------------------------------------

pub open spec fn unsupported_number_message(text: Seq<char>) -> Seq<char> {
    "Unsupported number format: "@ + text
}

/// The attribute value of a JSON value: strings (read as timestamps when a
/// date format is given and they match it), integers as `Int` when they fit
/// in 32 bits and as `Long` otherwise, other numbers as `Double`, arrays and
/// objects as their JSON text.
pub open spec fn json_attr(v: JsonValue, date_format: Option<Seq<char>>) -> Result<AttrView, Seq<char>> {
    match v {
        JsonValue::String(s) => match date_format {
            Some(f) => match datetime_millis(s@, f) {
                Some(ms) => Ok(AttrView::Long(ms)),
                None => Ok(AttrView::String(s@)),
            },
            None => Ok(AttrView::String(s@)),
        },
        JsonValue::Number(n) => match n.as_i64 {
            Some(i) => if i32::MIN <= i <= i32::MAX {
                Ok(AttrView::Int(i as i32))
            } else {
                Ok(AttrView::Long(i))
            },
            None => match n.double_bits {
                Some(b) => Ok(AttrView::Double(b)),
                None => Err(unsupported_number_message(n.text@)),
            },
        },
        JsonValue::Bool(b) => Ok(AttrView::Bool(b)),
        JsonValue::Null => Ok(AttrView::Null),
        JsonValue::Array(_, text) => Ok(AttrView::String(text@)),
        JsonValue::Object(_, text) => Ok(AttrView::String(text@)),
    }
}

/// The view of an optional text.
pub open spec fn opt_text(o: Option<&str>) -> Option<Seq<char>> {
    match o {
        Some(t) => Some(t@),
        None => None,
    }
}

/// Converts a JSON value to an attribute value (see `json_attr`).
pub fn json_value_to_attribute(value: &JsonValue, date_format: Option<&str>) -> (r: Result<AttributeValue, EventFluxError>)
    ensures
        r is Ok <==> json_attr(*value, opt_text(date_format)) is Ok,
        r matches Ok(a) ==> (json_attr(*value, opt_text(date_format)) matches Ok(w) && w == a@),
        r matches Err(e) ==> (json_attr(*value, opt_text(date_format)) matches Err(m) && mapping_failure(e, m)),
{
    match value {
        JsonValue::String(s) => {
            match date_format {
                Some(f) => match parse_datetime_millis(s.as_str(), f) {
                    Some(ms) => Ok(AttributeValue::Long(ms)),
                    None => Ok(AttributeValue::String(owned(s.as_str()))),
                },
                None => Ok(AttributeValue::String(owned(s.as_str()))),
            }
        },
        JsonValue::Number(n) => match n.as_i64 {
            Some(i) => {
                if i >= i32::MIN as i64 && i <= i32::MAX as i64 {
                    Ok(AttributeValue::Int(i as i32))
                } else {
                    Ok(AttributeValue::Long(i))
                }
            },
            None => match n.double_bits {
                Some(b) => Ok(AttributeValue::Double(b)),
                None => Err(mapping_failed(concat("Unsupported number format: ", n.text.as_str()))),
            },
        },
        JsonValue::Bool(b) => Ok(AttributeValue::Bool(*b)),
        JsonValue::Null => Ok(AttributeValue::Null),
        JsonValue::Array(_, text) => Ok(AttributeValue::String(owned(text.as_str()))),
        JsonValue::Object(_, text) => Ok(AttributeValue::String(owned(text.as_str()))),
    }
}

} // verus!
