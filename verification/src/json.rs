//! JSON documents, read by `serde_json` and handed to the library as plain values.
use vstd::prelude::*;
use crate::text::{all_digits, chars_of, digits_value, is_digit, parse_u64, str_eq, unsigned_body};

verus! {

/// The outside JSON value type; only carried through the parsing wrapper.
#[verifier::external_type_specification]
#[verifier::external_body]
pub struct ExJsonValue(serde_json::Value);

/// A JSON value.
#[derive(Debug)]
pub enum JsonValue {
    Null,
    Bool(bool),
    /// A number, written as `serde_json` writes it (digits for integers).
    Number(String),
    Str(String),
    /// The items, and the compact text of the whole array.
    Array(Vec<JsonValue>, String),
    /// The members (keys are unique), and the compact text of the whole object.
    Object(Vec<(String, JsonValue)>, String),
}

/// What `serde_json::from_str::<serde_json::Value>` makes of a text: `None` when the
/// text is not one JSON value (or nests deeper than its recursion limit).
pub uninterp spec fn spec_parse_json(text: Seq<char>) -> Option<JsonValue>;

/// Converts `serde_json`'s value into the library's, variant by variant.
#[verifier::external_body]
fn json_from_value(v: serde_json::Value) -> JsonValue {
    let text = v.to_string();
    match v {
        serde_json::Value::Null => JsonValue::Null,
        serde_json::Value::Bool(b) => JsonValue::Bool(b),
        serde_json::Value::Number(n) => JsonValue::Number(n.to_string()),
        serde_json::Value::String(s) => JsonValue::Str(s),
        serde_json::Value::Array(a) => JsonValue::Array(a.into_iter().map(json_from_value).collect(), text),
        serde_json::Value::Object(o) => JsonValue::Object(
            o.into_iter().map(|(k, x)| (k, json_from_value(x))).collect(),
            text,
        ),
    }
}

/// Parses a JSON text with `serde_json::from_str::<serde_json::Value>`; the result
/// is the value it denotes, `None` on any parse error.
#[verifier::external_body]
pub(crate) fn parse_json(text: &str) -> (r: Option<JsonValue>)
    ensures
        r == spec_parse_json(text@),
{
    match serde_json::from_str::<serde_json::Value>(text) {
        Ok(v) => Some(json_from_value(v)),
        Err(_) => None,
    }
}

/// The value of the first member named `key`.
pub open spec fn member(members: Seq<(String, JsonValue)>, key: Seq<char>) -> Option<JsonValue>
    decreases members.len(),
{
    if members.len() == 0 {
        None
    } else if members[0].0@ == key {
        Some(members[0].1)
    } else {
        member(members.drop_first(), key)
    }
}

/// Looks up a member of an object by key.
pub fn get_member<'a>(members: &'a Vec<(String, JsonValue)>, key: &str) -> (r: Option<&'a JsonValue>)
    ensures
        match r {
            Some(v) => member(members@, key@) == Some(*v),
            None => member(members@, key@) is None,
        },
{
    let mut i: usize = 0;
    assert(members@.skip(0) =~= members@);
    while i < members.len()
        invariant
            i <= members.len(),
            member(members@, key@) == member(members@.skip(i as int), key@),
        decreases members.len() - i,
    {
        assert(members@.skip(i as int).drop_first() =~= members@.skip(i + 1));
        if str_eq(members[i].0.as_str(), key) {
            return Some(&members[i].1);
        }
        i = i + 1;
    }
    None
}

/// The `u32` a JSON number denotes, when it is a plain unsigned integer that fits.
pub open spec fn number_u32(text: Seq<char>) -> Option<u32> {
    if text.len() > 0 && all_digits(text) && digits_value(text) <= u32::MAX {
        Some(digits_value(text) as u32)
    } else {
        None
    }
}

/// Reads a JSON number as a `u32`.
pub fn number_to_u32(text: &str) -> (r: Option<u32>)
    ensures
        r == number_u32(text@),
{
    let cs = chars_of(text);
    if cs.len() == 0 {
        return None;
    }
    let mut acc: u64 = 0;
    let mut i: usize = 0;
    while i < cs.len()
        invariant
            i <= cs.len(),
            cs@ == text@,
            all_digits(cs@.take(i as int)),
            acc as nat == digits_value(cs@.take(i as int)),
            acc <= u32::MAX,
        decreases cs.len() - i,
    {
        let c = cs[i];
        assert(cs@.take(i + 1).drop_last() =~= cs@.take(i as int));
        if !('0' <= c && c <= '9') {
            assert(!all_digits(cs@));
            return None;
        }
        let d = (c as u32 - '0' as u32) as u64;
        acc = acc * 10 + d;
        if acc > 4294967295 {
            proof {
                lemma_digits_prefix_le(cs@, i + 1);
            }
            return None;
        }
        i = i + 1;
    }
    assert(cs@.take(cs.len() as int) =~= cs@);
    Some(acc as u32)
}

proof fn lemma_digits_prefix_le(s: Seq<char>, k: int)
    requires
        0 <= k <= s.len(),
        all_digits(s.take(k)),
    ensures
        all_digits(s) ==> digits_value(s.take(k)) <= digits_value(s),
    decreases s.len() - k,
{
    if k < s.len() && all_digits(s) {
        assert(s.take(k + 1).drop_last() =~= s.take(k));
        assert(all_digits(s.take(k + 1)));
        lemma_digits_prefix_le(s, k + 1);
    } else if k == s.len() {
        assert(s.take(k) =~= s);
    }
}

/// What `serde_json::from_str::<Vec<serde_json::Value>>` makes of a text: the
/// items of a JSON array, or the text of the error it reports.
pub uninterp spec fn spec_parse_json_list(text: Seq<char>) -> Result<Seq<JsonValue>, Seq<char>>;

/// Parses a JSON array with `serde_json::from_str::<Vec<serde_json::Value>>`; on
/// failure the error is the crate's message.
#[verifier::external_body]
pub(crate) fn parse_json_list(text: &str) -> (r: Result<Vec<JsonValue>, String>)
    ensures
        match r {
            Ok(v) => spec_parse_json_list(text@) == Ok::<Seq<JsonValue>, Seq<char>>(v@),
            Err(e) => spec_parse_json_list(text@) == Err::<Seq<JsonValue>, Seq<char>>(e@),
        },
{
    match serde_json::from_str::<Vec<serde_json::Value>>(text) {
        Ok(v) => Ok(v.into_iter().map(json_from_value).collect()),
        Err(e) => Err(e.to_string()),
    }
}

/// The `u64` a JSON number denotes, when it is a non-negative integer that fits
/// (`serde_json::Value::as_u64`); the crate writes such numbers as plain digits.
pub open spec fn number_u64(text: Seq<char>) -> Option<u64> {
    if text.len() > 0 && all_digits(text) && digits_value(text) <= u64::MAX {
        Some(digits_value(text) as u64)
    } else {
        None
    }
}

/// Reads a JSON number as a `u64`.
pub fn number_to_u64(text: &str) -> (r: Option<u64>)
    ensures
        r == number_u64(text@),
{
    let cs = chars_of(text);
    if cs.len() == 0 {
        return None;
    }
    let mut i: usize = 0;
    while i < cs.len()
        invariant
            i <= cs.len(),
            cs@ == text@,
            forall|k: int| 0 <= k < i ==> is_digit(#[trigger] cs@[k]),
        decreases cs.len() - i,
    {
        if !('0' <= cs[i] && cs[i] <= '9') {
            assert(!all_digits(text@));
            return None;
        }
        i = i + 1;
    }
    assert(all_digits(text@));
    let r = parse_u64(cs.as_slice());
    assert(unsigned_body(cs@) == cs@) by {
        assert(is_digit(cs@[0]));
    };
    r
}

/// The compact text of a JSON value as a configuration value: empty for null,
/// `true`/`false`, a number as written, a string's contents, and arrays and
/// objects as compact JSON.
pub open spec fn json_text(v: JsonValue) -> Seq<char> {
    match v {
        JsonValue::Null => Seq::empty(),
        JsonValue::Bool(b) => if b {
            "true"@
        } else {
            "false"@
        },
        JsonValue::Number(t) => t@,
        JsonValue::Str(s) => s@,
        JsonValue::Array(_, t) => t@,
        JsonValue::Object(_, t) => t@,
    }
}

/// Renders a JSON value as a configuration value.
pub fn json_to_text(v: &JsonValue) -> (r: String)
    ensures
        r@ == json_text(*v),
{
    match v {
        JsonValue::Null => String::new(),
        JsonValue::Bool(b) => if *b {
            "true".to_string()
        } else {
            "false".to_string()
        },
        JsonValue::Number(t) => t.clone(),
        JsonValue::Str(s) => s.clone(),
        JsonValue::Array(_, t) => t.clone(),
        JsonValue::Object(_, t) => t.clone(),
    }
}

} // verus!
