//! `std::json`: bounded JSON text, JSON Pointer (RFC 6901) selection of a
//! value, typed reads of the selected value, and JSON string literals.
//! Parsing itself is `serde_json`'s; this module decides what is accepted,
//! walks the pointer and reads the result.

use std::collections::BTreeMap;

use serde_json::value::RawValue;

use vstd::prelude::*;
use vstd::utf8::*;

use crate::numeral::digit_chars_value;
use crate::strbuf::{chars_of, push_char, push_str, str_eq};
use crate::text::{join_spec, split, split_spec, strings_view, trim, trimmed};

verus! {

/// Largest JSON text, in bytes.
pub const MAX_BYTES: usize = 1_048_576;

/// Deepest nesting of arrays and objects.
pub const MAX_DEPTH: usize = 64;

/// Largest number of values in one text.
pub const MAX_NODES: usize = 10_000;

/// Largest string or object key, in bytes.
pub const MAX_STRING_BYTES: usize = 65_536;

/// The running totals of the streaming structural check of one JSON text:
/// how many values it has met, the deepest nesting at which it met one, and
/// the longest string or object key, in bytes.
#[derive(Debug, Clone, Copy, PartialEq, Eq, Structural)]
pub struct JsonLimits {
    pub nodes: usize,
    pub max_depth: usize,
    pub max_string_bytes: usize,
}

/// Why the structural check refuses a JSON text.
#[derive(Debug, Clone, Copy, PartialEq, Eq, Structural)]
pub enum JsonPolicyFault {
    /// Too many values, or nesting too deep.
    StructureTooLarge,
    /// A string or key too long.
    StringTooLarge,
}

impl JsonPolicyFault {
    /// The diagnostic text.
    pub fn message(&self) -> (r: &'static str)
        ensures
            r@ == match *self {
                JsonPolicyFault::StructureTooLarge => "JSON structure is too large"@,
                JsonPolicyFault::StringTooLarge => "JSON string is too large"@,
            },
    {
        match self {
            JsonPolicyFault::StructureTooLarge => "JSON structure is too large",
            JsonPolicyFault::StringTooLarge => "JSON string is too large",
        }
    }
}

impl JsonLimits {
    /// Whether the totals are within the policy: at most `MAX_NODES` values,
    /// nesting at most `MAX_DEPTH`, no string longer than `MAX_STRING_BYTES`.
    pub open spec fn within(self) -> bool {
        &&& self.nodes <= MAX_NODES
        &&& self.max_depth <= MAX_DEPTH
        &&& self.max_string_bytes <= MAX_STRING_BYTES
    }

    /// The totals before any value is met.
    pub fn new() -> (r: Self)
        ensures
            r == (JsonLimits { nodes: 0, max_depth: 0, max_string_bytes: 0 }),
            r.within(),
    {
        JsonLimits { nodes: 0, max_depth: 0, max_string_bytes: 0 }
    }

    /// Counts a value met at nesting `depth`, and refuses once the values
    /// outnumber `MAX_NODES` or the nesting passes `MAX_DEPTH`.
    pub fn record_node(&mut self, depth: usize) -> (r: Result<(), JsonPolicyFault>)
        requires
            old(self).within(),
        ensures
            final(self).nodes == old(self).nodes + 1,
            final(self).max_depth == (if depth > old(self).max_depth {
                depth
            } else {
                old(self).max_depth
            }),
            final(self).max_string_bytes == old(self).max_string_bytes,
            r is Ok <==> final(self).within(),
            r is Err ==> r == Err::<(), JsonPolicyFault>(JsonPolicyFault::StructureTooLarge),
    {
        self.nodes = self.nodes + 1;
        if depth > self.max_depth {
            self.max_depth = depth;
        }
        if self.nodes > MAX_NODES || self.max_depth > MAX_DEPTH {
            return Err(JsonPolicyFault::StructureTooLarge);
        }
        Ok(())
    }

    /// Notes a string or object key, and refuses one longer than
    /// `MAX_STRING_BYTES` bytes.
    pub fn record_string(&mut self, value: &str) -> (r: Result<(), JsonPolicyFault>)
        requires
            old(self).within(),
        ensures
            final(self).nodes == old(self).nodes,
            final(self).max_depth == old(self).max_depth,
            final(self).max_string_bytes == (if encode_utf8(value@).len() > old(
                self,
            ).max_string_bytes {
                encode_utf8(value@).len()
            } else {
                old(self).max_string_bytes as nat
            }),
            r is Ok <==> final(self).within(),
            r is Err ==> r == Err::<(), JsonPolicyFault>(JsonPolicyFault::StringTooLarge),
    {
        let bytes = value.as_bytes().len();
        if bytes > self.max_string_bytes {
            self.max_string_bytes = bytes;
        }
        if self.max_string_bytes > MAX_STRING_BYTES {
            return Err(JsonPolicyFault::StringTooLarge);
        }
        Ok(())
    }
}

/// Why a JSON read has no result.
#[derive(Debug, Clone, Copy, PartialEq, Eq, Structural)]
pub enum JsonError {
    InvalidJson,
    PointerStart,
    PointerEscape,
    PointerLeadingZero,
    NotObject,
    NotArray,
    NoValue,
    NullValue,
    NotString,
    NotNumber,
    NotInt,
    NotBool,
    WrongKind,
}

impl JsonError {
    /// Whether the refusal is an absent read, which a guarded read resolves,
    /// rather than a type error.
    pub fn is_absent(&self) -> (r: bool)
        ensures
            r == (*self == JsonError::NoValue || *self == JsonError::NullValue),
    {
        match self {
            JsonError::NoValue | JsonError::NullValue => true,
            _ => false,
        }
    }

    /// The diagnostic text.
    pub fn message(&self) -> (r: &'static str)
        ensures
            r@ == json_error_text(*self),
    {
        match self {
            JsonError::InvalidJson => "invalid JSON text",
            JsonError::PointerStart => "JSON pointer must be empty or start with `/`",
            JsonError::PointerEscape => "JSON pointer has an invalid escape",
            JsonError::PointerLeadingZero => "JSON pointer array index has a leading zero",
            JsonError::NotObject => "JSON value is not an object",
            JsonError::NotArray => "JSON value is not an array",
            JsonError::NoValue => "JSON pointer selected no value",
            JsonError::NullValue => "JSON pointer selected null",
            JsonError::NotString => "JSON value is not a string",
            JsonError::NotNumber => "JSON value is not a number",
            JsonError::NotInt => "JSON number is not an int",
            JsonError::NotBool => "JSON value is not a bool",
            JsonError::WrongKind => "JSON value has the wrong kind",
        }
    }
}

/// The diagnostic text of each refusal.
pub open spec fn json_error_text(e: JsonError) -> Seq<char> {
    match e {
        JsonError::InvalidJson => "invalid JSON text"@,
        JsonError::PointerStart => "JSON pointer must be empty or start with `/`"@,
        JsonError::PointerEscape => "JSON pointer has an invalid escape"@,
        JsonError::PointerLeadingZero => "JSON pointer array index has a leading zero"@,
        JsonError::NotObject => "JSON value is not an object"@,
        JsonError::NotArray => "JSON value is not an array"@,
        JsonError::NoValue => "JSON pointer selected no value"@,
        JsonError::NullValue => "JSON pointer selected null"@,
        JsonError::NotString => "JSON value is not a string"@,
        JsonError::NotNumber => "JSON value is not a number"@,
        JsonError::NotInt => "JSON number is not an int"@,
        JsonError::NotBool => "JSON value is not a bool"@,
        JsonError::WrongKind => "JSON value has the wrong kind"@,
    }
}

/// The typed reads of a selected value.
#[derive(Debug, Clone, Copy, PartialEq, Eq, Structural)]
pub enum JsonScalarOp {
    String,
    Int,
    Decimal,
    Bool,
    Count,
}

/// The typed read that an operation name selects.
pub open spec fn json_scalar_op_named(name: Seq<char>) -> Option<JsonScalarOp> {
    if name == "string"@ {
        Some(JsonScalarOp::String)
    } else if name == "int"@ {
        Some(JsonScalarOp::Int)
    } else if name == "decimal"@ {
        Some(JsonScalarOp::Decimal)
    } else if name == "bool"@ {
        Some(JsonScalarOp::Bool)
    } else if name == "count"@ {
        Some(JsonScalarOp::Count)
    } else {
        None
    }
}

impl JsonScalarOp {
    /// The typed read named `name`, if any.
    pub fn from_name(name: &str) -> (r: Option<Self>)
        ensures
            r == json_scalar_op_named(name@),
    {
        if str_eq(name, "string") {
            Some(JsonScalarOp::String)
        } else if str_eq(name, "int") {
            Some(JsonScalarOp::Int)
        } else if str_eq(name, "decimal") {
            Some(JsonScalarOp::Decimal)
        } else if str_eq(name, "bool") {
            Some(JsonScalarOp::Bool)
        } else if str_eq(name, "count") {
            Some(JsonScalarOp::Count)
        } else {
            None
        }
    }
}

// ---------------------------------------------------------------------------
// What serde_json reads.
/// The text of the JSON value that `text` holds, if it is one JSON value.
pub uninterp spec fn json_raw(text: Seq<char>) -> Option<Seq<char>>;

/// The members of the JSON object `text`, as key and value text, if it is
/// one.
pub uninterp spec fn json_object_entries(text: Seq<char>) -> Option<Seq<(Seq<char>, Seq<char>)>>;

/// The items of the JSON array `text`, as value text, if it is one.
pub uninterp spec fn json_array_items(text: Seq<char>) -> Option<Seq<Seq<char>>>;

/// The string that the JSON string `text` denotes, if it is one.
pub uninterp spec fn json_string_value(text: Seq<char>) -> Option<Seq<char>>;

/// Whether the JSON number `text` is an `i64`, with its value, if `text` is
/// a JSON number.
pub uninterp spec fn json_number_i64(text: Seq<char>) -> Option<Option<i64>>;

/// The bool that the JSON literal `text` denotes, if it is one.
pub uninterp spec fn json_bool_value(text: Seq<char>) -> Option<bool>;

/// A text option by its chars.
pub open spec fn text_option(o: Option<String>) -> Option<Seq<char>> {
    match o {
        Some(s) => Some(s@),
        None => None,
    }
}

/// `serde_json::from_str::<Box<RawValue>>`: the text of the one JSON value
/// that `text` holds.
#[verifier::external_body]
fn serde_raw_value(text: &str) -> (r: Option<String>)
    ensures
        text_option(r) == json_raw(text@),
{
    match serde_json::from_str::<Box<RawValue>>(text) {
        Ok(raw) => Some(raw.get().to_string()),
        Err(_) => None,
    }
}

/// Object members by the chars of their key and value text.
pub open spec fn entries_view(v: Seq<(String, String)>) -> Seq<(Seq<char>, Seq<char>)> {
    v.map_values(|e: (String, String)| (e.0@, e.1@))
}

/// `serde_json::from_str::<BTreeMap<String, Box<RawValue>>>`: the members of
/// the JSON object `text`, in the map's key order, so no key occurs twice.
#[verifier::external_body]
fn serde_object_entries(text: &str) -> (r: Option<Vec<(String, String)>>)
    ensures
        match r {
            Some(v) => json_object_entries(text@) == Some(entries_view(v@)) && forall|i: int, j: int|
                0 <= i < j < v@.len() ==> v@[i].0@ != v@[j].0@,
            None => json_object_entries(text@) is None,
        },
{
    match serde_json::from_str::<BTreeMap<String, Box<RawValue>>>(text) {
        Ok(map) => {
            let mut out = Vec::new();
            for (key, value) in map {
                out.push((key, value.get().to_string()));
            }
            Some(out)
        },
        Err(_) => None,
    }
}

/// `serde_json::from_str::<Vec<Box<RawValue>>>`: the items of the JSON array
/// `text`, in order.
#[verifier::external_body]
fn serde_array_items(text: &str) -> (r: Option<Vec<String>>)
    ensures
        match r {
            Some(v) => json_array_items(text@) == Some(strings_view(v@)),
            None => json_array_items(text@) is None,
        },
{
    match serde_json::from_str::<Vec<Box<RawValue>>>(text) {
        Ok(items) => {
            let mut out = Vec::new();
            for item in items {
                out.push(item.get().to_string());
            }
            Some(out)
        },
        Err(_) => None,
    }
}

/// `serde_json::from_str::<String>`: the string the JSON string `text`
/// denotes.
#[verifier::external_body]
fn serde_string(text: &str) -> (r: Option<String>)
    ensures
        text_option(r) == json_string_value(text@),
{
    serde_json::from_str::<String>(text).ok()
}

/// `serde_json::from_str::<Number>` and `Number::as_i64`: `None` when `text`
/// is no JSON number, else the number as an `i64` when it is one.
#[verifier::external_body]
fn serde_number_i64(text: &str) -> (r: Option<Option<i64>>)
    ensures
        r == json_number_i64(text@),
{
    match serde_json::from_str::<serde_json::Number>(text) {
        Ok(number) => Some(number.as_i64()),
        Err(_) => None,
    }
}

/// `serde_json::from_str::<bool>`: the bool the JSON literal `text` denotes.
#[verifier::external_body]
fn serde_bool(text: &str) -> (r: Option<bool>)
    ensures
        r == json_bool_value(text@),
{
    serde_json::from_str::<bool>(text).ok()
}

/// The JSON escape of one char: quote and backslash behind a backslash;
/// backspace, form feed, LF, CR and tab as `\b`, `\f`, `\n`, `\r`, `\t`; any
/// other control char below `0x20` as `\u00` and two lowercase hex digits;
/// every other char as itself.
pub open spec fn json_escape(c: char) -> Seq<char> {
    if c == '"' {
        seq!['\\', '"']
    } else if c == '\\' {
        seq!['\\', '\\']
    } else if c == '\u{8}' {
        seq!['\\', 'b']
    } else if c == '\u{c}' {
        seq!['\\', 'f']
    } else if c == '\n' {
        seq!['\\', 'n']
    } else if c == '\r' {
        seq!['\\', 'r']
    } else if c == '\t' {
        seq!['\\', 't']
    } else if (c as u32) < 0x20 {
        seq!['\\', 'u', '0', '0'] + crate::hex::hex_pair(c as u8)
    } else {
        seq![c]
    }
}

/// Every char of `text` escaped, one after another.
pub open spec fn json_escaped(text: Seq<char>) -> Seq<char>
    decreases text.len(),
{
    if text.len() == 0 {
        Seq::empty()
    } else {
        json_escaped(text.drop_last()) + json_escape(text.last())
    }
}

/// The JSON string literal of `text`: its escaped chars in quotes.
pub open spec fn json_quoted(text: Seq<char>) -> Seq<char> {
    seq!['"'] + json_escaped(text) + seq!['"']
}

/// `serde_json::Value::String` rendered with `to_string`: the JSON string
/// literal of `text`.
#[verifier::external_body]
fn string_literal(text: &str) -> (r: String)
    ensures
        r@ == json_quoted(text@),
{
    serde_json::Value::String(text.to_owned()).to_string()
}

/// A JSON array of the string literals of `items`.
pub open spec fn string_array_text(items: Seq<Seq<char>>) -> Seq<char> {
    seq!['['] + join_spec(items.map_values(|s: Seq<char>| json_quoted(s)), ","@) + seq![']']
}

/// A JSON array of the string literals of `items`.
pub fn string_array(items: &[String]) -> (r: String)
    ensures
        r@ == string_array_text(strings_view(items@)),
{
    let mut literals: Vec<String> = Vec::new();
    let mut i: usize = 0;
    while i < items.len()
        invariant
            i <= items@.len(),
            strings_view(literals@) == strings_view(items@.take(i as int)).map_values(
                |s: Seq<char>| json_quoted(s),
            ),
        decreases items@.len() - i,
    {
        let lit = string_literal(items[i].as_str());
        proof {
            assert(strings_view(literals@.push(lit)) =~= strings_view(literals@).push(lit@));
            assert(strings_view(items@.take(i + 1)).map_values(|s: Seq<char>| json_quoted(s))
                =~= strings_view(items@.take(i as int)).map_values(|s: Seq<char>| json_quoted(s)).push(
                json_quoted(items@[i as int]@),
            ));
        }
        literals.push(lit);
        i = i + 1;
    }
    assert(items@.take(i as int) =~= items@);
    let joined = crate::text::join(literals.as_slice(), ",");
    let mut out = String::new();
    push_char(&mut out, '[');
    push_str(&mut out, joined.as_str());
    push_char(&mut out, ']');
    out
}

// ---------------------------------------------------------------------------
// Accepting a text.
/// Whether `text` has a `-0` integer outside its strings: a minus sign, then
/// a zero that no digit, fraction or exponent follows.
pub open spec fn negative_zero_from(bytes: Seq<u8>, i: int, in_string: bool, escaped: bool) -> bool
    decreases bytes.len() - i,
{
    if i < 0 || i >= bytes.len() {
        false
    } else {
        let b = bytes[i];
        if in_string {
            if escaped {
                negative_zero_from(bytes, i + 1, true, false)
            } else if b == 92 {
                negative_zero_from(bytes, i + 1, true, true)
            } else if b == 34 {
                negative_zero_from(bytes, i + 1, false, false)
            } else {
                negative_zero_from(bytes, i + 1, true, false)
            }
        } else if b == 34 {
            negative_zero_from(bytes, i + 1, true, false)
        } else if b == 45 && i + 1 < bytes.len() && bytes[i + 1] == 48 && !(i + 2 < bytes.len() && (
        bytes[i + 2] == 46 || bytes[i + 2] == 101 || bytes[i + 2] == 69 || (48 <= bytes[i + 2]
            <= 57))) {
            true
        } else {
            negative_zero_from(bytes, i + 1, false, false)
        }
    }
}

/// Refuses a text with a `-0` integer outside its strings.
pub fn reject_negative_zero_integer(text: &str) -> (r: Result<(), ()>)
    ensures
        r is Err <==> negative_zero_from(encode_utf8(text@), 0, false, false),
{
    let bytes = text.as_bytes();
    let mut in_string = false;
    let mut escaped = false;
    let mut index: usize = 0;
    while index < bytes.len()
        invariant
            bytes@ == encode_utf8(text@),
            index <= bytes@.len(),
            !in_string ==> !escaped,
            negative_zero_from(bytes@, index as int, in_string, escaped) == negative_zero_from(
                bytes@,
                0,
                false,
                false,
            ),
        decreases bytes@.len() - index,
    {
        let byte = bytes[index];
        if in_string {
            if escaped {
                escaped = false;
            } else if byte == 92 {
                escaped = true;
            } else if byte == 34 {
                in_string = false;
            }
            index = index + 1;
            continue;
        }
        if byte == 34 {
            in_string = true;
        } else if byte == 45 && index + 1 < bytes.len() && bytes[index + 1] == 48 {
            let follows = index + 2 < bytes.len() && {
                let n = bytes[index + 2];
                n == 46 || n == 101 || n == 69 || (48 <= n && n <= 57)
            };
            if !follows {
                return Err(());
            }
        }
        index = index + 1;
    }
    Ok(())
}

/// The text of the one JSON value `text` holds, if it is accepted: at most
/// `MAX_BYTES` bytes, no `-0` integer, within the structural policy, and one
/// JSON value.
pub open spec fn accepted_json(text: Seq<char>, within_policy: bool) -> Option<Seq<char>> {
    if encode_utf8(text).len() > MAX_BYTES || negative_zero_from(encode_utf8(text), 0, false, false)
        || !within_policy {
        None
    } else {
        json_raw(text)
    }
}

/// The text of the one JSON value `text` holds, if it is accepted.
/// `within_policy` is the verdict of the streaming structural check, which
/// bounds the values to `MAX_NODES`, the nesting to `MAX_DEPTH`, strings and
/// keys to `MAX_STRING_BYTES` bytes, and refuses a key repeated in an object.
pub fn parse_json(text: &str, within_policy: bool) -> (r: Option<String>)
    ensures
        text_option(r) == accepted_json(text@, within_policy),
{
    if text.as_bytes().len() > MAX_BYTES {
        return None;
    }
    if reject_negative_zero_integer(text).is_err() {
        return None;
    }
    if !within_policy {
        return None;
    }
    serde_raw_value(text)
}

/// Whether `text` is accepted JSON.
pub fn valid(text: &str, within_policy: bool) -> (r: bool)
    ensures
        r == accepted_json(text@, within_policy) is Some,
{
    parse_json(text, within_policy).is_some()
}

// ---------------------------------------------------------------------------
// JSON Pointer.
/// The reference token that a pointer segment spells: `~0` is `~`, `~1` is
/// `/`, any other `~` is refused.
pub open spec fn pointer_token(raw: Seq<char>) -> Option<Seq<char>>
    decreases raw.len(),
{
    if raw.len() == 0 {
        Some(Seq::empty())
    } else if raw[0] != '~' {
        match pointer_token(raw.skip(1)) {
            Some(t) => Some(seq![raw[0]] + t),
            None => None,
        }
    } else if raw.len() >= 2 && (raw[1] == '0' || raw[1] == '1') {
        match pointer_token(raw.skip(2)) {
            Some(t) => Some(seq![if raw[1] == '0' {
                '~'
            } else {
                '/'
            }] + t),
            None => None,
        }
    } else {
        None
    }
}

/// `prefix` before the token, if there is one.
pub open spec fn prefixed(prefix: Seq<char>, t: Option<Seq<char>>) -> Option<Seq<char>> {
    match t {
        Some(s) => Some(prefix + s),
        None => None,
    }
}

/// The reference token that a pointer segment spells.
pub fn decode_pointer_token(raw: &str) -> (r: Result<String, JsonError>)
    ensures
        match pointer_token(raw@) {
            Some(t) => r matches Ok(s) && s@ == t,
            None => r == Err::<String, JsonError>(JsonError::PointerEscape),
        },
{
    let chars = chars_of(raw);
    let n = chars.len();
    let mut decoded = String::new();
    let mut i: usize = 0;
    proof {
        assert(chars@.skip(0) =~= chars@);
        match pointer_token(raw@) {
            Some(t) => assert(decoded@ + t =~= t),
            None => {},
        }
    }
    while i < n
        invariant
            n == chars@.len(),
            chars@ == raw@,
            i <= n,
            pointer_token(raw@) == prefixed(decoded@, pointer_token(chars@.skip(i as int))),
        decreases n - i,
    {
        let ghost rest = chars@.skip(i as int);
        let ch = chars[i];
        assert(rest[0] == ch);
        assert(rest.skip(1) =~= chars@.skip(i + 1));
        if ch != '~' {
            let ghost before = decoded@;
            push_char(&mut decoded, ch);
            proof {
                match pointer_token(chars@.skip(i + 1)) {
                    Some(t) => assert(decoded@ + t =~= before + (seq![ch] + t)),
                    None => {},
                }
            }
            i = i + 1;
            continue;
        }
        if i + 1 < n && (chars[i + 1] == '0' || chars[i + 1] == '1') {
            let next = chars[i + 1];
            assert(rest[1] == next);
            assert(rest.skip(2) =~= chars@.skip(i + 2));
            let ghost before = decoded@;
            if next == '0' {
                push_char(&mut decoded, '~');
            } else {
                push_char(&mut decoded, '/');
            }
            proof {
                match pointer_token(chars@.skip(i + 2)) {
                    Some(t) => assert(decoded@ + t =~= before + (seq![decoded@.last()] + t)),
                    None => {},
                }
            }
            i = i + 2;
        } else {
            return Err(JsonError::PointerEscape);
        }
    }
    assert(chars@.skip(n as int) =~= Seq::<char>::empty());
    assert(decoded@ + Seq::<char>::empty() =~= decoded@);
    Ok(decoded)
}

/// Whether a byte is ASCII white space (space, tab, LF, form feed, CR).
pub open spec fn is_ascii_white(b: u8) -> bool {
    b == 32 || b == 9 || b == 10 || b == 12 || b == 13
}

/// The first byte of `bytes` that is not ASCII white space.
pub open spec fn first_non_white(bytes: Seq<u8>) -> Option<u8>
    decreases bytes.len(),
{
    if bytes.len() == 0 {
        None
    } else if !is_ascii_white(bytes[0]) {
        Some(bytes[0])
    } else {
        first_non_white(bytes.drop_first())
    }
}

/// The byte that tells a JSON value's kind: its first byte that is not
/// white space.
pub fn json_kind(value: &str) -> (r: Option<u8>)
    ensures
        r == first_non_white(encode_utf8(value@)),
{
    let bytes = value.as_bytes();
    let mut i: usize = 0;
    assert(bytes@.skip(0) =~= bytes@);
    while i < bytes.len()
        invariant
            bytes@ == encode_utf8(value@),
            i <= bytes@.len(),
            first_non_white(bytes@.skip(i as int)) == first_non_white(bytes@),
        decreases bytes@.len() - i,
    {
        let b = bytes[i];
        assert(bytes@.skip(i as int)[0] == b);
        assert(bytes@.skip(i as int).drop_first() =~= bytes@.skip(i + 1));
        if !(b == 32 || b == 9 || b == 10 || b == 12 || b == 13) {
            return Some(b);
        }
        i = i + 1;
    }
    assert(bytes@.skip(i as int) =~= Seq::<u8>::empty());
    None
}

/// Whether a JSON value is `null`.
pub fn is_null(value: &str) -> (r: bool)
    ensures
        r == (trimmed(value@) == "null"@),
{
    let t = trim(value);
    str_eq(t.as_str(), "null")
}

/// The value of the first member named `key`.
pub open spec fn entry_lookup(entries: Seq<(Seq<char>, Seq<char>)>, key: Seq<char>) -> Option<Seq<char>>
    decreases entries.len(),
{
    if entries.len() == 0 {
        None
    } else if entries[0].0 == key {
        Some(entries[0].1)
    } else {
        entry_lookup(entries.drop_first(), key)
    }
}

/// Whether a token is a non-empty run of ASCII digits.
pub open spec fn all_ascii_digits(token: Seq<char>) -> bool {
    token.len() > 0 && forall|i: int| 0 <= i < token.len() ==> '0' <= #[trigger] token[i] <= '9'
}

/// The value the rest of a pointer selects from `current`: `Ok(None)` when
/// it selects nothing.
pub open spec fn pointer_walk(current: Seq<char>, raws: Seq<Seq<char>>) -> Result<Option<Seq<char>>, JsonError>
    decreases raws.len(),
{
    if raws.len() == 0 {
        Ok(Some(current))
    } else {
        match pointer_token(raws[0]) {
            None => Err(JsonError::PointerEscape),
            Some(token) => {
                let kind = first_non_white(encode_utf8(current));
                if kind == Some(123u8) {
                    match json_object_entries(current) {
                        None => Err(JsonError::NotObject),
                        Some(entries) => match entry_lookup(entries, token) {
                            None => Ok(None),
                            Some(v) => pointer_walk(trimmed(v), raws.drop_first()),
                        },
                    }
                } else if kind == Some(91u8) {
                    if !all_ascii_digits(token) {
                        Ok(None)
                    } else if token.len() > 1 && token[0] == '0' {
                        Err(JsonError::PointerLeadingZero)
                    } else if digit_chars_value(token) > usize::MAX {
                        Ok(None)
                    } else {
                        match json_array_items(current) {
                            None => Err(JsonError::NotArray),
                            Some(items) => if digit_chars_value(token) < items.len() {
                                pointer_walk(
                                    trimmed(items[digit_chars_value(token)]),
                                    raws.drop_first(),
                                )
                            } else {
                                Ok(None)
                            },
                        }
                    }
                } else {
                    Ok(None)
                }
            },
        }
    }
}

/// The value `pointer` selects from the JSON value `root`.
pub open spec fn select_pointer_spec(root: Seq<char>, pointer: Seq<char>) -> Result<Option<Seq<char>>, JsonError> {
    if pointer.len() == 0 {
        Ok(Some(trimmed(root)))
    } else if pointer[0] != '/' {
        Err(JsonError::PointerStart)
    } else {
        pointer_walk(trimmed(root), split_spec(pointer.skip(1), "/"@))
    }
}

/// A pointer result by its chars.
pub open spec fn selection_view(r: Result<Option<String>, JsonError>) -> Result<Option<Seq<char>>, JsonError> {
    match r {
        Ok(o) => Ok(text_option(o)),
        Err(e) => Err(e),
    }
}

fn find_entry(entries: &Vec<(String, String)>, key: &str) -> (r: Option<usize>)
    ensures
        match entry_lookup(entries_view(entries@), key@) {
            Some(v) => r matches Some(i) && i < entries@.len() && entries@[i as int].1@ == v,
            None => r is None,
        },
{
    let ghost ev = entries_view(entries@);
    let mut i: usize = 0;
    assert(ev.skip(0) =~= ev);
    while i < entries.len()
        invariant
            ev == entries_view(entries@),
            i <= entries@.len(),
            entry_lookup(ev.skip(i as int), key@) == entry_lookup(ev, key@),
        decreases entries@.len() - i,
    {
        let ghost rest = ev.skip(i as int);
        assert(rest[0] == (entries@[i as int].0@, entries@[i as int].1@));
        assert(rest.drop_first() =~= ev.skip(i + 1));
        if str_eq(entries[i].0.as_str(), key) {
            return Some(i);
        }
        i = i + 1;
    }
    assert(ev.skip(i as int) =~= Seq::<(Seq<char>, Seq<char>)>::empty());
    None
}

/// Whether a token is a non-empty run of ASCII digits.
fn all_digit_chars(token: &[char]) -> (r: bool)
    ensures
        r == all_ascii_digits(token@),
{
    if token.len() == 0 {
        return false;
    }
    let mut i: usize = 0;
    while i < token.len()
        invariant
            i <= token@.len(),
            forall|k: int| 0 <= k < i ==> '0' <= #[trigger] token@[k] <= '9',
        decreases token@.len() - i,
    {
        if !('0' <= token[i] && token[i] <= '9') {
            return false;
        }
        i = i + 1;
    }
    true
}

/// The value of a non-empty run of ASCII digits, or `None` when it is not
/// one or passes `usize::MAX`.
fn parse_index(token: &[char]) -> (r: Option<usize>)
    ensures
        match r {
            Some(v) => all_ascii_digits(token@) && v as int == digit_chars_value(token@),
            None => !all_ascii_digits(token@) || digit_chars_value(token@) > usize::MAX,
        },
{
    let n = token.len();
    if n == 0 {
        return None;
    }
    let mut acc: usize = 0;
    let mut i: usize = 0;
    let mut fits = true;
    while i < n
        invariant
            n == token@.len(),
            i <= n,
            n > 0,
            forall|k: int| 0 <= k < i ==> '0' <= #[trigger] token@[k] <= '9',
            fits ==> acc as int == digit_chars_value(token@.take(i as int)),
            !fits ==> digit_chars_value(token@.take(i as int)) > usize::MAX,
        decreases n - i,
    {
        let c = token[i];
        if !('0' <= c && c <= '9') {
            return None;
        }
        let d = (c as u32 - '0' as u32) as usize;
        assert(token@.take(i + 1).drop_last() =~= token@.take(i as int));
        proof {
            crate::numeral::lemma_digit_chars_value_nonneg(token@.take(i as int));
        }
        if fits {
            if acc > (usize::MAX - d) / 10 {
                fits = false;
                assert(acc * 10 + d > usize::MAX) by (nonlinear_arith)
                    requires
                        acc > (usize::MAX - d) / 10,
                        d <= 9,
                ;
            } else {
                assert(acc * 10 + d <= usize::MAX) by (nonlinear_arith)
                    requires
                        acc <= (usize::MAX - d) / 10,
                        d <= 9,
                ;
                acc = acc * 10 + d;
            }
        } else {
            assert(digit_chars_value(token@.take(i as int)) * 10 + d > usize::MAX) by (nonlinear_arith)
                requires
                    digit_chars_value(token@.take(i as int)) > usize::MAX,
                    d >= 0,
            ;
        }
        i = i + 1;
    }
    assert(token@.take(n as int) =~= token@);
    if fits {
        Some(acc)
    } else {
        None
    }
}

/// The value `pointer` selects from the JSON value `root`: `Ok(None)` when
/// it selects nothing.
pub fn select_pointer(root: &str, pointer: &str) -> (r: Result<Option<String>, JsonError>)
    ensures
        selection_view(r) == select_pointer_spec(root@, pointer@),
{
    let mut current = trim(root);
    let pchars = chars_of(pointer);
    if pchars.len() == 0 {
        return Ok(Some(current));
    }
    if pchars[0] != '/' {
        return Err(JsonError::PointerStart);
    }
    let rest = crate::text::text_of(pchars.as_slice(), 1, pchars.len());
    assert(rest@ =~= pointer@.skip(1));
    let raws = split(rest.as_str(), "/");
    let ghost rv = strings_view(raws@);
    let mut k: usize = 0;
    assert(rv.skip(0) =~= rv);
    while k < raws.len()
        invariant
            rv == strings_view(raws@),
            k <= raws@.len(),
            pointer_walk(current@, rv.skip(k as int)) == select_pointer_spec(root@, pointer@),
        decreases raws@.len() - k,
    {
        let ghost remaining = rv.skip(k as int);
        assert(remaining[0] == raws@[k as int]@);
        assert(remaining.drop_first() =~= rv.skip(k + 1));
        let token = match decode_pointer_token(raws[k].as_str()) {
            Ok(t) => t,
            Err(e) => return Err(e),
        };
        let kind = json_kind(current.as_str());
        if kind == Some(123u8) {
            let entries = match serde_object_entries(current.as_str()) {
                Some(v) => v,
                None => return Err(JsonError::NotObject),
            };
            let found = match find_entry(&entries, token.as_str()) {
                Some(i) => i,
                None => return Ok(None),
            };
            current = trim(entries[found].1.as_str());
        } else if kind == Some(91u8) {
            let tchars = chars_of(token.as_str());
            let all_digits = all_digit_chars(tchars.as_slice());
            if !all_digits {
                return Ok(None);
            }
            if tchars.len() > 1 && tchars[0] == '0' {
                return Err(JsonError::PointerLeadingZero);
            }
            let index = match parse_index(tchars.as_slice()) {
                Some(i) => i,
                None => return Ok(None),
            };
            let items = match serde_array_items(current.as_str()) {
                Some(v) => v,
                None => return Err(JsonError::NotArray),
            };
            if index >= items.len() {
                return Ok(None);
            }
            assert(strings_view(items@)[index as int] == items@[index as int]@);
            current = trim(items[index].as_str());
        } else {
            return Ok(None);
        }
        k = k + 1;
    }
    assert(rv.skip(k as int) =~= Seq::<Seq<char>>::empty());
    Ok(Some(current))
}

// ---------------------------------------------------------------------------
// Typed reads.
/// A typed read of a JSON value.
#[derive(Debug, Clone, PartialEq, Eq)]
pub enum JsonScalar {
    Str(String),
    Int(i64),
    /// The trimmed text of a JSON number read as a decimal, handed on to the
    /// decimal reader of the value layer.
    Decimal(String),
    Bool(bool),
    Count(usize),
}

/// A typed read by the chars of its text.
pub enum JsonScalarView {
    Str(Seq<char>),
    Int(int),
    Decimal(Seq<char>),
    Bool(bool),
    Count(int),
}

/// The view of a typed read's result.
pub open spec fn scalar_result_view(r: Result<JsonScalar, JsonError>) -> Result<JsonScalarView, JsonError> {
    match r {
        Ok(JsonScalar::Str(s)) => Ok(JsonScalarView::Str(s@)),
        Ok(JsonScalar::Int(v)) => Ok(JsonScalarView::Int(v as int)),
        Ok(JsonScalar::Decimal(s)) => Ok(JsonScalarView::Decimal(s@)),
        Ok(JsonScalar::Bool(b)) => Ok(JsonScalarView::Bool(b)),
        Ok(JsonScalar::Count(n)) => Ok(JsonScalarView::Count(n as int)),
        Err(e) => Err(e),
    }
}

/// Whether a kind byte starts a JSON number.
pub open spec fn number_kind(k: Option<u8>) -> bool {
    k == Some(45u8) || (k matches Some(b) && 48 <= b <= 57)
}

/// What a typed read makes of a selected value, by its kind byte.
pub open spec fn json_value_spec(op: JsonScalarOp, value: Seq<char>) -> Result<JsonScalarView, JsonError> {
    let kind = first_non_white(encode_utf8(value));
    match op {
        JsonScalarOp::String => if kind == Some(34u8) {
            match json_string_value(value) {
                Some(s) => Ok(JsonScalarView::Str(s)),
                None => Err(JsonError::NotString),
            }
        } else {
            Err(JsonError::WrongKind)
        },
        JsonScalarOp::Int => if number_kind(kind) {
            match json_number_i64(value) {
                None => Err(JsonError::NotNumber),
                Some(None) => Err(JsonError::NotInt),
                Some(Some(v)) => Ok(JsonScalarView::Int(v as int)),
            }
        } else {
            Err(JsonError::WrongKind)
        },
        JsonScalarOp::Decimal => if number_kind(kind) {
            Ok(JsonScalarView::Decimal(trimmed(value)))
        } else {
            Err(JsonError::WrongKind)
        },
        JsonScalarOp::Bool => if kind == Some(116u8) || kind == Some(102u8) {
            match json_bool_value(value) {
                Some(b) => Ok(JsonScalarView::Bool(b)),
                None => Err(JsonError::NotBool),
            }
        } else {
            Err(JsonError::WrongKind)
        },
        JsonScalarOp::Count => if kind == Some(91u8) {
            match json_array_items(value) {
                Some(items) => Ok(JsonScalarView::Count(items.len() as int)),
                None => Err(JsonError::NotArray),
            }
        } else if kind == Some(123u8) {
            match json_object_entries(value) {
                Some(entries) => Ok(JsonScalarView::Count(entries.len() as int)),
                None => Err(JsonError::NotObject),
            }
        } else {
            Err(JsonError::WrongKind)
        },
    }
}

/// A decimal read accepts exactly the values an int read accepts as
/// numbers: both refuse a value as of the wrong kind exactly when its first
/// non-space byte is neither `-` nor a digit, and a decimal read of a number
/// gives its text, so every value an int read takes is a decimal too.
pub proof fn lemma_decimal_reads_numbers(value: Seq<char>)
    ensures
        json_value_spec(JsonScalarOp::Decimal, value) is Ok <==> (first_non_white(encode_utf8(value))
            matches Some(b) && (b == 45u8 || (48u8 <= b && b <= 57u8))),
        json_value_spec(JsonScalarOp::Decimal, value) is Ok ==> json_value_spec(
            JsonScalarOp::Decimal,
            value,
        ) == Ok::<JsonScalarView, JsonError>(JsonScalarView::Decimal(trimmed(value))),
        json_value_spec(JsonScalarOp::Decimal, value) == Err::<JsonScalarView, JsonError>(
            JsonError::WrongKind,
        ) <==> json_value_spec(JsonScalarOp::Int, value) == Err::<JsonScalarView, JsonError>(
            JsonError::WrongKind,
        ),
        json_value_spec(JsonScalarOp::Int, value) is Ok ==> json_value_spec(
            JsonScalarOp::Decimal,
            value,
        ) is Ok,
{
}

/// Through a pointer too, a decimal read refuses a value as of the wrong
/// kind exactly when an int read of the same value does.
pub proof fn lemma_decimal_read_kind(text: Seq<char>, pointer: Seq<char>, within_policy: bool)
    ensures
        json_read_spec(JsonScalarOp::Decimal, text, pointer, within_policy) == Err::<
            JsonScalarView,
            JsonError,
        >(JsonError::WrongKind) <==> json_read_spec(JsonScalarOp::Int, text, pointer, within_policy)
            == Err::<JsonScalarView, JsonError>(JsonError::WrongKind),
{
    match accepted_json(text, within_policy) {
        Some(root) => match select_pointer_spec(root, pointer) {
            Ok(Some(value)) => lemma_decimal_reads_numbers(value),
            _ => {},
        },
        None => {},
    }
}

/// Reads a selected JSON value as `op` says.
pub fn json_value(op: JsonScalarOp, value: &str) -> (r: Result<JsonScalar, JsonError>)
    ensures
        scalar_result_view(r) == json_value_spec(op, value@),
{
    let kind = json_kind(value);
    let number = match kind {
        Some(b) => b == 45 || (48 <= b && b <= 57),
        None => false,
    };
    match op {
        JsonScalarOp::String => {
            if kind != Some(34u8) {
                return Err(JsonError::WrongKind);
            }
            match serde_string(value) {
                Some(s) => Ok(JsonScalar::Str(s)),
                None => Err(JsonError::NotString),
            }
        },
        JsonScalarOp::Int => {
            if !number {
                return Err(JsonError::WrongKind);
            }
            match serde_number_i64(value) {
                None => Err(JsonError::NotNumber),
                Some(None) => Err(JsonError::NotInt),
                Some(Some(v)) => Ok(JsonScalar::Int(v)),
            }
        },
        JsonScalarOp::Decimal => {
            if !number {
                return Err(JsonError::WrongKind);
            }
            Ok(JsonScalar::Decimal(trim(value)))
        },
        JsonScalarOp::Bool => {
            if !(kind == Some(116u8) || kind == Some(102u8)) {
                return Err(JsonError::WrongKind);
            }
            match serde_bool(value) {
                Some(b) => Ok(JsonScalar::Bool(b)),
                None => Err(JsonError::NotBool),
            }
        },
        JsonScalarOp::Count => {
            if kind == Some(91u8) {
                match serde_array_items(value) {
                    Some(items) => Ok(JsonScalar::Count(items.len())),
                    None => Err(JsonError::NotArray),
                }
            } else if kind == Some(123u8) {
                match serde_object_entries(value) {
                    Some(entries) => {
                        assert(entries_view(entries@).len() == entries@.len());
                        Ok(JsonScalar::Count(entries.len()))
                    },
                    None => Err(JsonError::NotObject),
                }
            } else {
                Err(JsonError::WrongKind)
            }
        },
    }
}

/// What a typed read of the value `pointer` selects from `text` gives: an
/// invalid text; the pointer's refusal; no value; `null`; else the value
/// read as `op` says.
pub open spec fn json_read_spec(op: JsonScalarOp, text: Seq<char>, pointer: Seq<char>, within_policy: bool) -> Result<JsonScalarView, JsonError> {
    match accepted_json(text, within_policy) {
        None => Err(JsonError::InvalidJson),
        Some(root) => match select_pointer_spec(root, pointer) {
            Err(e) => Err(e),
            Ok(None) => Err(JsonError::NoValue),
            Ok(Some(value)) => if trimmed(value) == "null"@ {
                Err(JsonError::NullValue)
            } else {
                json_value_spec(op, value)
            },
        },
    }
}

/// Reads the value `pointer` selects from the JSON `text` as `op` says;
/// `within_policy` is the verdict of the streaming structural check.
pub fn read_json(op: JsonScalarOp, text: &str, pointer: &str, within_policy: bool) -> (r: Result<
    JsonScalar,
    JsonError,
>)
    ensures
        scalar_result_view(r) == json_read_spec(op, text@, pointer@, within_policy),
{
    let root = match parse_json(text, within_policy) {
        Some(root) => root,
        None => return Err(JsonError::InvalidJson),
    };
    let value = match select_pointer(root.as_str(), pointer) {
        Ok(Some(v)) => v,
        Ok(None) => return Err(JsonError::NoValue),
        Err(e) => return Err(e),
    };
    if is_null(value.as_str()) {
        return Err(JsonError::NullValue);
    }
    json_value(op, value.as_str())
}

} // verus!
