//! Outfits file: named sets of worn props, stored as one portable file.
//!
//! An outfit is a named list of prop references, the props to wear at once.
//! The file is an application-owned, hand-editable JSON document (not the
//! `.prp` binary format), version 1:
//!
//! ```json
//! {
//!   "version": 1,
//!   "outfits": [
//!     {
//!       "name": "Party Hat",
//!       "props": [
//!         [100, 123456789],
//!         [-7, 0]
//!       ]
//!     }
//!   ]
//! }
//! ```
//!
//! A prop reference is `[id, crc]`, the [`PropKey`] identity pair. Order is
//! significant and preserved.
//!
//! Loading never fails: a missing file is an empty store; an unreadable or
//! malformed one is an empty store plus a load error. Within a well-formed
//! document the first outfit of a name wins and later ones are dropped; a
//! repeated object key resolves to its first occurrence; unknown keys are
//! ignored.
//!
//! Every change is staged: the store computes the new list and the document
//! to write, the caller writes it atomically, and only then commits the list,
//! so memory and disk move together or not at all.

use vstd::prelude::*;

use crate::bag_folder::{outfits_path, BagContext, BagRole};
use crate::error::PropError;
use crate::prp::PropKey;
use crate::text::{push_decimal, push_signed, push_str, spec_decimal, spec_signed_decimal};


verus! {

/// The outfits document version this build writes and the only one it
/// accepts.
pub const OUTFITS_VERSION: u32 = 1;

/// Largest nesting depth the JSON reader accepts.
pub const MAX_JSON_DEPTH: usize = 32;

// ---------------------------------------------------------------------------
// JSON values
// ---------------------------------------------------------------------------

/// A JSON value: enough for this file and nothing more. A number that is
/// not an integer is kept only as the fact that it was one.
#[derive(Debug)]
pub enum Json {
    Null,
    Bool(bool),
    Int(i64),
    Float,
    Str(String),
    Array(Vec<Json>),
    Object(Vec<(String, Json)>),
}

/// The abstract content of a JSON value.
pub enum JsonValue {
    Null,
    Bool(bool),
    Int(i64),
    Float,
    Str(Seq<char>),
    Array(Seq<JsonValue>),
    Object(Seq<(Seq<char>, JsonValue)>),
}

/// The abstract content of an exec JSON value.
pub open spec fn json_view(j: Json) -> JsonValue
    decreases j,
{
    match j {
        Json::Null => JsonValue::Null,
        Json::Bool(b) => JsonValue::Bool(b),
        Json::Int(i) => JsonValue::Int(i),
        Json::Float => JsonValue::Float,
        Json::Str(s) => JsonValue::Str(s@),
        Json::Array(v) => JsonValue::Array(
            Seq::new(
                v@.len(),
                |i: int|
                    if 0 <= i < v@.len() {
                        json_view(v@[i])
                    } else {
                        JsonValue::Null
                    },
            ),
        ),
        Json::Object(v) => JsonValue::Object(
            Seq::new(
                v@.len(),
                |i: int|
                    if 0 <= i < v@.len() {
                        (v@[i].0@, json_view(v@[i].1))
                    } else {
                        (Seq::empty(), JsonValue::Null)
                    },
            ),
        ),
    }
}

/// What went wrong while reading a JSON document.
#[derive(Debug, Clone, Copy, PartialEq, Eq, Structural)]
pub enum JsonFault {
    Trailing,
    UnexpectedChar,
    UnexpectedEnd,
    ObjectSeparator,
    UnterminatedObject,
    ArraySeparator,
    UnterminatedArray,
    ControlInString,
    UnterminatedString,
    StringNotUtf8,
    UnknownEscape,
    UnterminatedEscape,
    LoneHighSurrogate,
    LoneLowSurrogate,
    BadHexDigit,
    TruncatedEscape,
    InvalidNumber,
    TooDeep,
}

/// The text of a JSON fault.
pub open spec fn fault_text(f: JsonFault) -> Seq<char> {
    match f {
        JsonFault::Trailing => "trailing data after the top-level value"@,
        JsonFault::UnexpectedChar => "unexpected character"@,
        JsonFault::UnexpectedEnd => "unexpected end of input"@,
        JsonFault::ObjectSeparator => "expected ',' or '}' in an object"@,
        JsonFault::UnterminatedObject => "unterminated object"@,
        JsonFault::ArraySeparator => "expected ',' or ']' in an array"@,
        JsonFault::UnterminatedArray => "unterminated array"@,
        JsonFault::ControlInString => "unescaped control character in a string"@,
        JsonFault::UnterminatedString => "unterminated string"@,
        JsonFault::StringNotUtf8 => "string is not valid UTF-8"@,
        JsonFault::UnknownEscape => "unknown escape sequence"@,
        JsonFault::UnterminatedEscape => "unterminated escape sequence"@,
        JsonFault::LoneHighSurrogate => "high surrogate without a low surrogate"@,
        JsonFault::LoneLowSurrogate => "lone low surrogate"@,
        JsonFault::BadHexDigit => "invalid hex digit in a \\u escape"@,
        JsonFault::TruncatedEscape => "truncated \\u escape"@,
        JsonFault::InvalidNumber => "invalid number"@,
        JsonFault::TooDeep => "nesting is too deep"@,
    }
}

impl JsonFault {
    /// The text of the fault.
    pub fn text(self) -> (r: &'static str)
        ensures
            r@ == fault_text(self),
    {
        let r = match self {
            JsonFault::Trailing => "trailing data after the top-level value",
            JsonFault::UnexpectedChar => "unexpected character",
            JsonFault::UnexpectedEnd => "unexpected end of input",
            JsonFault::ObjectSeparator => "expected ',' or '}' in an object",
            JsonFault::UnterminatedObject => "unterminated object",
            JsonFault::ArraySeparator => "expected ',' or ']' in an array",
            JsonFault::UnterminatedArray => "unterminated array",
            JsonFault::ControlInString => "unescaped control character in a string",
            JsonFault::UnterminatedString => "unterminated string",
            JsonFault::StringNotUtf8 => "string is not valid UTF-8",
            JsonFault::UnknownEscape => "unknown escape sequence",
            JsonFault::UnterminatedEscape => "unterminated escape sequence",
            JsonFault::LoneHighSurrogate => "high surrogate without a low surrogate",
            JsonFault::LoneLowSurrogate => "lone low surrogate",
            JsonFault::BadHexDigit => "invalid hex digit in a \\u escape",
            JsonFault::TruncatedEscape => "truncated \\u escape",
            JsonFault::InvalidNumber => "invalid number",
            JsonFault::TooDeep => "nesting is too deep",
        };
        r
    }
}

/// Why a document could not be parsed, and at which byte.
#[derive(Debug, Clone, Copy, PartialEq, Eq, Structural)]
pub struct JsonError {
    /// Byte offset of the failure.
    pub position: usize,
    /// What went wrong.
    pub fault: JsonFault,
}

/// The error at `p`.
pub open spec fn fail(p: int, fault: JsonFault) -> JsonError {
    JsonError { position: p as usize, fault }
}

/// What a JSON error says.
pub open spec fn json_error_text(e: JsonError) -> Seq<char> {
    "invalid JSON at byte "@ + spec_decimal(e.position as nat) + ": "@ + fault_text(e.fault)
}

// ---------------------------------------------------------------------------
// The reader, as spec functions over the document's bytes
// ---------------------------------------------------------------------------

/// The byte at `p`, if any.
pub open spec fn byte_at(s: Seq<u8>, p: int) -> Option<u8> {
    if 0 <= p < s.len() {
        Some(s[p])
    } else {
        None
    }
}

/// Space, tab, newline or carriage return.
pub open spec fn is_json_space(b: u8) -> bool {
    b == 0x20 || b == 0x09 || b == 0x0A || b == 0x0D
}

/// Where the whitespace from `p` ends.
pub open spec fn skip_ws(s: Seq<u8>, p: int) -> int
    decreases s.len() - p,
{
    if 0 <= p < s.len() && is_json_space(s[p]) {
        skip_ws(s, p + 1)
    } else {
        p
    }
}

pub proof fn lemma_skip_ws(s: Seq<u8>, p: int)
    requires
        0 <= p <= s.len(),
    ensures
        p <= skip_ws(s, p) <= s.len(),
        skip_ws(s, p) < s.len() ==> !is_json_space(s[skip_ws(s, p)]),
    decreases s.len() - p,
{
    if p < s.len() && is_json_space(s[p]) {
        lemma_skip_ws(s, p + 1);
    }
}

/// Consume exactly `b` at `p`.
pub open spec fn expect(s: Seq<u8>, p: int, b: u8) -> Result<int, JsonError> {
    if byte_at(s, p) == Some(b) {
        Ok(p + 1)
    } else {
        Err(fail(p, JsonFault::UnexpectedChar))
    }
}

/// The value of a hexadecimal digit.
pub open spec fn hex_value(b: u8) -> Option<u32> {
    if 0x30 <= b <= 0x39 {
        Some((b - 0x30) as u32)
    } else if 0x61 <= b <= 0x66 {
        Some((b - 0x61 + 10) as u32)
    } else if 0x41 <= b <= 0x46 {
        Some((b - 0x41 + 10) as u32)
    } else {
        None
    }
}

/// Read `4 - k` more hexadecimal digits from `p` onto `acc`.
pub open spec fn hex_from(s: Seq<u8>, p: int, k: int, acc: u32) -> Result<(u32, int), JsonError>
    decreases 4 - k,
{
    if k >= 4 {
        Ok((acc, p))
    } else {
        match byte_at(s, p) {
            None => Err(fail(p, JsonFault::TruncatedEscape)),
            Some(b) => match hex_value(b) {
                None => Err(fail(p, JsonFault::BadHexDigit)),
                Some(d) => hex_from(s, p + 1, k + 1, (acc * 16 + d) as u32),
            },
        }
    }
}

/// The scalar a `\u` escape (after the `u`) stands for, combining a
/// surrogate pair.
pub open spec fn unicode_escape(s: Seq<u8>, p: int) -> Result<(u32, int), JsonError> {
    match hex_from(s, p, 0, 0) {
        Err(e) => Err(e),
        Ok((first, p1)) => if 0xD800 <= first <= 0xDBFF {
            match expect(s, p1, 0x5C) {
                Err(e) => Err(e),
                Ok(p2) => match expect(s, p2, 0x75) {
                    Err(e) => Err(e),
                    Ok(p3) => match hex_from(s, p3, 0, 0) {
                        Err(e) => Err(e),
                        Ok((second, p4)) => if !(0xDC00 <= second <= 0xDFFF) {
                            Err(fail(p4, JsonFault::LoneHighSurrogate))
                        } else {
                            Ok(((0x10000 + (first - 0xD800) * 1024 + (second - 0xDC00)) as u32, p4))
                        },
                    },
                },
            }
        } else if 0xDC00 <= first <= 0xDFFF {
            Err(fail(p1, JsonFault::LoneLowSurrogate))
        } else {
            Ok((first, p1))
        },
    }
}

/// The bytes one escape (after the backslash) appends.
pub open spec fn escape_bytes(s: Seq<u8>, p: int) -> Result<(Seq<u8>, int), JsonError> {
    match byte_at(s, p) {
        None => Err(fail(p, JsonFault::UnterminatedEscape)),
        Some(b) => if b == 0x22 || b == 0x5C || b == 0x2F {
            Ok((seq![b], p + 1))
        } else if b == 0x62 {
            Ok((seq![0x08u8], p + 1))
        } else if b == 0x66 {
            Ok((seq![0x0Cu8], p + 1))
        } else if b == 0x6E {
            Ok((seq![0x0Au8], p + 1))
        } else if b == 0x72 {
            Ok((seq![0x0Du8], p + 1))
        } else if b == 0x74 {
            Ok((seq![0x09u8], p + 1))
        } else if b == 0x75 {
            match unicode_escape(s, p + 1) {
                Err(e) => Err(e),
                Ok((c, q)) => Ok((vstd::utf8::encode_scalar(c), q)),
            }
        } else {
            Err(fail(p, JsonFault::UnknownEscape))
        },
    }
}

/// The bytes of a string's body from `p` up to its closing quote, and the
/// position after the quote.
pub open spec fn string_body(s: Seq<u8>, p: int, acc: Seq<u8>) -> Result<(Seq<u8>, int), JsonError>
    decreases s.len() - p,
{
    match byte_at(s, p) {
        None => Err(fail(p, JsonFault::UnterminatedString)),
        Some(b) => if b == 0x22 {
            Ok((acc, p + 1))
        } else if b == 0x5C {
            match escape_bytes(s, p + 1) {
                Err(e) => Err(e),
                Ok((bytes, q)) => if q <= p || q > s.len() {
                    Err(fail(q, JsonFault::UnexpectedChar))
                } else {
                    string_body(s, q, acc + bytes)
                },
            }
        } else if b < 0x20 {
            Err(fail(p, JsonFault::ControlInString))
        } else {
            string_body(s, p + 1, acc.push(b))
        },
    }
}

/// A string literal at `p`: its text and the position after it.
pub open spec fn string_at(s: Seq<u8>, p: int) -> Result<(Seq<char>, int), JsonError> {
    match expect(s, p, 0x22) {
        Err(e) => Err(e),
        Ok(p1) => match string_body(s, p1, Seq::empty()) {
            Err(e) => Err(e),
            Ok((bytes, q)) => if vstd::utf8::valid_utf8(bytes) {
                Ok((vstd::utf8::decode_utf8(bytes), q))
            } else {
                Err(fail(q, JsonFault::StringNotUtf8))
            },
        },
    }
}

/// An ASCII digit.
pub open spec fn is_digit(b: u8) -> bool {
    0x30 <= b <= 0x39
}

/// Where the run of digits from `p` ends.
pub open spec fn digits_end(s: Seq<u8>, p: int) -> int
    decreases s.len() - p,
{
    if 0 <= p < s.len() && is_digit(s[p]) {
        digits_end(s, p + 1)
    } else {
        p
    }
}

/// The value of the digits `s[a..b]`.
pub open spec fn digits_value(s: Seq<u8>, a: int, b: int) -> int
    decreases b - a,
{
    if b <= a {
        0
    } else {
        digits_value(s, a, b - 1) * 10 + (s[b - 1] - 0x30)
    }
}

/// The number literal at `p`: an integer when it is one in `i64` range,
/// otherwise a non-integer, or an error when it is not a number.
pub open spec fn number_at(s: Seq<u8>, p: int) -> Result<(JsonValue, int), JsonError> {
    let neg = byte_at(s, p) == Some(0x2Du8);
    let a = if neg { p + 1 } else { p };
    let b = digits_end(s, a);
    let dot = byte_at(s, b) == Some(0x2Eu8);
    let c = if dot { digits_end(s, b + 1) } else { b };
    let exp = byte_at(s, c) == Some(0x65u8) || byte_at(s, c) == Some(0x45u8);
    let c1 = c + 1;
    let signed = exp && (byte_at(s, c1) == Some(0x2Bu8) || byte_at(s, c1) == Some(0x2Du8));
    let c2 = if signed { c1 + 1 } else { c1 };
    let d = if exp { digits_end(s, c2) } else { c };
    if b == a && !dot && !exp {
        Err(fail(d, JsonFault::InvalidNumber))
    } else if !dot && !exp && (if neg { digits_value(s, a, b) <= 0x8000_0000_0000_0000 } else {
        digits_value(s, a, b) <= 0x7FFF_FFFF_FFFF_FFFF
    }) {
        Ok(
            (
                JsonValue::Int(
                    (if neg { -digits_value(s, a, b) } else { digits_value(s, a, b) }) as i64,
                ),
                d,
            ),
        )
    } else if (b > a || c > b + 1) && (!exp || d > c2) {
        Ok((JsonValue::Float, d))
    } else {
        Err(fail(d, JsonFault::InvalidNumber))
    }
}

/// A bare keyword at `p`.
pub open spec fn keyword_at(s: Seq<u8>, p: int, word: Seq<u8>, v: JsonValue) -> Result<
    (JsonValue, int),
    JsonError,
> {
    if s.len() - p < word.len() {
        Err(fail(p, JsonFault::UnexpectedEnd))
    } else if s.subrange(p, p + word.len()) != word {
        Err(fail(p, JsonFault::UnexpectedChar))
    } else {
        Ok((v, p + word.len()))
    }
}

/// The bytes of `true`, `false` and `null`.
pub open spec fn word_true() -> Seq<u8> {
    seq![0x74u8, 0x72u8, 0x75u8, 0x65u8]
}

pub open spec fn word_false() -> Seq<u8> {
    seq![0x66u8, 0x61u8, 0x6Cu8, 0x73u8, 0x65u8]
}

pub open spec fn word_null() -> Seq<u8> {
    seq![0x6Eu8, 0x75u8, 0x6Cu8, 0x6Cu8]
}

/// Any value from `p` on (after whitespace), at nesting depth `d`.
pub open spec fn value_at(s: Seq<u8>, p: int, d: int) -> Result<(JsonValue, int), JsonError>
    decreases s.len() - p, 1int,
{
    if p < 0 || p > s.len() {
        Err(fail(p, JsonFault::UnexpectedEnd))
    } else {
        let q = skip_ws(s, p);
        proof {
            lemma_skip_ws(s, p);
        }
        match byte_at(s, q) {
            None => Err(fail(q, JsonFault::UnexpectedEnd)),
            Some(b) => if b == 0x7B {
                object_at(s, q, d)
            } else if b == 0x5B {
                array_at(s, q, d)
            } else if b == 0x22 {
                match string_at(s, q) {
                    Err(e) => Err(e),
                    Ok((t, e)) => Ok((JsonValue::Str(t), e)),
                }
            } else if b == 0x74 {
                keyword_at(s, q, word_true(), JsonValue::Bool(true))
            } else if b == 0x66 {
                keyword_at(s, q, word_false(), JsonValue::Bool(false))
            } else if b == 0x6E {
                keyword_at(s, q, word_null(), JsonValue::Null)
            } else if b == 0x2D || is_digit(b) {
                number_at(s, q)
            } else {
                Err(fail(q, JsonFault::UnexpectedChar))
            },
        }
    }
}

/// An array at `q` (its opening bracket), at nesting depth `d`.
pub open spec fn array_at(s: Seq<u8>, q: int, d: int) -> Result<(JsonValue, int), JsonError>
    decreases s.len() - q, 0int,
{
    if q < 0 || q >= s.len() || s[q] != 0x5B {
        Err(fail(q, JsonFault::UnexpectedChar))
    } else if d + 1 > MAX_JSON_DEPTH {
        Err(fail(q + 1, JsonFault::TooDeep))
    } else {
        let r = skip_ws(s, q + 1);
        proof {
            lemma_skip_ws(s, q + 1);
        }
        if byte_at(s, r) == Some(0x5Du8) {
            Ok((JsonValue::Array(Seq::empty()), r + 1))
        } else {
            items_at(s, r, d + 1, Seq::empty())
        }
    }
}

/// The rest of an array's items from `p`, after `acc`.
pub open spec fn items_at(s: Seq<u8>, p: int, d: int, acc: Seq<JsonValue>) -> Result<
    (JsonValue, int),
    JsonError,
>
    decreases s.len() - p, 2int,
{
    if p < 0 || p > s.len() {
        Err(fail(p, JsonFault::UnexpectedEnd))
    } else {
        match value_at(s, p, d) {
            Err(e) => Err(e),
            Ok((v, p2)) => if p2 <= p || p2 > s.len() {
                Err(fail(p2, JsonFault::UnexpectedChar))
            } else {
                let p3 = skip_ws(s, p2);
                proof {
                    lemma_skip_ws(s, p2);
                }
                match byte_at(s, p3) {
                    None => Err(fail(p3, JsonFault::UnterminatedArray)),
                    Some(b) => if b == 0x2C {
                        items_at(s, p3 + 1, d, acc.push(v))
                    } else if b == 0x5D {
                        Ok((JsonValue::Array(acc.push(v)), p3 + 1))
                    } else {
                        Err(fail(p3, JsonFault::ArraySeparator))
                    },
                }
            },
        }
    }
}

/// An object at `q` (its opening brace), at nesting depth `d`.
pub open spec fn object_at(s: Seq<u8>, q: int, d: int) -> Result<(JsonValue, int), JsonError>
    decreases s.len() - q, 0int,
{
    if q < 0 || q >= s.len() || s[q] != 0x7B {
        Err(fail(q, JsonFault::UnexpectedChar))
    } else if d + 1 > MAX_JSON_DEPTH {
        Err(fail(q + 1, JsonFault::TooDeep))
    } else {
        let r = skip_ws(s, q + 1);
        proof {
            lemma_skip_ws(s, q + 1);
        }
        if byte_at(s, r) == Some(0x7Du8) {
            Ok((JsonValue::Object(Seq::empty()), r + 1))
        } else {
            members_at(s, r, d + 1, Seq::empty())
        }
    }
}

/// The rest of an object's members from `p`, after `acc`.
pub open spec fn members_at(
    s: Seq<u8>,
    p: int,
    d: int,
    acc: Seq<(Seq<char>, JsonValue)>,
) -> Result<(JsonValue, int), JsonError>
    decreases s.len() - p, 2int,
{
    if p < 0 || p > s.len() {
        Err(fail(p, JsonFault::UnexpectedEnd))
    } else {
        let p0 = skip_ws(s, p);
        proof {
            lemma_skip_ws(s, p);
        }
        match string_at(s, p0) {
            Err(e) => Err(e),
            Ok((key, p1)) => if p1 <= p0 || p1 > s.len() {
                Err(fail(p1, JsonFault::UnexpectedChar))
            } else {
                let p2 = skip_ws(s, p1);
                proof {
                    lemma_skip_ws(s, p1);
                }
                match expect(s, p2, 0x3A) {
                    Err(e) => Err(e),
                    Ok(p3) => match value_at(s, p3, d) {
                        Err(e) => Err(e),
                        Ok((v, p4)) => if p4 <= p3 || p4 > s.len() {
                            Err(fail(p4, JsonFault::UnexpectedChar))
                        } else {
                            let p5 = skip_ws(s, p4);
                            proof {
                                lemma_skip_ws(s, p4);
                            }
                            match byte_at(s, p5) {
                                None => Err(fail(p5, JsonFault::UnterminatedObject)),
                                Some(b) => if b == 0x2C {
                                    members_at(s, p5 + 1, d, acc.push((key, v)))
                                } else if b == 0x7D {
                                    Ok((JsonValue::Object(acc.push((key, v))), p5 + 1))
                                } else {
                                    Err(fail(p5, JsonFault::ObjectSeparator))
                                },
                            }
                        },
                    },
                }
            },
        }
    }
}

/// A whole document: one value, then only whitespace.
pub open spec fn document_at(s: Seq<u8>) -> Result<JsonValue, JsonError> {
    let p = skip_ws(s, 0);
    match value_at(s, p, 0) {
        Err(e) => Err(e),
        Ok((v, q)) => {
            let r = skip_ws(s, q);
            if 0 <= r < s.len() {
                Err(fail(r, JsonFault::Trailing))
            } else {
                Ok(v)
            }
        },
    }
}

// ---------------------------------------------------------------------------
// The reader
// ---------------------------------------------------------------------------

/// An exec result that agrees with a spec result.
pub open spec fn same_pos<T>(r: Result<(T, usize), JsonError>, s: Result<(T, int), JsonError>) -> bool {
    match s {
        Ok((v, q)) => r matches Ok((v2, q2)) && v2 == v && q2 as int == q,
        Err(e) => r == Err::<(T, usize), JsonError>(e),
    }
}

/// An exec value result that agrees with a spec result.
pub open spec fn same_value(r: Result<(Json, usize), JsonError>, s: Result<(JsonValue, int), JsonError>) -> bool {
    match (r, s) {
        (Ok((j, q)), Ok((v, q2))) => json_view(j) == v && q as int == q2,
        (Err(e1), Err(e2)) => e1 == e2,
        _ => false,
    }
}

/// The views of a list of values.
pub open spec fn views(v: Seq<Json>) -> Seq<JsonValue> {
    Seq::new(v.len(), |i: int| json_view(v[i]))
}

/// The views of a list of members.
pub open spec fn member_views(v: Seq<(String, Json)>) -> Seq<(Seq<char>, JsonValue)> {
    Seq::new(v.len(), |i: int| (v[i].0@, json_view(v[i].1)))
}

proof fn lemma_array_view(v: Vec<Json>)
    ensures
        json_view(Json::Array(v)) == JsonValue::Array(views(v@)),
{
    let a = json_view(Json::Array(v));
    assert(a->Array_0 =~= views(v@));
}

proof fn lemma_object_view(v: Vec<(String, Json)>)
    ensures
        json_view(Json::Object(v)) == JsonValue::Object(member_views(v@)),
{
    let a = json_view(Json::Object(v));
    assert(a->Object_0 =~= member_views(v@));
}

fn is_space(b: u8) -> (r: bool)
    ensures
        r == is_json_space(b),
{
    b == 0x20 || b == 0x09 || b == 0x0A || b == 0x0D
}

fn skip_spaces(input: &[u8], p: usize) -> (r: usize)
    requires
        p <= input@.len(),
    ensures
        r as int == skip_ws(input@, p as int),
        p <= r <= input@.len(),
{
    let mut i = p;
    while i < input.len() && is_space(input[i])
        invariant
            p <= i <= input@.len(),
            skip_ws(input@, i as int) == skip_ws(input@, p as int),
        decreases input@.len() - i,
    {
        i = i + 1;
    }
    i
}

fn expect_byte(input: &[u8], p: usize, b: u8) -> (r: Result<usize, JsonError>)
    requires
        p <= input@.len(),
    ensures
        match expect(input@, p as int, b) {
            Ok(q) => r matches Ok(q2) && q2 as int == q && q <= input@.len(),
            Err(e) => r == Err::<usize, JsonError>(e),
        },
{
    if p < input.len() && input[p] == b {
        Ok(p + 1)
    } else {
        Err(JsonError { position: p, fault: JsonFault::UnexpectedChar })
    }
}

fn hex_digit_value(b: u8) -> (r: Option<u32>)
    ensures
        r == hex_value(b),
{
    if 0x30 <= b && b <= 0x39 {
        Some((b - 0x30) as u32)
    } else if 0x61 <= b && b <= 0x66 {
        Some((b - 0x61 + 10) as u32)
    } else if 0x41 <= b && b <= 0x46 {
        Some((b - 0x41 + 10) as u32)
    } else {
        None
    }
}

fn read_hex4(input: &[u8], p: usize) -> (r: Result<(u32, usize), JsonError>)
    requires
        p <= input@.len(),
    ensures
        same_pos(r, hex_from(input@, p as int, 0, 0)),
        r matches Ok((v, q)) ==> q == p + 4 && v < 0x10000 && q <= input@.len(),
{
    let mut value: u32 = 0;
    let mut k: usize = 0;
    let mut i: usize = p;
    while k < 4
        invariant
            k <= 4,
            i == p + k,
            i <= input@.len(),
            value < (if k == 0 {
                1int
            } else if k == 1 {
                16
            } else if k == 2 {
                256
            } else if k == 3 {
                4096
            } else {
                65536
            }),
            hex_from(input@, p as int, 0, 0) == hex_from(input@, i as int, k as int, value),
        decreases 4 - k,
    {
        if i >= input.len() {
            return Err(JsonError { position: i, fault: JsonFault::TruncatedEscape });
        }
        let d = match hex_digit_value(input[i]) {
            Some(d) => d,
            None => {
                return Err(JsonError { position: i, fault: JsonFault::BadHexDigit });
            },
        };
        value = value * 16 + d;
        i = i + 1;
        k = k + 1;
    }
    Ok((value, i))
}

fn read_unicode_escape(input: &[u8], p: usize) -> (r: Result<(u32, usize), JsonError>)
    requires
        p <= input@.len(),
    ensures
        same_pos(r, unicode_escape(input@, p as int)),
        r matches Ok((c, q)) ==> p < q <= input@.len() && vstd::utf8::is_scalar(c),
{
    let (first, p1) = match read_hex4(input, p) {
        Ok(x) => x,
        Err(e) => {
            return Err(e);
        },
    };
    if 0xD800 <= first && first <= 0xDBFF {
        let p2 = match expect_byte(input, p1, 0x5C) {
            Ok(q) => q,
            Err(e) => {
                return Err(e);
            },
        };
        let p3 = match expect_byte(input, p2, 0x75) {
            Ok(q) => q,
            Err(e) => {
                return Err(e);
            },
        };
        let (second, p4) = match read_hex4(input, p3) {
            Ok(x) => x,
            Err(e) => {
                return Err(e);
            },
        };
        if !(0xDC00 <= second && second <= 0xDFFF) {
            return Err(JsonError { position: p4, fault: JsonFault::LoneHighSurrogate });
        }
        let c = 0x10000 + (first - 0xD800) * 1024 + (second - 0xDC00);
        return Ok((c, p4));
    }
    if 0xDC00 <= first && first <= 0xDFFF {
        return Err(JsonError { position: p1, fault: JsonFault::LoneLowSurrogate });
    }
    Ok((first, p1))
}

/// Append the UTF-8 bytes of a scalar.
fn push_scalar(out: &mut Vec<u8>, c: u32)
    ensures
        final(out)@ == old(out)@ + vstd::utf8::encode_scalar(c),
{
    if c <= 0x7F {
        out.push((c & 0x7F) as u8);
    } else if 0x80 <= c && c <= 0x7FF {
        out.push(0xC0 | ((c >> 6) & 0x1F) as u8);
        out.push(0x80 | (c & 0x3F) as u8);
    } else if 0x800 <= c && c <= 0xFFFF && !(0xD800 <= c && c <= 0xDFFF) {
        out.push(0xE0 | ((c >> 12) & 0x0F) as u8);
        out.push(0x80 | ((c >> 6) & 0x3F) as u8);
        out.push(0x80 | (c & 0x3F) as u8);
    } else {
        out.push(0xF0 | ((c >> 18) & 0x7) as u8);
        out.push(0x80 | ((c >> 12) & 0x3F) as u8);
        out.push(0x80 | ((c >> 6) & 0x3F) as u8);
        out.push(0x80 | (c & 0x3F) as u8);
    }
    assert(final(out)@ =~= old(out)@ + vstd::utf8::encode_scalar(c));
}

/// Decode one escape (after the backslash) onto `out`.
fn read_escape(input: &[u8], p: usize, out: &mut Vec<u8>) -> (r: Result<usize, JsonError>)
    requires
        p <= input@.len(),
    ensures
        match escape_bytes(input@, p as int) {
            Ok((bytes, q)) => r matches Ok(q2) && q2 as int == q && final(out)@ == old(out)@ + bytes
                && p < q <= input@.len(),
            Err(e) => r == Err::<usize, JsonError>(e),
        },
{
    if p >= input.len() {
        return Err(JsonError { position: p, fault: JsonFault::UnterminatedEscape });
    }
    let b = input[p];
    if b == 0x22 || b == 0x5C || b == 0x2F {
        out.push(b);
    } else if b == 0x62 {
        out.push(0x08);
    } else if b == 0x66 {
        out.push(0x0C);
    } else if b == 0x6E {
        out.push(0x0A);
    } else if b == 0x72 {
        out.push(0x0D);
    } else if b == 0x74 {
        out.push(0x09);
    } else if b == 0x75 {
        let (c, q) = match read_unicode_escape(input, p + 1) {
            Ok(x) => x,
            Err(e) => {
                return Err(e);
            },
        };
        push_scalar(out, c);
        return Ok(q);
    } else {
        return Err(JsonError { position: p, fault: JsonFault::UnknownEscape });
    }
    proof {
        assert(final(out)@ =~= old(out)@ + escape_bytes(input@, p as int).unwrap().0);
    }
    Ok(p + 1)
}

/// Read a string literal at `p`.
fn read_string(input: &[u8], p: usize) -> (r: Result<(String, usize), JsonError>)
    requires
        p <= input@.len(),
    ensures
        match string_at(input@, p as int) {
            Ok((t, q)) => r matches Ok((st, e)) && st@ == t && e as int == q && p < q <= input@.len(),
            Err(e) => r == Err::<(String, usize), JsonError>(e),
        },
{
    let p1 = match expect_byte(input, p, 0x22) {
        Ok(q) => q,
        Err(e) => {
            return Err(e);
        },
    };
    let mut bytes: Vec<u8> = Vec::new();
    let mut i = p1;
    let end: usize;
    loop
        invariant
            p < p1 <= i <= input@.len(),
            expect(input@, p as int, 0x22) == Ok::<int, JsonError>(p1 as int),
            string_body(input@, p1 as int, Seq::empty()) == string_body(input@, i as int, bytes@),
        ensures
            p < end <= input@.len(),
            string_body(input@, p1 as int, Seq::empty()) == Ok::<(Seq<u8>, int), JsonError>(
                (bytes@, end as int),
            ),
        decreases input@.len() - i,
    {
        if i >= input.len() {
            return Err(JsonError { position: i, fault: JsonFault::UnterminatedString });
        }
        let b = input[i];
        if b == 0x22 {
            end = i + 1;
            break;
        } else if b == 0x5C {
            let ghost before = bytes@;
            let q = match read_escape(input, i + 1, &mut bytes) {
                Ok(q) => q,
                Err(e) => {
                    return Err(e);
                },
            };
            i = q;
        } else if b < 0x20 {
            return Err(JsonError { position: i, fault: JsonFault::ControlInString });
        } else {
            bytes.push(b);
            i = i + 1;
        }
    }
    match crate::trash_doc::utf8_string(bytes) {
        Ok(t) => Ok((t, end)),
        Err(_) => Err(JsonError { position: end, fault: JsonFault::StringNotUtf8 }),
    }
}

fn digits_to(input: &[u8], p: usize) -> (r: usize)
    requires
        p <= input@.len(),
    ensures
        r as int == digits_end(input@, p as int),
        p <= r <= input@.len(),
{
    let mut i = p;
    while i < input.len() && 0x30 <= input[i] && input[i] <= 0x39
        invariant
            p <= i <= input@.len(),
            digits_end(input@, i as int) == digits_end(input@, p as int),
        decreases input@.len() - i,
    {
        i = i + 1;
    }
    i
}

/// The value of the digits `input[a..b]` when it is at most `2^63`.
fn digits_up_to(input: &[u8], a: usize, b: usize) -> (r: Option<u128>)
    requires
        a <= b <= input@.len(),
        forall|k: int| a <= k < b ==> is_digit(input@[k]),
    ensures
        match r {
            Some(v) => v as int == digits_value(input@, a as int, b as int) && v <= 0x8000_0000_0000_0000,
            None => digits_value(input@, a as int, b as int) > 0x8000_0000_0000_0000,
        },
{
    let mut v: u128 = 0;
    let mut i = a;
    while i < b
        invariant
            a <= i <= b <= input@.len(),
            forall|k: int| a <= k < b ==> is_digit(input@[k]),
            v as int == digits_value(input@, a as int, i as int),
            v <= 0x8000_0000_0000_0000,
        decreases b - i,
    {
        let next = v * 10 + (input[i] - 0x30) as u128;
        i = i + 1;
        if next > 0x8000_0000_0000_0000 {
            proof {
                lemma_digits_above(input@, a as int, i as int, b as int);
            }
            return None;
        }
        v = next;
    }
    Some(v)
}

proof fn lemma_digits_above(s: Seq<u8>, a: int, i: int, b: int)
    requires
        a < i <= b,
        forall|k: int| a <= k < b ==> is_digit(s[k]),
        digits_value(s, a, i) > 0x8000_0000_0000_0000,
    ensures
        digits_value(s, a, b) > 0x8000_0000_0000_0000,
    decreases b - i,
{
    if b > i {
        lemma_digits_above(s, a, i, b - 1);
        lemma_digits_nonneg_all(s, a, b - 1);
    }
}

proof fn lemma_digits_nonneg_all(s: Seq<u8>, a: int, b: int)
    requires
        forall|k: int| a <= k < b ==> is_digit(s[k]),
    ensures
        digits_value(s, a, b) >= 0,
    decreases b - a,
{
    if b > a {
        lemma_digits_nonneg_all(s, a, b - 1);
    }
}

proof fn lemma_digits_run(s: Seq<u8>, p: int)
    requires
        0 <= p <= s.len(),
    ensures
        p <= digits_end(s, p) <= s.len(),
        forall|k: int| p <= k < digits_end(s, p) ==> is_digit(s[k]),
    decreases s.len() - p,
{
    if p < s.len() && is_digit(s[p]) {
        lemma_digits_run(s, p + 1);
    }
}

/// Read a number literal at `p` (a minus sign or a digit).
fn read_number(input: &[u8], p: usize) -> (r: Result<(Json, usize), JsonError>)
    requires
        p < input@.len(),
        input@[p as int] == 0x2D || is_digit(input@[p as int]),
    ensures
        same_value(r, number_at(input@, p as int)),
        r matches Ok((_, q)) ==> p < q <= input@.len(),
{
    let len = input.len();
    let neg = input[p] == 0x2D;
    let a = if neg { p + 1 } else { p };
    let b = digits_to(input, a);
    let dot = b < len && input[b] == 0x2E;
    let c = if dot { digits_to(input, b + 1) } else { b };
    let exp = c < len && (input[c] == 0x65 || input[c] == 0x45);
    let c2 = if exp {
        let c1 = c + 1;
        if c1 < len && (input[c1] == 0x2B || input[c1] == 0x2D) {
            c1 + 1
        } else {
            c1
        }
    } else {
        c
    };
    let d = if exp { digits_to(input, c2) } else { c };
    proof {
        lemma_digits_run(input@, a as int);
        if dot {
            lemma_digits_run(input@, b + 1);
        }
        if exp {
            lemma_digits_run(input@, c2 as int);
        }
    }
    if b == a && !dot && !exp {
        return Err(JsonError { position: d, fault: JsonFault::InvalidNumber });
    }
    if !dot && !exp {
        match digits_up_to(input, a, b) {
            Some(v) => {
                if neg {
                    let x: i64 = (-(v as i128)) as i64;
                    return Ok((Json::Int(x), d));
                } else if v <= 0x7FFF_FFFF_FFFF_FFFF {
                    return Ok((Json::Int(v as i64), d));
                }
            },
            None => {},
        }
    }
    if (b > a || c > b + 1) && (!exp || d > c2) {
        Ok((Json::Float, d))
    } else {
        Err(JsonError { position: d, fault: JsonFault::InvalidNumber })
    }
}

fn read_keyword(input: &[u8], p: usize, word: &[u8], value: Json) -> (r: Result<(Json, usize), JsonError>)
    requires
        p <= input@.len(),
        word@.len() > 0,
    ensures
        same_value(r, keyword_at(input@, p as int, word@, json_view(value))),
        r matches Ok((_, q)) ==> p < q <= input@.len(),
{
    let n = word.len();
    if input.len() - p < n {
        return Err(JsonError { position: p, fault: JsonFault::UnexpectedEnd });
    }
    let mut k: usize = 0;
    while k < n
        invariant
            k <= n,
            n == word@.len(),
            p + n <= input.len(),
            p <= input@.len(),
            forall|j: int| 0 <= j < k ==> input@[p + j] == word@[j],
        decreases n - k,
    {
        if input[p + k] != word[k] {
            proof {
                assert(input@.subrange(p as int, p + n)[k as int] != word@[k as int]);
            }
            return Err(JsonError { position: p, fault: JsonFault::UnexpectedChar });
        }
        k = k + 1;
    }
    assert(input@.subrange(p as int, p + n) =~= word@);
    Ok((value, p + n))
}

/// Read any value from `p` on, at nesting depth `depth`.
fn read_value(input: &[u8], p: usize, depth: usize) -> (r: Result<(Json, usize), JsonError>)
    requires
        p <= input@.len(),
        depth <= MAX_JSON_DEPTH,
    ensures
        same_value(r, value_at(input@, p as int, depth as int)),
        r matches Ok((_, q)) ==> p < q <= input@.len(),
    decreases input@.len() - p, 1int,
{
    let q = skip_spaces(input, p);
    if q >= input.len() {
        return Err(JsonError { position: q, fault: JsonFault::UnexpectedEnd });
    }
    let b = input[q];
    if b == 0x7B {
        read_object(input, q, depth)
    } else if b == 0x5B {
        read_array(input, q, depth)
    } else if b == 0x22 {
        match read_string(input, q) {
            Ok((t, e)) => Ok((Json::Str(t), e)),
            Err(e) => Err(e),
        }
    } else if b == 0x74 {
        let w: [u8; 4] = [0x74, 0x72, 0x75, 0x65];
        assert(w@ =~= word_true());
        read_keyword(input, q, &w, Json::Bool(true))
    } else if b == 0x66 {
        let w: [u8; 5] = [0x66, 0x61, 0x6C, 0x73, 0x65];
        assert(w@ =~= word_false());
        read_keyword(input, q, &w, Json::Bool(false))
    } else if b == 0x6E {
        let w: [u8; 4] = [0x6E, 0x75, 0x6C, 0x6C];
        assert(w@ =~= word_null());
        read_keyword(input, q, &w, Json::Null)
    } else if b == 0x2D || (0x30 <= b && b <= 0x39) {
        read_number(input, q)
    } else {
        Err(JsonError { position: q, fault: JsonFault::UnexpectedChar })
    }
}

/// Read an array at `q` (its opening bracket).
fn read_array(input: &[u8], q: usize, depth: usize) -> (r: Result<(Json, usize), JsonError>)
    requires
        q < input.len(),
        input@[q as int] == 0x5B,
        depth <= MAX_JSON_DEPTH,
    ensures
        same_value(r, array_at(input@, q as int, depth as int)),
        r matches Ok((_, e)) ==> q < e <= input@.len(),
    decreases input@.len() - q, 0int,
{
    let q1 = q + 1;
    if depth + 1 > MAX_JSON_DEPTH {
        return Err(JsonError { position: q1, fault: JsonFault::TooDeep });
    }
    let d1 = depth + 1;
    let r0 = skip_spaces(input, q1);
    let mut values: Vec<Json> = Vec::new();
    if r0 < input.len() && input[r0] == 0x5D {
        proof {
            lemma_array_view(values);
            assert(views(values@) =~= Seq::empty());
        }
        return Ok((Json::Array(values), r0 + 1));
    }
    let mut pos = r0;
    assert(views(values@) =~= Seq::empty());
    loop
        invariant
            q < pos <= input@.len(),
            d1 == depth + 1,
            d1 <= MAX_JSON_DEPTH,
            array_at(input@, q as int, depth as int) == items_at(input@, pos as int, d1 as int, views(values@)),
        decreases input@.len() - pos,
    {
        let ghost acc = views(values@);
        let (v, p2) = match read_value(input, pos, d1) {
            Ok(x) => x,
            Err(e) => {
                return Err(e);
            },
        };
        let p3 = skip_spaces(input, p2);
        let ghost vv = json_view(v);
        values.push(v);
        assert(views(values@) =~= acc.push(vv));
        if p3 >= input.len() {
            return Err(JsonError { position: p3, fault: JsonFault::UnterminatedArray });
        }
        let b = input[p3];
        if b == 0x2C {
            pos = p3 + 1;
        } else if b == 0x5D {
            proof {
                lemma_array_view(values);
            }
            return Ok((Json::Array(values), p3 + 1));
        } else {
            return Err(JsonError { position: p3, fault: JsonFault::ArraySeparator });
        }
    }
}

/// Read an object at `q` (its opening brace).
fn read_object(input: &[u8], q: usize, depth: usize) -> (r: Result<(Json, usize), JsonError>)
    requires
        q < input.len(),
        input@[q as int] == 0x7B,
        depth <= MAX_JSON_DEPTH,
    ensures
        same_value(r, object_at(input@, q as int, depth as int)),
        r matches Ok((_, e)) ==> q < e <= input@.len(),
    decreases input@.len() - q, 0int,
{
    let q1 = q + 1;
    if depth + 1 > MAX_JSON_DEPTH {
        return Err(JsonError { position: q1, fault: JsonFault::TooDeep });
    }
    let d1 = depth + 1;
    let r0 = skip_spaces(input, q1);
    let mut members: Vec<(String, Json)> = Vec::new();
    if r0 < input.len() && input[r0] == 0x7D {
        proof {
            lemma_object_view(members);
            assert(member_views(members@) =~= Seq::empty());
        }
        return Ok((Json::Object(members), r0 + 1));
    }
    let mut pos = r0;
    assert(member_views(members@) =~= Seq::empty());
    loop
        invariant
            q < pos <= input@.len(),
            d1 == depth + 1,
            d1 <= MAX_JSON_DEPTH,
            object_at(input@, q as int, depth as int) == members_at(
                input@,
                pos as int,
                d1 as int,
                member_views(members@),
            ),
        decreases input@.len() - pos,
    {
        let ghost acc = member_views(members@);
        let p0 = skip_spaces(input, pos);
        let (key, p1) = match read_string(input, p0) {
            Ok(x) => x,
            Err(e) => {
                return Err(e);
            },
        };
        let p2 = skip_spaces(input, p1);
        let p3 = match expect_byte(input, p2, 0x3A) {
            Ok(x) => x,
            Err(e) => {
                return Err(e);
            },
        };
        let (v, p4) = match read_value(input, p3, d1) {
            Ok(x) => x,
            Err(e) => {
                return Err(e);
            },
        };
        let p5 = skip_spaces(input, p4);
        let ghost kv = (key@, json_view(v));
        members.push((key, v));
        assert(member_views(members@) =~= acc.push(kv));
        if p5 >= input.len() {
            return Err(JsonError { position: p5, fault: JsonFault::UnterminatedObject });
        }
        let b = input[p5];
        if b == 0x2C {
            pos = p5 + 1;
        } else if b == 0x7D {
            proof {
                lemma_object_view(members);
            }
            return Ok((Json::Object(members), p5 + 1));
        } else {
            return Err(JsonError { position: p5, fault: JsonFault::ObjectSeparator });
        }
    }
}

/// Parse one complete document: a single value, then only whitespace.
pub fn parse_document(input: &[u8]) -> (r: Result<Json, JsonError>)
    ensures
        match document_at(input@) {
            Ok(v) => r matches Ok(j) && json_view(j) == v,
            Err(e) => r == Err::<Json, JsonError>(e),
        },
{
    let p = skip_spaces(input, 0);
    let (v, q) = match read_value(input, p, 0) {
        Ok(x) => x,
        Err(e) => {
            return Err(e);
        },
    };
    let r = skip_spaces(input, q);
    if r < input.len() {
        return Err(JsonError { position: r, fault: JsonFault::Trailing });
    }
    Ok(v)
}

// ---------------------------------------------------------------------------
// Outfits
// ---------------------------------------------------------------------------

/// One named set of worn props.
#[derive(Debug, Clone, PartialEq, Eq)]
pub struct Outfit {
    /// The outfit's name; unique among the outfits of one store.
    pub name: String,
    /// The props to wear, in wearing order.
    pub props: Vec<PropKey>,
}

/// The abstract content of an outfit.
pub struct OutfitView {
    /// The name.
    pub name: Seq<char>,
    /// The props, in wearing order.
    pub props: Seq<PropKey>,
}

impl View for Outfit {
    type V = OutfitView;

    open spec fn view(&self) -> OutfitView {
        OutfitView { name: self.name@, props: self.props@ }
    }
}

/// The views of a list of outfits.
pub open spec fn outfits_view(os: Seq<Outfit>) -> Seq<OutfitView> {
    Seq::new(os.len(), |i: int| os[i]@)
}

/// The names of a list of outfits.
pub open spec fn names_of(os: Seq<OutfitView>) -> Seq<Seq<char>> {
    Seq::new(os.len(), |i: int| os[i].name)
}

/// The first field of an object named `key`, from member `i` on.
pub open spec fn field_from(m: Seq<(Seq<char>, JsonValue)>, key: Seq<char>, i: int) -> Option<JsonValue>
    decreases m.len() - i,
{
    if i < 0 || i >= m.len() {
        None
    } else if m[i].0 == key {
        Some(m[i].1)
    } else {
        field_from(m, key, i + 1)
    }
}

/// `outfit <index>: `.
pub open spec fn outfit_prefix(index: int) -> Seq<char> {
    "outfit "@ + spec_decimal(index as nat) + ": "@
}

/// The key an `[id, crc]` reference names, or why it does not.
pub open spec fn key_of(r: JsonValue, index: int, position: int) -> Result<PropKey, Seq<char>> {
    match r {
        JsonValue::Array(pair) => if pair.len() != 2 {
            Err(outfit_prefix(index) + "prop "@ + spec_decimal(position as nat)
                + " does not have exactly two numbers"@)
        } else {
            match pair[0] {
                JsonValue::Int(id) => if id < i32::MIN || id > i32::MAX {
                    Err(outfit_prefix(index) + "prop id is outside the i32 range"@)
                } else {
                    match pair[1] {
                        JsonValue::Int(crc) => if crc < 0 || crc > u32::MAX {
                            Err(outfit_prefix(index) + "prop crc is outside the u32 range"@)
                        } else {
                            Ok(PropKey { id: id as i32, crc: crc as u32 })
                        },
                        _ => Err(outfit_prefix(index) + "prop crc is not an integer"@),
                    }
                },
                _ => Err(outfit_prefix(index) + "prop id is not an integer"@),
            }
        },
        _ => Err(outfit_prefix(index) + "prop "@ + spec_decimal(position as nat)
            + " is not an [id, crc] pair"@),
    }
}

/// The keys of the first `k` references, or the first reference's error.
pub open spec fn keys_upto(refs: Seq<JsonValue>, index: int, k: int) -> Result<Seq<PropKey>, Seq<char>>
    decreases k,
{
    if k <= 0 {
        Ok(Seq::empty())
    } else {
        match keys_upto(refs, index, k - 1) {
            Err(e) => Err(e),
            Ok(acc) => match key_of(refs[k - 1], index, k - 1) {
                Err(e) => Err(e),
                Ok(key) => Ok(acc.push(key)),
            },
        }
    }
}

/// The outfit one entry of the `outfits` array describes, or why it does not.
pub open spec fn outfit_of(entry: JsonValue, index: int) -> Result<OutfitView, Seq<char>> {
    match entry {
        JsonValue::Object(m) => match field_from(m, "name"@, 0) {
            None => Err(outfit_prefix(index) + "name is missing"@),
            Some(JsonValue::Str(name)) => if crate::text::trimmed(name).len() == 0 {
                Err(outfit_prefix(index) + "name is empty"@)
            } else {
                match field_from(m, "props"@, 0) {
                    None => Err(outfit_prefix(index) + "props is missing"@),
                    Some(JsonValue::Array(refs)) => match keys_upto(refs, index, refs.len() as int) {
                        Err(e) => Err(e),
                        Ok(keys) => Ok(OutfitView { name, props: keys }),
                    },
                    Some(_) => Err(outfit_prefix(index) + "props is not an array"@),
                }
            },
            Some(_) => Err(outfit_prefix(index) + "name is not a string"@),
        },
        _ => Err("outfit "@ + spec_decimal(index as nat) + " is not an object"@),
    }
}

/// The outfits of the first `k` entries, or the first entry's error.
pub open spec fn outfits_upto(entries: Seq<JsonValue>, k: int) -> Result<Seq<OutfitView>, Seq<char>>
    decreases k,
{
    if k <= 0 {
        Ok(Seq::empty())
    } else {
        match outfits_upto(entries, k - 1) {
            Err(e) => Err(e),
            Ok(acc) => match outfit_of(entries[k - 1], k - 1) {
                Err(e) => Err(e),
                Ok(o) => Ok(acc.push(o)),
            },
        }
    }
}

/// The outfits a parsed document lists, in file order and before duplicate
/// names are dropped, or why the document does not fit the schema.
pub open spec fn document_outfits(doc: JsonValue) -> Result<Seq<OutfitView>, Seq<char>> {
    match doc {
        JsonValue::Object(root) => match field_from(root, "version"@, 0) {
            None => Err("the version field is missing"@),
            Some(JsonValue::Int(v)) => if v != OUTFITS_VERSION {
                Err("unsupported version "@ + spec_signed_decimal(v as int)
                    + " (this build reads version 1)"@)
            } else {
                match field_from(root, "outfits"@, 0) {
                    None => Err("the outfits field is missing"@),
                    Some(JsonValue::Array(entries)) => outfits_upto(entries, entries.len() as int),
                    Some(_) => Err("the outfits field is not an array"@),
                }
            },
            Some(_) => Err("the version is not an integer"@),
        },
        _ => Err("the top level is not an object"@),
    }
}

/// Duplicate names resolved: the first outfit of a name is kept, later ones
/// are dropped and counted.
pub open spec fn dedupe(os: Seq<OutfitView>) -> (Seq<OutfitView>, nat)
    decreases os.len(),
{
    if os.len() == 0 {
        (Seq::empty(), 0)
    } else {
        let (kept, dropped) = dedupe(os.drop_last());
        if names_of(kept).contains(os.last().name) {
            (kept, dropped + 1)
        } else {
            (kept.push(os.last()), dropped)
        }
    }
}

/// What a document's text gives: its outfits (first name wins) and how many
/// duplicates were dropped, or the message that says why it was refused.
pub open spec fn spec_parse_outfits(text: Seq<char>) -> Result<(Seq<OutfitView>, nat), Seq<char>> {
    match document_at(vstd::utf8::encode_utf8(text)) {
        Err(e) => Err(json_error_text(e)),
        Ok(doc) => match document_outfits(doc) {
            Err(m) => Err(m),
            Ok(parsed) => Ok(dedupe(parsed)),
        },
    }
}

proof fn lemma_keys_err_stays(refs: Seq<JsonValue>, index: int, k: int, k2: int)
    requires
        0 < k <= k2,
        keys_upto(refs, index, k) is Err,
    ensures
        keys_upto(refs, index, k2) == keys_upto(refs, index, k),
    decreases k2 - k,
{
    if k2 > k {
        lemma_keys_err_stays(refs, index, k, k2 - 1);
    }
}

proof fn lemma_outfits_err_stays(entries: Seq<JsonValue>, k: int, k2: int)
    requires
        0 < k <= k2,
        outfits_upto(entries, k) is Err,
    ensures
        outfits_upto(entries, k2) == outfits_upto(entries, k),
    decreases k2 - k,
{
    if k2 > k {
        lemma_outfits_err_stays(entries, k, k2 - 1);
    }
}

/// The first field of an object named `key`.
fn object_field<'a>(m: &'a Vec<(String, Json)>, key: &str) -> (r: Option<&'a Json>)
    ensures
        match field_from(member_views(m@), key@, 0) {
            None => r is None,
            Some(v) => r matches Some(j) && json_view(*j) == v,
        },
{
    let mut i: usize = 0;
    while i < m.len()
        invariant
            i <= m@.len(),
            field_from(member_views(m@), key@, 0) == field_from(member_views(m@), key@, i as int),
        decreases m@.len() - i,
    {
        if crate::text::str_eq(m[i].0.as_str(), key) {
            return Some(&m[i].1);
        }
        i = i + 1;
    }
    None
}

/// `outfit <index>: <tail>`.
fn outfit_message(index: usize, tail: &str) -> (r: String)
    ensures
        r@ == outfit_prefix(index as int) + tail@,
{
    let mut out = String::from_str("outfit ");
    push_decimal(&mut out, index as u64);
    push_str(&mut out, ": ");
    push_str(&mut out, tail);
    proof {
        reveal_strlit("outfit ");
        reveal_strlit(": ");
    }
    assert(out@ =~= outfit_prefix(index as int) + tail@);
    out
}

/// `outfit <index>: prop <position><tail>`.
fn prop_message(index: usize, position: usize, tail: &str) -> (r: String)
    ensures
        r@ == outfit_prefix(index as int) + "prop "@ + spec_decimal(position as nat) + tail@,
{
    let mut out = outfit_message(index, "prop ");
    push_decimal(&mut out, position as u64);
    push_str(&mut out, tail);
    assert(out@ =~= outfit_prefix(index as int) + "prop "@ + spec_decimal(position as nat) + tail@);
    out
}

/// The key an `[id, crc]` reference names.
fn read_key(r: &Json, index: usize, position: usize) -> (k: Result<PropKey, String>)
    ensures
        match key_of(json_view(*r), index as int, position as int) {
            Ok(key) => k == Ok::<PropKey, String>(key),
            Err(m) => k matches Err(t) && t@ == m,
        },
{
    let pair = match r {
        Json::Array(pair) => pair,
        _ => {
            return Err(prop_message(index, position, " is not an [id, crc] pair"));
        },
    };
    proof {
        lemma_array_view(*pair);
    }
    if pair.len() != 2 {
        return Err(prop_message(index, position, " does not have exactly two numbers"));
    }
    let id = match &pair[0] {
        Json::Int(v) => *v,
        _ => {
            return Err(outfit_message(index, "prop id is not an integer"));
        },
    };
    if id < i32::MIN as i64 || id > i32::MAX as i64 {
        return Err(outfit_message(index, "prop id is outside the i32 range"));
    }
    let crc = match &pair[1] {
        Json::Int(v) => *v,
        _ => {
            return Err(outfit_message(index, "prop crc is not an integer"));
        },
    };
    if crc < 0 || crc > u32::MAX as i64 {
        return Err(outfit_message(index, "prop crc is outside the u32 range"));
    }
    Ok(PropKey::new(id as i32, crc as u32))
}

/// The outfit one entry describes.
fn read_outfit(entry: &Json, index: usize) -> (r: Result<Outfit, String>)
    ensures
        match outfit_of(json_view(*entry), index as int) {
            Ok(o) => r matches Ok(v) && v@ == o,
            Err(m) => r matches Err(t) && t@ == m,
        },
{
    let m = match entry {
        Json::Object(m) => m,
        _ => {
            let mut t = String::from_str("outfit ");
            push_decimal(&mut t, index as u64);
            push_str(&mut t, " is not an object");
            proof {
                reveal_strlit("outfit ");
            }
            return Err(t);
        },
    };
    proof {
        lemma_object_view(*m);
        reveal_strlit("name");
        reveal_strlit("props");
    }
    let name = match object_field(m, "name") {
        None => {
            return Err(outfit_message(index, "name is missing"));
        },
        Some(Json::Str(n)) => n,
        Some(_) => {
            return Err(outfit_message(index, "name is not a string"));
        },
    };
    let t = crate::text::trim(name.as_str());
    if t.unicode_len() == 0 {
        return Err(outfit_message(index, "name is empty"));
    }
    let refs = match object_field(m, "props") {
        None => {
            return Err(outfit_message(index, "props is missing"));
        },
        Some(Json::Array(refs)) => refs,
        Some(_) => {
            return Err(outfit_message(index, "props is not an array"));
        },
    };
    proof {
        lemma_array_view(*refs);
    }
    let ghost rv = views(refs@);
    let mut props: Vec<PropKey> = Vec::new();
    let mut position: usize = 0;
    while position < refs.len()
        invariant
            position <= refs@.len(),
            rv == views(refs@),
            keys_upto(rv, index as int, position as int) == Ok::<Seq<PropKey>, Seq<char>>(props@),
            outfit_of(json_view(*entry), index as int) == match keys_upto(rv, index as int, rv.len() as int) {
                Err(e) => Err(e),
                Ok(keys) => Ok(OutfitView { name: name@, props: keys }),
            },
        decreases refs@.len() - position,
    {
        let key = match read_key(&refs[position], index, position) {
            Ok(k) => k,
            Err(t) => {
                proof {
                    assert(rv[position as int] == json_view(refs@[position as int]));
                    assert(keys_upto(rv, index as int, position + 1) == Err::<Seq<PropKey>, Seq<char>>(
                        t@,
                    ));
                    lemma_keys_err_stays(rv, index as int, position + 1, refs@.len() as int);
                }
                return Err(t);
            },
        };
        proof {
            assert(rv[position as int] == json_view(refs@[position as int]));
        }
        props.push(key);
        position = position + 1;
    }
    Ok(Outfit { name: String::from_str(name.as_str()), props })
}

/// Parse and validate a version 1 document.
///
/// Returns the outfits in file order (the first outfit of a name wins)
/// together with the number of duplicates dropped. Any violation is an error
/// naming `path`, and yields no outfits at all.
pub fn parse_outfits(text: &str, path: &str) -> (r: Result<(Vec<Outfit>, usize), PropError>)
    ensures
        match spec_parse_outfits(text@) {
            Ok((os, d)) => r matches Ok((v, n)) && outfits_view(v@) == os && n == d,
            Err(m) => r matches Err(PropError::BagIo { detail }) && detail@ == path@ + ": "@ + m,
        },
{
    let doc = match parse_document(text.as_bytes()) {
        Ok(d) => d,
        Err(e) => {
            return Err(bag_error(path, json_error_message(e).as_str()));
        },
    };
    proof {
        reveal_strlit("version");
        reveal_strlit("outfits");
    }
    let root = match &doc {
        Json::Object(root) => root,
        _ => {
            return Err(bag_error(path, "the top level is not an object"));
        },
    };
    proof {
        lemma_object_view(*root);
    }
    let version = match object_field(root, "version") {
        Some(Json::Int(v)) => *v,
        Some(_) => {
            return Err(bag_error(path, "the version is not an integer"));
        },
        None => {
            return Err(bag_error(path, "the version field is missing"));
        },
    };
    if version != OUTFITS_VERSION as i64 {
        let mut m = String::from_str("unsupported version ");
        push_signed(&mut m, version);
        push_str(&mut m, " (this build reads version 1)");
        return Err(bag_error(path, m.as_str()));
    }
    let entries = match object_field(root, "outfits") {
        Some(Json::Array(entries)) => entries,
        Some(_) => {
            return Err(bag_error(path, "the outfits field is not an array"));
        },
        None => {
            return Err(bag_error(path, "the outfits field is missing"));
        },
    };
    proof {
        lemma_array_view(*entries);
    }
    let ghost ev = views(entries@);
    let mut parsed: Vec<Outfit> = Vec::new();
    let mut index: usize = 0;
    assert(outfits_view(parsed@) =~= Seq::empty());
    while index < entries.len()
        invariant
            index <= entries@.len(),
            parsed@.len() == index,
            ev == views(entries@),
            outfits_upto(ev, index as int) == Ok::<Seq<OutfitView>, Seq<char>>(outfits_view(parsed@)),
            spec_parse_outfits(text@) == match outfits_upto(ev, ev.len() as int) {
                Err(m) => Err(m),
                Ok(p) => Ok(dedupe(p)),
            },
        decreases entries@.len() - index,
    {
        proof {
            assert(ev[index as int] == json_view(entries@[index as int]));
        }
        let o = match read_outfit(&entries[index], index) {
            Ok(o) => o,
            Err(t) => {
                proof {
                    assert(outfits_upto(ev, index + 1) == Err::<Seq<OutfitView>, Seq<char>>(t@));
                    lemma_outfits_err_stays(ev, index + 1, ev.len() as int);
                }
                return Err(bag_error(path, t.as_str()));
            },
        };
        let ghost before = outfits_view(parsed@);
        parsed.push(o);
        assert(outfits_view(parsed@) =~= before.push(parsed@[index as int]@));
        index = index + 1;
    }
    assert(outfits_view(parsed@) == outfits_view(parsed@).subrange(0, parsed@.len() as int));
    let (outfits, dropped) = dedupe_outfits(parsed);
    Ok((outfits, dropped))
}

/// Keep the first outfit of each name; count the others.
fn dedupe_outfits(parsed: Vec<Outfit>) -> (r: (Vec<Outfit>, usize))
    ensures
        (outfits_view(r.0@), r.1 as nat) == dedupe(outfits_view(parsed@)),
{
    let mut kept: Vec<Outfit> = Vec::new();
    let mut dropped: usize = 0;
    let mut i: usize = 0;
    let ghost pv = outfits_view(parsed@);
    while i < parsed.len()
        invariant
            i <= parsed@.len(),
            pv == outfits_view(parsed@),
            dropped <= i,
            (outfits_view(kept@), dropped as nat) == dedupe(pv.subrange(0, i as int)),
        decreases parsed@.len() - i,
    {
        let ghost prefix = pv.subrange(0, i as int);
        assert(pv.subrange(0, i + 1).drop_last() =~= prefix);
        let taken = name_taken(&kept, parsed[i].name.as_str());
        if taken {
            dropped = dropped + 1;
        } else {
            let o = Outfit { name: String::from_str(parsed[i].name.as_str()), props: copy_keys(parsed[i].props.as_slice()) };
            let ghost before = outfits_view(kept@);
            kept.push(o);
            assert(outfits_view(kept@) =~= before.push(pv[i as int]));
        }
        i = i + 1;
    }
    assert(pv.subrange(0, i as int) =~= pv);
    (kept, dropped)
}

/// Whether some outfit already uses `name`.
fn name_taken(outfits: &Vec<Outfit>, name: &str) -> (r: bool)
    ensures
        r == names_of(outfits_view(outfits@)).contains(name@),
{
    let mut i: usize = 0;
    while i < outfits.len()
        invariant
            i <= outfits@.len(),
            forall|k: int| 0 <= k < i ==> outfits@[k].name@ != name@,
        decreases outfits@.len() - i,
    {
        if crate::text::str_eq(outfits[i].name.as_str(), name) {
            proof {
                assert(names_of(outfits_view(outfits@))[i as int] == name@);
            }
            return true;
        }
        i = i + 1;
    }
    proof {
        if names_of(outfits_view(outfits@)).contains(name@) {
            let k = choose|k: int| 0 <= k < names_of(outfits_view(outfits@)).len() && names_of(outfits_view(outfits@))[k] == name@;
            assert(outfits@[k].name@ == name@);
        }
    }
    false
}

/// A copy of a key list.
fn copy_keys(keys: &[PropKey]) -> (r: Vec<PropKey>)
    ensures
        r@ == keys@,
{
    let mut out: Vec<PropKey> = Vec::new();
    let mut i: usize = 0;
    while i < keys.len()
        invariant
            i <= keys@.len(),
            out@ == keys@.subrange(0, i as int),
        decreases keys@.len() - i,
    {
        out.push(keys[i]);
        i = i + 1;
        assert(out@ =~= keys@.subrange(0, i as int));
    }
    assert(keys@.subrange(0, i as int) =~= keys@);
    out
}

/// `invalid JSON at byte <n>: <fault>`.
fn json_error_message(e: JsonError) -> (r: String)
    ensures
        r@ == json_error_text(e),
{
    let mut out = String::from_str("invalid JSON at byte ");
    push_decimal(&mut out, e.position as u64);
    push_str(&mut out, ": ");
    push_str(&mut out, e.fault.text());
    proof {
        reveal_strlit("invalid JSON at byte ");
    }
    assert(out@ =~= json_error_text(e));
    out
}

/// An outfits error naming the file it concerns: `<path>: <detail>`.
fn bag_error(path: &str, detail: &str) -> (r: PropError)
    ensures
        r matches PropError::BagIo { detail: d } && d@ == path@ + ": "@ + detail@,
{
    let mut text = String::from_str(path);
    push_str(&mut text, ": ");
    push_str(&mut text, detail);
    PropError::BagIo { detail: text }
}

// ---------------------------------------------------------------------------
// Rendering
// ---------------------------------------------------------------------------

/// A string as a JSON string literal; control characters become escapes.
pub open spec fn spec_quote(value: Seq<char>) -> Seq<char> {
    seq!['"'] + crate::json::json_escape(value) + seq!['"']
}

/// Quote and escape a string as a JSON string literal.
pub fn quote(value: &str) -> (r: String)
    ensures
        r@ == spec_quote(value@),
{
    let mut out = String::new();
    crate::text::push_char(&mut out, '"');
    crate::json::escape_json_into(value, &mut out);
    crate::text::push_char(&mut out, '"');
    assert(out@ =~= spec_quote(value@));
    out
}

/// `,` unless this is the last item.
pub open spec fn comma(last: bool) -> Seq<char> {
    if last {
        Seq::empty()
    } else {
        seq![',']
    }
}

/// One `[id, crc]` line.
pub open spec fn key_line(k: PropKey, last: bool) -> Seq<char> {
    "        ["@ + spec_signed_decimal(k.id as int) + ", "@ + spec_decimal(k.crc as nat) + "]"@
        + comma(last) + "\n"@
}

/// The lines of the first `n` keys of a list.
pub open spec fn key_lines(keys: Seq<PropKey>, n: int) -> Seq<char>
    decreases n,
{
    if n <= 0 {
        Seq::empty()
    } else {
        key_lines(keys, n - 1) + key_line(keys[n - 1], n == keys.len())
    }
}

/// One outfit's block.
pub open spec fn outfit_block(o: OutfitView, last: bool) -> Seq<char> {
    "    {\n"@ + "      \"name\": "@ + spec_quote(o.name) + ",\n"@ + (if o.props.len() == 0 {
        "      \"props\": []\n"@
    } else {
        "      \"props\": [\n"@ + key_lines(o.props, o.props.len() as int) + "      ]\n"@
    }) + "    }"@ + comma(last) + "\n"@
}

/// The blocks of the first `n` outfits of a list.
pub open spec fn outfit_blocks(os: Seq<OutfitView>, n: int) -> Seq<char>
    decreases n,
{
    if n <= 0 {
        Seq::empty()
    } else {
        outfit_blocks(os, n - 1) + outfit_block(os[n - 1], n == os.len())
    }
}

/// The version 1 document of a list of outfits: pretty-printed, ending with
/// a newline.
pub open spec fn spec_render(os: Seq<OutfitView>) -> Seq<char> {
    "{\n"@ + "  \"version\": 1,\n"@ + if os.len() == 0 {
        "  \"outfits\": []\n}\n"@
    } else {
        "  \"outfits\": [\n"@ + outfit_blocks(os, os.len() as int) + "  ]\n}\n"@
    }
}

fn push_block(out: &mut String, o: &Outfit, last: bool)
    ensures
        final(out)@ == old(out)@ + outfit_block(o@, last),
{
    let ghost start = out@;
    push_str(out, "    {\n");
    push_str(out, "      \"name\": ");
    let q = quote(o.name.as_str());
    push_str(out, q.as_str());
    push_str(out, ",\n");
    let ghost mid = out@;
    if o.props.len() == 0 {
        push_str(out, "      \"props\": []\n");
    } else {
        push_str(out, "      \"props\": [\n");
        let n = o.props.len();
        let mut i: usize = 0;
        while i < n
            invariant
                n == o.props@.len(),
                i <= n,
                out@ == mid + "      \"props\": [\n"@ + key_lines(o.props@, i as int),
            decreases n - i,
        {
            let k = o.props[i];
            let ghost before = out@;
            push_str(out, "        [");
            push_signed(out, k.id as i64);
            push_str(out, ", ");
            push_decimal(out, k.crc as u64);
            push_str(out, "]");
            if i + 1 != n {
                push_str(out, ",");
            }
            push_str(out, "\n");
            proof {
                reveal_strlit(",");
                assert(comma(i + 1 == n) == (if i + 1 == n { ""@ } else { ","@ })) by {
                    reveal_strlit("");
                }
                assert(out@ =~= before + key_line(k, i + 1 == n));
            }
            i = i + 1;
        }
        push_str(out, "      ]\n");
    }
    push_str(out, "    }");
    if !last {
        push_str(out, ",");
    }
    push_str(out, "\n");
    proof {
        reveal_strlit(",");
        reveal_strlit("");
        assert(out@ =~= start + outfit_block(o@, last));
    }
}

/// Serialise the outfits as the version 1 document.
pub fn render(outfits: &[Outfit]) -> (r: String)
    ensures
        r@ == spec_render(outfits_view(outfits@)),
{
    let mut out = String::new();
    push_str(&mut out, "{\n");
    push_str(&mut out, "  \"version\": 1,\n");
    let ghost head = out@;
    let ghost ov = outfits_view(outfits@);
    if outfits.len() == 0 {
        push_str(&mut out, "  \"outfits\": []\n}\n");
        assert(out@ =~= spec_render(ov));
        return out;
    }
    push_str(&mut out, "  \"outfits\": [\n");
    let n = outfits.len();
    let mut i: usize = 0;
    while i < n
        invariant
            n == outfits@.len(),
            ov == outfits_view(outfits@),
            i <= n,
            out@ == head + "  \"outfits\": [\n"@ + outfit_blocks(ov, i as int),
        decreases n - i,
    {
        push_block(&mut out, &outfits[i], i + 1 == n);
        i = i + 1;
    }
    push_str(&mut out, "  ]\n}\n");
    assert(out@ =~= spec_render(ov));
    out
}

// ---------------------------------------------------------------------------
// The store
// ---------------------------------------------------------------------------

/// Whether no two outfits share a name.
pub open spec fn unique_names(os: Seq<OutfitView>) -> bool {
    forall|i: int, j: int| 0 <= i < j < os.len() ==> os[i].name != os[j].name
}

/// What reading the outfits file gave the caller.
#[derive(Debug)]
pub enum OutfitRead {
    /// There is no file yet: a normal first run.
    NotFound,
    /// The file could not be read; the reason.
    Failed(String),
    /// The file's bytes.
    Contents(Vec<u8>),
}

/// A staged change: the outfits the store will hold and the document to
/// write first.
#[derive(Debug)]
pub struct OutfitChange {
    outfits: Vec<Outfit>,
    document: String,
}

/// The abstract content of a staged change.
pub struct ChangeView {
    /// The outfits after the change.
    pub outfits: Seq<OutfitView>,
    /// The document to write.
    pub document: Seq<char>,
}

impl View for OutfitChange {
    type V = ChangeView;

    closed spec fn view(&self) -> ChangeView {
        ChangeView { outfits: outfits_view(self.outfits@), document: self.document@ }
    }
}

impl OutfitChange {
    /// The change keeps names unique and its document is its list's.
    #[verifier::type_invariant]
    spec fn well_formed(self) -> bool {
        &&& unique_names(outfits_view(self.outfits@))
        &&& self.document@ == spec_render(outfits_view(self.outfits@))
    }

    /// The document to write before committing.
    pub fn document(&self) -> (r: &str)
        ensures
            r@ == self@.document,
            r@ == spec_render(self@.outfits),
    {
        proof {
            use_type_invariant(self);
        }
        self.document.as_str()
    }

    /// The outfits the store holds once the change is committed.
    pub fn outfits(&self) -> (r: &[Outfit])
        ensures
            outfits_view(r@) == self@.outfits,
            unique_names(self@.outfits),
    {
        proof {
            use_type_invariant(self);
        }
        self.outfits.as_slice()
    }
}

/// The outfits file plus the list it parsed.
#[derive(Debug)]
pub struct OutfitStore {
    path: Option<String>,
    context: BagContext,
    outfits: Vec<Outfit>,
    load_error: Option<PropError>,
    dropped_duplicates: usize,
}

/// The abstract state of an outfit store.
pub struct StoreView {
    /// The file's path; `None` when no bag folder is configured.
    pub path: Option<Seq<char>>,
    /// The outfits, in file order.
    pub outfits: Seq<OutfitView>,
    /// Why the last load produced an empty list, when it did.
    pub load_error: Option<PropError>,
    /// How many outfits the last load dropped for a taken name.
    pub dropped: nat,
}

impl View for OutfitStore {
    type V = StoreView;

    closed spec fn view(&self) -> StoreView {
        StoreView {
            path: match self.path {
                Some(p) => Some(p@),
                None => None,
            },
            outfits: outfits_view(self.outfits@),
            load_error: self.load_error,
            dropped: self.dropped_duplicates as nat,
        }
    }
}

/// The file a bag folder's outfits live in.
pub open spec fn store_path(context: BagContext) -> Option<Seq<char>> {
    match context.bag_root {
        Some(root) => Some(crate::bag_folder::join_text(root@, crate::bag_folder::OUTFITS_FILE_NAME@)),
        None => None,
    }
}

/// The text of the error for a store with no bag folder behind it.
pub open spec fn no_folder_text() -> Seq<char> {
    "outfits: no bag folder configured (set PALACE_PROP_BAG_DIR or a home directory)"@
}

/// What a load gives: the outfits, the duplicates dropped, and the error
/// (`None` for none; `Some(None)` for one whose text is the decoder's).
pub open spec fn spec_load(
    path: Option<Seq<char>>,
    context: BagContext,
    read: OutfitRead,
) -> (Seq<OutfitView>, nat, Option<Option<Seq<char>>>) {
    match path {
        None => (Seq::empty(), 0, Some(Some(no_folder_text()))),
        Some(p) => if crate::bag_folder::spec_classify(
            p,
            crate::bag_folder::opt_str(context.bag_root),
            crate::bag_folder::opt_str(context.home),
        ) != BagRole::MyBag {
            (Seq::empty(), 0, Some(Some(p + ": "@ + "refusing to read; not a bag-owned outfits file"@)))
        } else {
            match read {
                OutfitRead::NotFound => (Seq::empty(), 0, None),
                OutfitRead::Failed(d) => (Seq::empty(), 0, Some(Some(p + ": "@ + d@))),
                OutfitRead::Contents(bytes) => if !vstd::utf8::valid_utf8(bytes@) {
                    (Seq::empty(), 0, Some(None))
                } else {
                    match spec_parse_outfits(vstd::utf8::decode_utf8(bytes@)) {
                        Ok((os, d)) => (os, d, None),
                        Err(m) => (Seq::empty(), 0, Some(Some(p + ": "@ + m))),
                    }
                },
            }
        },
    }
}

/// Whether a recorded load error is the one a load outcome names.
pub open spec fn error_matches(e: Option<PropError>, want: Option<Option<Seq<char>>>) -> bool {
    match want {
        None => e is None,
        Some(None) => e matches Some(PropError::BagIo { .. }),
        Some(Some(t)) => e matches Some(PropError::BagIo { detail }) && detail@ == t,
    }
}

proof fn lemma_dedupe_unique(os: Seq<OutfitView>)
    ensures
        unique_names(dedupe(os).0),
        names_of(dedupe(os).0).len() == dedupe(os).0.len(),
    decreases os.len(),
{
    if os.len() > 0 {
        lemma_dedupe_unique(os.drop_last());
        let (kept, _) = dedupe(os.drop_last());
        if !names_of(kept).contains(os.last().name) {
            let k2 = kept.push(os.last());
            assert forall|i: int, j: int| 0 <= i < j < k2.len() implies k2[i].name != k2[j].name by {
                if j == kept.len() {
                    assert(names_of(kept)[i] == kept[i].name);
                }
            }
        }
    }
}

/// The first outfit named `name`, from `i` on.
pub open spec fn first_named(os: Seq<OutfitView>, name: Seq<char>, i: int) -> Option<int>
    decreases os.len() - i,
{
    if i < 0 || i >= os.len() {
        None
    } else if os[i].name == name {
        Some(i)
    } else {
        first_named(os, name, i + 1)
    }
}

proof fn lemma_first_named(os: Seq<OutfitView>, name: Seq<char>, i: int)
    requires
        0 <= i,
    ensures
        match first_named(os, name, i) {
            Some(k) => i <= k < os.len() && os[k].name == name && forall|j: int| i <= j < k ==> os[j].name != name,
            None => forall|j: int| i <= j < os.len() ==> os[j].name != name,
        },
    decreases os.len() - i,
{
    if i < os.len() && os[i].name != name {
        lemma_first_named(os, name, i + 1);
    }
}

/// `outfits: the name must not be empty`.
pub open spec fn empty_name_text() -> Seq<char> {
    "outfits: the name must not be empty"@
}

/// `outfits: no outfit named "<name>"`.
pub open spec fn not_found_text(name: Seq<char>) -> Seq<char> {
    "outfits: no outfit named \""@ + name + "\""@
}

/// `outfits: an outfit named "<name>" already exists`.
pub open spec fn taken_text(name: Seq<char>) -> Seq<char> {
    "outfits: an outfit named \""@ + name + "\" already exists"@
}

/// A staged list, checked against the store's path last.
pub open spec fn staged(v: StoreView, list: Result<Seq<OutfitView>, Seq<char>>) -> Result<Seq<OutfitView>, Seq<char>> {
    match list {
        Err(e) => Err(e),
        Ok(l) => if v.path is None {
            Err(no_folder_text())
        } else {
            Ok(l)
        },
    }
}

/// The list `save_worn` stages: the named outfit's props replaced, or a new
/// outfit appended.
pub open spec fn spec_save_worn(v: StoreView, name: Seq<char>, worn: Seq<PropKey>) -> Result<Seq<OutfitView>, Seq<char>> {
    let n = crate::text::trimmed(name);
    if n.len() == 0 {
        Err(empty_name_text())
    } else {
        staged(
            v,
            Ok(
                match first_named(v.outfits, n, 0) {
                    Some(k) => v.outfits.update(k, OutfitView { name: n, props: worn }),
                    None => v.outfits.push(OutfitView { name: n, props: worn }),
                },
            ),
        )
    }
}

/// The list `rename` stages.
pub open spec fn spec_rename(v: StoreView, from: Seq<char>, to: Seq<char>) -> Result<Seq<OutfitView>, Seq<char>> {
    let f = crate::text::trimmed(from);
    let t = crate::text::trimmed(to);
    if t.len() == 0 {
        Err(empty_name_text())
    } else {
        staged(
            v,
            match first_named(v.outfits, f, 0) {
                None => Err(not_found_text(f)),
                Some(k) => if v.outfits[k].name == t {
                    Ok(v.outfits)
                } else if names_of(v.outfits).contains(t) {
                    Err(taken_text(t))
                } else {
                    Ok(v.outfits.update(k, OutfitView { name: t, props: v.outfits[k].props }))
                },
            },
        )
    }
}

/// The list `delete` stages.
pub open spec fn spec_delete(v: StoreView, name: Seq<char>) -> Result<Seq<OutfitView>, Seq<char>> {
    let n = crate::text::trimmed(name);
    staged(
        v,
        match first_named(v.outfits, n, 0) {
            None => Err(not_found_text(n)),
            Some(k) => Ok(v.outfits.remove(k)),
        },
    )
}

/// The list `duplicate` stages: the copy directly after its source.
pub open spec fn spec_duplicate(v: StoreView, source: Seq<char>, target: Seq<char>) -> Result<Seq<OutfitView>, Seq<char>> {
    let sn = crate::text::trimmed(source);
    let t = crate::text::trimmed(target);
    if t.len() == 0 {
        Err(empty_name_text())
    } else {
        staged(
            v,
            match first_named(v.outfits, sn, 0) {
                None => Err(not_found_text(sn)),
                Some(k) => if names_of(v.outfits).contains(t) {
                    Err(taken_text(t))
                } else {
                    Ok(v.outfits.insert(k + 1, OutfitView { name: t, props: v.outfits[k].props }))
                },
            },
        )
    }
}

/// Whether a staging result is the one a spec names.
pub open spec fn change_matches(r: Result<OutfitChange, PropError>, want: Result<Seq<OutfitView>, Seq<char>>) -> bool {
    match want {
        Err(t) => r matches Err(PropError::BagIo { detail }) && detail@ == t,
        Ok(l) => r matches Ok(c) && c@.outfits == l && c@.document == spec_render(l),
    }
}

fn text_error(t: String) -> (r: PropError)
    ensures
        r == (PropError::BagIo { detail: t }),
{
    PropError::BagIo { detail: t }
}

fn quoted_error(head: &str, name: &str, tail: &str) -> (r: PropError)
    ensures
        r matches PropError::BagIo { detail } && detail@ == head@ + name@ + tail@,
{
    let mut t = String::from_str(head);
    push_str(&mut t, name);
    push_str(&mut t, tail);
    PropError::BagIo { detail: t }
}

fn not_found(name: &str) -> (r: PropError)
    ensures
        r matches PropError::BagIo { detail } && detail@ == not_found_text(name@),
{
    quoted_error("outfits: no outfit named \"", name, "\"")
}

fn name_taken_error(name: &str) -> (r: PropError)
    ensures
        r matches PropError::BagIo { detail } && detail@ == taken_text(name@),
{
    quoted_error("outfits: an outfit named \"", name, "\" already exists")
}

fn no_bag_folder() -> (r: PropError)
    ensures
        r matches PropError::BagIo { detail } && detail@ == no_folder_text(),
{
    PropError::BagIo {
        detail: String::from_str(
            "outfits: no bag folder configured (set PALACE_PROP_BAG_DIR or a home directory)",
        ),
    }
}

fn empty_name() -> (r: PropError)
    ensures
        r matches PropError::BagIo { detail } && detail@ == empty_name_text(),
{
    PropError::BagIo { detail: String::from_str("outfits: the name must not be empty") }
}

/// The index of the first outfit named `name`.
fn position_of(outfits: &Vec<Outfit>, name: &str) -> (r: Option<usize>)
    ensures
        match first_named(outfits_view(outfits@), name@, 0) {
            Some(k) => r matches Some(i) && i as int == k,
            None => r is None,
        },
{
    let ghost ov = outfits_view(outfits@);
    let mut i: usize = 0;
    while i < outfits.len()
        invariant
            i <= outfits@.len(),
            ov == outfits_view(outfits@),
            first_named(ov, name@, 0) == first_named(ov, name@, i as int),
        decreases outfits@.len() - i,
    {
        if crate::text::str_eq(outfits[i].name.as_str(), name) {
            return Some(i);
        }
        i = i + 1;
    }
    None
}

/// A copy of an outfit list.
fn copy_outfits(outfits: &Vec<Outfit>) -> (r: Vec<Outfit>)
    ensures
        outfits_view(r@) == outfits_view(outfits@),
{
    let mut out: Vec<Outfit> = Vec::new();
    let mut i: usize = 0;
    while i < outfits.len()
        invariant
            i <= outfits@.len(),
            out@.len() == i,
            outfits_view(out@) == outfits_view(outfits@).subrange(0, i as int),
        decreases outfits@.len() - i,
    {
        let o = Outfit { name: String::from_str(outfits[i].name.as_str()), props: copy_keys(outfits[i].props.as_slice()) };
        let ghost before = outfits_view(out@);
        out.push(o);
        assert(outfits_view(out@) =~= outfits_view(outfits@).subrange(0, i + 1));
        i = i + 1;
    }
    assert(outfits_view(outfits@).subrange(0, i as int) =~= outfits_view(outfits@));
    out
}

proof fn lemma_unique_update(os: Seq<OutfitView>, k: int, o: OutfitView)
    requires
        unique_names(os),
        0 <= k < os.len(),
        o.name == os[k].name || !names_of(os).contains(o.name),
    ensures
        unique_names(os.update(k, o)),
{
    let u = os.update(k, o);
    assert forall|i: int, j: int| 0 <= i < j < u.len() implies u[i].name != u[j].name by {
        if i == k && o.name != os[k].name {
            assert(names_of(os)[j] == os[j].name);
        } else if j == k && o.name != os[k].name {
            assert(names_of(os)[i] == os[i].name);
        }
    }
}

proof fn lemma_unique_push(os: Seq<OutfitView>, o: OutfitView)
    requires
        unique_names(os),
        !names_of(os).contains(o.name),
    ensures
        unique_names(os.push(o)),
{
    let u = os.push(o);
    assert forall|i: int, j: int| 0 <= i < j < u.len() implies u[i].name != u[j].name by {
        if j == os.len() {
            assert(names_of(os)[i] == os[i].name);
        }
    }
}

proof fn lemma_unique_insert(os: Seq<OutfitView>, k: int, o: OutfitView)
    requires
        unique_names(os),
        0 <= k <= os.len(),
        !names_of(os).contains(o.name),
    ensures
        unique_names(os.insert(k, o)),
{
    let u = os.insert(k, o);
    assert forall|i: int, j: int| 0 <= i < j < u.len() implies u[i].name != u[j].name by {
        if i == k {
            assert(names_of(os)[j - 1] == os[j - 1].name);
        } else if j == k {
            assert(names_of(os)[i] == os[i].name);
        }
    }
}

proof fn lemma_unique_remove(os: Seq<OutfitView>, k: int)
    requires
        unique_names(os),
        0 <= k < os.len(),
    ensures
        unique_names(os.remove(k)),
{
}

/// A parsed document's outfits have unique names.
pub proof fn lemma_parse_unique(text: Seq<char>)
    ensures
        spec_parse_outfits(text) matches Ok((os, _)) ==> unique_names(os),
{
    match document_at(vstd::utf8::encode_utf8(text)) {
        Ok(doc) => match document_outfits(doc) {
            Ok(parsed) => lemma_dedupe_unique(parsed),
            Err(_) => {},
        },
        Err(_) => {},
    }
}

/// A staged change over a list whose names are unique.
fn make_change(outfits: Vec<Outfit>) -> (r: OutfitChange)
    requires
        unique_names(outfits_view(outfits@)),
    ensures
        r@.outfits == outfits_view(outfits@),
        r@.document == spec_render(outfits_view(outfits@)),
{
    let document = render(outfits.as_slice());
    OutfitChange { outfits, document }
}

impl OutfitStore {
    /// Names stay unique.
    #[verifier::type_invariant]
    spec fn names_unique(self) -> bool {
        unique_names(outfits_view(self.outfits@))
    }

    /// Open the outfits file of `context`'s bag folder, from what reading it
    /// gave. Never fails: a missing file is an empty store, an unreadable or
    /// corrupt one is an empty store plus a load error. The file is only
    /// read, never touched.
    pub fn open(context: BagContext, read: OutfitRead) -> (r: Self)
        ensures
            r@.path == store_path(context),
            r@.outfits == spec_load(store_path(context), context, read).0,
            r@.dropped == spec_load(store_path(context), context, read).1,
            error_matches(r@.load_error, spec_load(store_path(context), context, read).2),
    {
        let path = match &context.bag_root {
            Some(root) => Some(outfits_path(root.as_str())),
            None => None,
        };
        let mut store = OutfitStore {
            path,
            context,
            outfits: Vec::new(),
            load_error: None,
            dropped_duplicates: 0,
        };
        store.reload(read);
        store
    }

    /// The bag folder this store reads and writes through.
    pub closed spec fn context_view(&self) -> BagContext {
        self.context
    }

    /// Re-parse the file from what reading it gave, replacing the in-memory
    /// list. Never fails, never writes.
    pub fn reload(&mut self, read: OutfitRead)
        ensures
            final(self)@.path == old(self)@.path,
            final(self).context_view() == old(self).context_view(),
            final(self)@.outfits == spec_load(old(self)@.path, old(self).context_view(), read).0,
            final(self)@.dropped == spec_load(old(self)@.path, old(self).context_view(), read).1,
            error_matches(
                final(self)@.load_error,
                spec_load(old(self)@.path, old(self).context_view(), read).2,
            ),
            unique_names(final(self)@.outfits),
    {
        let ghost want = spec_load(self@.path, self.context, read);
        self.outfits = Vec::new();
        self.load_error = None;
        self.dropped_duplicates = 0;
        assert(outfits_view(self.outfits@) =~= Seq::empty());
        let p = match &self.path {
            None => {
                self.load_error = Some(no_bag_folder());
                return;
            },
            Some(p) => String::from_str(p.as_str()),
        };
        match self.context.classify(p.as_str()) {
            BagRole::MyBag => {},
            _ => {
                self.load_error = Some(bag_error(p.as_str(), "refusing to read; not a bag-owned outfits file"));
                proof {
                    reveal_strlit("refusing to read; not a bag-owned outfits file");
                }
                return;
            },
        }
        match read {
            OutfitRead::NotFound => {},
            OutfitRead::Failed(reason) => {
                self.load_error = Some(bag_error(p.as_str(), reason.as_str()));
            },
            OutfitRead::Contents(bytes) => {
                let text = match crate::trash_doc::utf8_string(bytes) {
                    Ok(t) => t,
                    Err(e) => {
                        let mut d = String::from_str("file is not valid UTF-8: ");
                        push_str(&mut d, e.as_str());
                        self.load_error = Some(bag_error(p.as_str(), d.as_str()));
                        return;
                    },
                };
                match parse_outfits(text.as_str(), p.as_str()) {
                    Ok((outfits, dropped)) => {
                        proof {
                            lemma_parse_unique(text@);
                        }
                        self.outfits = outfits;
                        self.dropped_duplicates = dropped;
                    },
                    Err(e) => {
                        self.load_error = Some(e);
                    },
                }
            },
        }
    }

    /// The file this store reads and writes; `None` when no bag folder is
    /// configured.
    pub fn path(&self) -> (r: Option<&str>)
        ensures
            match self@.path {
                Some(p) => r matches Some(s) && s@ == p,
                None => r is None,
            },
    {
        match &self.path {
            Some(p) => Some(p.as_str()),
            None => None,
        }
    }

    /// Why the last load produced an empty list; `None` after a good load or
    /// a missing file.
    pub fn load_error(&self) -> (r: Option<&PropError>)
        ensures
            match self@.load_error {
                Some(e) => r == Some(&e),
                None => r is None,
            },
    {
        match &self.load_error {
            Some(e) => Some(e),
            None => None,
        }
    }

    /// How many outfits the last load dropped because a previous outfit
    /// already used the same name.
    pub fn dropped_duplicates(&self) -> (r: usize)
        ensures
            r == self@.dropped,
    {
        self.dropped_duplicates
    }

    /// Every outfit, in file order.
    pub fn outfits(&self) -> (r: &[Outfit])
        ensures
            outfits_view(r@) == self@.outfits,
            unique_names(self@.outfits),
    {
        proof {
            use_type_invariant(self);
        }
        self.outfits.as_slice()
    }

    /// Every outfit name, in file order.
    pub fn names(&self) -> (r: Vec<&str>)
        ensures
            r@.len() == self@.outfits.len(),
            forall|i: int| 0 <= i < r@.len() ==> r@[i]@ == self@.outfits[i].name,
    {
        let mut out: Vec<&str> = Vec::new();
        let mut i: usize = 0;
        while i < self.outfits.len()
            invariant
                i <= self.outfits@.len(),
                out@.len() == i,
                forall|k: int| 0 <= k < i ==> out@[k]@ == self.outfits@[k].name@,
            decreases self.outfits@.len() - i,
        {
            out.push(self.outfits[i].name.as_str());
            i = i + 1;
        }
        out
    }

    /// The outfit with this exact name, if any.
    pub fn get(&self, name: &str) -> (r: Option<&Outfit>)
        ensures
            match first_named(self@.outfits, name@, 0) {
                Some(k) => r matches Some(o) && o@ == self@.outfits[k],
                None => r is None,
            },
    {
        proof {
            lemma_first_named(self@.outfits, name@, 0);
        }
        match position_of(&self.outfits, name) {
            Some(k) => Some(&self.outfits[k]),
            None => None,
        }
    }

    /// Number of outfits.
    pub fn len(&self) -> (r: usize)
        ensures
            r == self@.outfits.len(),
    {
        self.outfits.len()
    }

    /// Whether there are no outfits.
    pub fn is_empty(&self) -> (r: bool)
        ensures
            r == (self@.outfits.len() == 0),
    {
        self.outfits.len() == 0
    }

    /// The exact document text a save writes, for inspection.
    pub fn to_json(&self) -> (r: String)
        ensures
            r@ == spec_render(self@.outfits),
    {
        render(self.outfits.as_slice())
    }

    /// Stage recording `worn` as the outfit called `name`.
    ///
    /// The name is trimmed first; an empty name is refused. An existing
    /// outfit with the same name is replaced in place; a new name is
    /// appended. The caller writes the change's document, then commits it.
    pub fn save_worn(&self, name: &str, worn: &[PropKey]) -> (r: Result<OutfitChange, PropError>)
        ensures
            change_matches(r, spec_save_worn(self@, name@, worn@)),
    {
        proof {
            use_type_invariant(self);
        }
        let n = crate::text::trim(name);
        if n.unicode_len() == 0 {
            return Err(empty_name());
        }
        let mut candidate = copy_outfits(&self.outfits);
        let keys = copy_keys(worn);
        let ghost ov = outfits_view(candidate@);
        match position_of(&candidate, n.as_str()) {
            Some(k) => {
                proof {
                    lemma_first_named(ov, n@, 0);
                    assert(first_named(ov, n@, 0) == Some(k as int));
                    assert(ov[k as int].name == n@);
                }
                let o = Outfit { name: n, props: keys };
                let ghost ow = o@;
                candidate.set(k, o);
                assert(outfits_view(candidate@) =~= ov.update(k as int, ow));
                proof {
                    lemma_unique_update(ov, k as int, ow);
                }
            },
            None => {
                proof {
                    lemma_first_named(ov, n@, 0);
                    if names_of(ov).contains(n@) {
                        let j = choose|j: int| 0 <= j < names_of(ov).len() && names_of(ov)[j] == n@;
                        assert(ov[j].name == n@);
                    }
                }
                let o = Outfit { name: n, props: keys };
                let ghost ow = o@;
                candidate.push(o);
                assert(outfits_view(candidate@) =~= ov.push(ow));
                proof {
                    lemma_unique_push(ov, ow);
                }
            },
        }
        if self.path.is_none() {
            return Err(no_bag_folder());
        }
        Ok(make_change(candidate))
    }
}

impl OutfitStore {
    /// Stage renaming `from` to `to`.
    ///
    /// Refused when `from` is unknown, when `to` belongs to a different
    /// outfit, or when `to` is empty. Renaming an outfit to its own name
    /// stages the list unchanged.
    pub fn rename(&self, from: &str, to: &str) -> (r: Result<OutfitChange, PropError>)
        ensures
            change_matches(r, spec_rename(self@, from@, to@)),
    {
        proof {
            use_type_invariant(self);
        }
        let from = crate::text::trim(from);
        let to = crate::text::trim(to);
        if to.unicode_len() == 0 {
            return Err(empty_name());
        }
        let mut candidate = copy_outfits(&self.outfits);
        let ghost ov = outfits_view(candidate@);
        let k = match position_of(&candidate, from.as_str()) {
            Some(k) => k,
            None => {
                return Err(not_found(from.as_str()));
            },
        };
        proof {
            lemma_first_named(ov, from@, 0);
        }
        if crate::text::str_eq(candidate[k].name.as_str(), to.as_str()) {
            if self.path.is_none() {
                return Err(no_bag_folder());
            }
            return Ok(make_change(candidate));
        }
        if name_taken(&candidate, to.as_str()) {
            return Err(name_taken_error(to.as_str()));
        }
        let props = copy_keys(candidate[k].props.as_slice());
        let o = Outfit { name: to, props };
        let ghost ow = o@;
        candidate.set(k, o);
        assert(outfits_view(candidate@) =~= ov.update(k as int, ow));
        proof {
            lemma_unique_update(ov, k as int, ow);
        }
        if self.path.is_none() {
            return Err(no_bag_folder());
        }
        Ok(make_change(candidate))
    }

    /// Stage deleting the outfit called `name`. Refused when the name is
    /// unknown.
    pub fn delete(&self, name: &str) -> (r: Result<OutfitChange, PropError>)
        ensures
            change_matches(r, spec_delete(self@, name@)),
    {
        proof {
            use_type_invariant(self);
        }
        let name = crate::text::trim(name);
        let mut candidate = copy_outfits(&self.outfits);
        let ghost ov = outfits_view(candidate@);
        let k = match position_of(&candidate, name.as_str()) {
            Some(k) => k,
            None => {
                return Err(not_found(name.as_str()));
            },
        };
        proof {
            lemma_first_named(ov, name@, 0);
        }
        let _gone = candidate.remove(k);
        assert(outfits_view(candidate@) =~= ov.remove(k as int));
        proof {
            lemma_unique_remove(ov, k as int);
        }
        if self.path.is_none() {
            return Err(no_bag_folder());
        }
        Ok(make_change(candidate))
    }

    /// Stage copying the outfit `source` to a new outfit `target`, inserted
    /// directly after its source. Refused when `source` is unknown, when
    /// `target` is taken, or when `target` is empty.
    pub fn duplicate(&self, source: &str, target: &str) -> (r: Result<OutfitChange, PropError>)
        ensures
            change_matches(r, spec_duplicate(self@, source@, target@)),
    {
        proof {
            use_type_invariant(self);
        }
        let source = crate::text::trim(source);
        let target = crate::text::trim(target);
        if target.unicode_len() == 0 {
            return Err(empty_name());
        }
        let mut candidate = copy_outfits(&self.outfits);
        let ghost ov = outfits_view(candidate@);
        let k = match position_of(&candidate, source.as_str()) {
            Some(k) => k,
            None => {
                return Err(not_found(source.as_str()));
            },
        };
        proof {
            lemma_first_named(ov, source@, 0);
        }
        if name_taken(&candidate, target.as_str()) {
            return Err(name_taken_error(target.as_str()));
        }
        let props = copy_keys(candidate[k].props.as_slice());
        let o = Outfit { name: target, props };
        let ghost ow = o@;
        let n = candidate.len();
        assert(k < n);
        candidate.insert(k + 1, o);
        assert(outfits_view(candidate@) =~= ov.insert(k + 1, ow));
        proof {
            lemma_unique_insert(ov, k + 1, ow);
        }
        if self.path.is_none() {
            return Err(no_bag_folder());
        }
        Ok(make_change(candidate))
    }

    /// Stage writing the current list as it is.
    pub fn save(&self) -> (r: Result<OutfitChange, PropError>)
        ensures
            change_matches(r, staged(self@, Ok(self@.outfits))),
    {
        proof {
            use_type_invariant(self);
        }
        if self.path.is_none() {
            return Err(no_bag_folder());
        }
        Ok(make_change(copy_outfits(&self.outfits)))
    }

    /// Commit a staged change once its document is written: the store
    /// takes the change's list.
    pub fn commit(&mut self, change: OutfitChange)
        ensures
            final(self)@.path == old(self)@.path,
            final(self)@.outfits == change@.outfits,
            final(self)@.load_error == old(self)@.load_error,
            final(self)@.dropped == old(self)@.dropped,
            final(self).context_view() == old(self).context_view(),
            unique_names(final(self)@.outfits),
    {
        proof {
            use_type_invariant(&change);
        }
        let OutfitChange { outfits, document: _ } = change;
        self.outfits = outfits;
    }
}

} // verus!
