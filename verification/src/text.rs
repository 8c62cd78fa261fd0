//! Small text helpers: building a `String` one character at a time, latin-1
//! conversion and decimal numbers.

use vstd::prelude::*;

verus! {

/// Append one character to a string with `String::push`.
///
/// Trusted: the contract is what `String::push` documents, that the character
/// is appended at the end.
#[verifier::external_body]
pub fn push_char(s: &mut String, c: char)
    ensures
        final(s)@ == old(s)@.push(c),
{
    s.push(c);
}

/// Append a string slice to a string.
pub fn push_str(s: &mut String, t: &str)
    ensures
        final(s)@ == old(s)@ + t@,
{
    s.append(t);
}

/// The latin-1 character of a byte: code point equal to the byte.
pub open spec fn latin1_char(b: u8) -> char {
    (b as u32) as char
}

/// The latin-1 text of a byte sequence.
pub open spec fn latin1_text(bytes: Seq<u8>) -> Seq<char> {
    Seq::new(bytes.len(), |i: int| latin1_char(bytes[i]))
}

/// The latin-1 byte of a character: its code point when that fits a byte,
/// otherwise `?`.
pub open spec fn latin1_byte(c: char) -> u8 {
    if (c as u32) <= 0xFF {
        (c as u32) as u8
    } else {
        63u8
    }
}

/// The latin-1 bytes of a text.
pub open spec fn latin1_encode(text: Seq<char>) -> Seq<u8> {
    Seq::new(text.len(), |i: int| latin1_byte(text[i]))
}

/// Decode bytes as latin-1, one character per byte.
pub fn latin1_string(bytes: &[u8]) -> (r: String)
    ensures
        r@ == latin1_text(bytes@),
{
    let mut s = String::new();
    let mut i: usize = 0;
    while i < bytes.len()
        invariant
            i <= bytes@.len(),
            s@ == latin1_text(bytes@.subrange(0, i as int)),
        decreases bytes@.len() - i,
    {
        let c = (bytes[i] as u32) as u8 as char;
        assert(c == latin1_char(bytes@[i as int]));
        push_char(&mut s, c);
        i = i + 1;
        assert(s@ =~= latin1_text(bytes@.subrange(0, i as int)));
    }
    assert(bytes@.subrange(0, i as int) =~= bytes@);
    s
}

/// Re-encode a name to the bytes the format stores: latin-1, one byte per code
/// point, with code points above `0xFF` written as `?`.
pub fn latin1_bytes(name: &str) -> (r: Vec<u8>)
    ensures
        r@ == latin1_encode(name@),
{
    let n = name.unicode_len();
    let mut out: Vec<u8> = Vec::new();
    let mut i: usize = 0;
    while i < n
        invariant
            n == name@.len(),
            i <= n,
            out@ == latin1_encode(name@.subrange(0, i as int)),
        decreases n - i,
    {
        let c = name.get_char(i);
        let code = c as u32;
        let b: u8 = if code <= 0xFF {
            code as u8
        } else {
            63u8
        };
        out.push(b);
        i = i + 1;
        assert(out@ =~= latin1_encode(name@.subrange(0, i as int)));
    }
    assert(name@.subrange(0, i as int) =~= name@);
    out
}

/// The decimal digits of `n`, most significant first; `0` is `"0"`.
pub open spec fn spec_decimal(n: nat) -> Seq<char>
    decreases n,
{
    if n < 10 {
        seq![((n + 48) as u32) as char]
    } else {
        spec_decimal(n / 10).push((((n % 10) + 48) as u32) as char)
    }
}

/// Append the decimal digits of `n` to `s`.
pub fn push_decimal(s: &mut String, n: u64)
    ensures
        final(s)@ == old(s)@ + spec_decimal(n as nat),
    decreases n,
{
    if n >= 10 {
        push_decimal(s, n / 10);
    }
    let digit = ((n % 10) as u8 + 48u8) as char;
    push_char(s, digit);
    proof {
        if n >= 10 {
            assert(spec_decimal(n as nat) == spec_decimal((n / 10) as nat).push(digit));
        }
    }
}

/// The decimal text of `n`.
pub fn decimal(n: u64) -> (r: String)
    ensures
        r@ == spec_decimal(n as nat),
{
    let mut s = String::new();
    push_decimal(&mut s, n);
    assert(s@ =~= spec_decimal(n as nat));
    s
}

/// Whether two texts are equal, character by character.
pub fn str_eq(a: &str, b: &str) -> (r: bool)
    ensures
        r == (a@ == b@),
{
    let n = a.unicode_len();
    let m = b.unicode_len();
    if n != m {
        return false;
    }
    let mut i: usize = 0;
    while i < n
        invariant
            n == a@.len(),
            m == b@.len(),
            n == m,
            i <= n,
            forall|k: int| 0 <= k < i ==> a@[k] == b@[k],
        decreases n - i,
    {
        if a.get_char(i) != b.get_char(i) {
            return false;
        }
        i = i + 1;
    }
    assert(a@ =~= b@);
    true
}

/// Whether a character has the Unicode `White_Space` property, the test
/// `char::is_whitespace` and `str::trim` use.
pub open spec fn is_white_space(c: char) -> bool {
    let u = c as u32;
    ||| 0x09 <= u <= 0x0D
    ||| u == 0x20
    ||| u == 0x85
    ||| u == 0xA0
    ||| u == 0x1680
    ||| 0x2000 <= u <= 0x200A
    ||| u == 0x2028
    ||| u == 0x2029
    ||| u == 0x202F
    ||| u == 0x205F
    ||| u == 0x3000
}

/// Whether a character has the Unicode `White_Space` property.
pub fn is_whitespace_char(c: char) -> (r: bool)
    ensures
        r == is_white_space(c),
{
    let u = c as u32;
    (0x09 <= u && u <= 0x0D) || u == 0x20 || u == 0x85 || u == 0xA0 || u == 0x1680 || (0x2000
        <= u && u <= 0x200A) || u == 0x2028 || u == 0x2029 || u == 0x202F || u == 0x205F || u
        == 0x3000
}

/// How many characters at the start of `s` are white space.
pub open spec fn leading_ws(s: Seq<char>, i: int) -> int
    decreases s.len() - i,
{
    if i < 0 || i >= s.len() || !is_white_space(s[i]) {
        i
    } else {
        leading_ws(s, i + 1)
    }
}

/// One past the last character of `s[..end]` that is not white space.
pub open spec fn trailing_end(s: Seq<char>, end: int) -> int
    decreases end,
{
    if end <= 0 || !is_white_space(s[end - 1]) {
        end
    } else {
        trailing_end(s, end - 1)
    }
}

/// A text with leading and trailing white space removed.
pub open spec fn trimmed(s: Seq<char>) -> Seq<char> {
    let start = leading_ws(s, 0);
    if start >= s.len() {
        Seq::empty()
    } else {
        s.subrange(start, trailing_end(s, s.len() as int))
    }
}

/// Remove leading and trailing white space, as `str::trim` does.
pub fn trim(s: &str) -> (r: String)
    ensures
        r@ == trimmed(s@),
{
    let n = s.unicode_len();
    let mut start: usize = 0;
    while start < n && is_whitespace_char(s.get_char(start))
        invariant
            n == s@.len(),
            start <= n,
            leading_ws(s@, 0) == leading_ws(s@, start as int),
        decreases n - start,
    {
        start = start + 1;
    }
    if start >= n {
        return String::new();
    }
    let mut end: usize = n;
    while end > start && is_whitespace_char(s.get_char(end - 1))
        invariant
            n == s@.len(),
            start < n,
            start < end <= n,
            !is_white_space(s@[start as int]),
            trailing_end(s@, n as int) == trailing_end(s@, end as int),
        decreases end,
    {
        end = end - 1;
    }
    assert(trailing_end(s@, end as int) == end);
    assert(leading_ws(s@, start as int) == start);
    let mut out = String::new();
    let mut i = start;
    while i < end
        invariant
            start <= i <= end,
            end <= n,
            n == s@.len(),
            out@ == s@.subrange(start as int, i as int),
        decreases end - i,
    {
        push_char(&mut out, s.get_char(i));
        i = i + 1;
        assert(out@ =~= s@.subrange(start as int, i as int));
    }
    out
}

/// The decimal text of a signed number: a minus sign before the digits of a
/// negative one.
pub open spec fn spec_signed_decimal(v: int) -> Seq<char> {
    if v < 0 {
        seq!['-'] + spec_decimal((-v) as nat)
    } else {
        spec_decimal(v as nat)
    }
}

/// Append the decimal text of a signed number.
pub fn push_signed(s: &mut String, v: i64)
    ensures
        final(s)@ == old(s)@ + spec_signed_decimal(v as int),
{
    if v < 0 {
        push_char(s, '-');
        let magnitude: u64 = if v == i64::MIN {
            9223372036854775808u64
        } else {
            (-v) as u64
        };
        push_decimal(s, magnitude);
        assert(s@ =~= old(s)@ + spec_signed_decimal(v as int));
    } else {
        push_decimal(s, v as u64);
    }
}

} // verus!
