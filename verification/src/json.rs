//! The pieces the hand-built JSON payloads are made of: escaped strings,
//! decimal numbers and booleans.

use vstd::prelude::*;

use crate::text::{push_char, push_decimal, push_str, spec_decimal};

verus! {

/// A lowercase hexadecimal digit.
pub open spec fn hex_digit(n: int) -> char {
    if n < 10 {
        ((n + 48) as u32) as char
    } else {
        ((n - 10 + 97) as u32) as char
    }
}

/// Four lowercase hexadecimal digits of a value below `0x10000`.
pub open spec fn hex4(v: int) -> Seq<char> {
    seq![
        hex_digit((v / 4096) % 16),
        hex_digit((v / 256) % 16),
        hex_digit((v / 16) % 16),
        hex_digit(v % 16),
    ]
}

/// How one character appears inside a JSON string literal.
pub open spec fn escape_char(c: char) -> Seq<char> {
    if c == '"' {
        seq!['\\', '"']
    } else if c == '\\' {
        seq!['\\', '\\']
    } else if c == '\n' {
        seq!['\\', 'n']
    } else if c == '\r' {
        seq!['\\', 'r']
    } else if c == '\t' {
        seq!['\\', 't']
    } else if c == '\u{08}' {
        seq!['\\', 'b']
    } else if c == '\u{0c}' {
        seq!['\\', 'f']
    } else if (c as u32) < 0x20 {
        seq!['\\', 'u'] + hex4(c as u32 as int)
    } else {
        seq![c]
    }
}

/// A text escaped for a JSON string literal.
pub open spec fn json_escape(text: Seq<char>) -> Seq<char>
    decreases text.len(),
{
    if text.len() == 0 {
        Seq::empty()
    } else {
        json_escape(text.drop_last()) + escape_char(text.last())
    }
}

/// `true` or `false`.
pub open spec fn json_bool(b: bool) -> Seq<char> {
    if b {
        "true"@
    } else {
        "false"@
    }
}

/// Append one hexadecimal digit.
pub(crate) fn push_hex_digit(out: &mut String, n: u32)
    requires
        n < 16,
    ensures
        final(out)@ == old(out)@.push(hex_digit(n as int)),
{
    let c = if n < 10 {
        ((n + 48) as u8) as char
    } else {
        ((n - 10 + 97) as u8) as char
    };
    push_char(out, c);
}

/// Append one character escaped for a JSON string.
pub fn push_escaped_char(out: &mut String, c: char)
    ensures
        final(out)@ == old(out)@ + escape_char(c),
{
    if c == '"' {
        push_char(out, '\\');
        push_char(out, '"');
    } else if c == '\\' {
        push_char(out, '\\');
        push_char(out, '\\');
    } else if c == '\n' {
        push_char(out, '\\');
        push_char(out, 'n');
    } else if c == '\r' {
        push_char(out, '\\');
        push_char(out, 'r');
    } else if c == '\t' {
        push_char(out, '\\');
        push_char(out, 't');
    } else if c == '\u{08}' {
        push_char(out, '\\');
        push_char(out, 'b');
    } else if c == '\u{0c}' {
        push_char(out, '\\');
        push_char(out, 'f');
    } else if (c as u32) < 0x20 {
        let v = c as u32;
        push_char(out, '\\');
        push_char(out, 'u');
        push_hex_digit(out, (v / 4096) % 16);
        push_hex_digit(out, (v / 256) % 16);
        push_hex_digit(out, (v / 16) % 16);
        push_hex_digit(out, v % 16);
    } else {
        push_char(out, c);
    }
    assert(out@ =~= old(out)@ + escape_char(c));
}

/// Append `text` to a JSON string, escaping quote, backslash and control
/// characters. Everything else passes through unchanged.
pub fn escape_json_into(text: &str, out: &mut String)
    ensures
        final(out)@ == old(out)@ + json_escape(text@),
{
    let n = text.unicode_len();
    let mut i: usize = 0;
    while i < n
        invariant
            n == text@.len(),
            i <= n,
            out@ == old(out)@ + json_escape(text@.subrange(0, i as int)),
        decreases n - i,
    {
        let c = text.get_char(i);
        push_escaped_char(out, c);
        proof {
            let prefix = text@.subrange(0, i as int + 1);
            assert(prefix.drop_last() =~= text@.subrange(0, i as int));
            assert(prefix.last() == c);
        }
        i = i + 1;
        assert(out@ =~= old(out)@ + json_escape(text@.subrange(0, i as int)));
    }
    assert(text@.subrange(0, i as int) =~= text@);
}

/// Append `true` or `false`.
pub fn push_bool(out: &mut String, b: bool)
    ensures
        final(out)@ == old(out)@ + json_bool(b),
{
    if b {
        push_str(out, "true");
    } else {
        push_str(out, "false");
    }
}

/// Append the decimal digits of a number.
pub fn push_number(out: &mut String, n: u64)
    ensures
        final(out)@ == old(out)@ + spec_decimal(n as nat),
{
    push_decimal(out, n);
}

/// `0x` and eight lowercase hexadecimal digits of a word.
pub open spec fn hex8(v: u32) -> Seq<char> {
    seq!['0', 'x'] + hex4(v as int / 65536) + hex4(v as int % 65536)
}

/// Append four hexadecimal digits of a value below `0x10000`.
pub(crate) fn push_hex4(out: &mut String, v: u32)
    requires
        v < 65536,
    ensures
        final(out)@ == old(out)@ + hex4(v as int),
{
    push_hex_digit(out, (v / 4096) % 16);
    push_hex_digit(out, (v / 256) % 16);
    push_hex_digit(out, (v / 16) % 16);
    push_hex_digit(out, v % 16);
    assert(out@ =~= old(out)@ + hex4(v as int));
}

/// Append `0x` and eight lowercase hexadecimal digits.
pub fn push_hex8(out: &mut String, v: u32)
    ensures
        final(out)@ == old(out)@ + hex8(v),
{
    push_char(out, '0');
    push_char(out, 'x');
    push_hex4(out, v / 65536);
    push_hex4(out, v % 65536);
    assert(out@ =~= old(out)@ + hex8(v));
}

} // verus!
