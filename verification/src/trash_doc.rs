//! The trash document: a small line-oriented text file, one entry per line,
//! so a stuck delete can be inspected by eye.
//!
//! ```text
//! palace-prop-trash 1
//! 1000 3735928559 466f6f 0c000c00000000000000
//! ```
//!
//! Each entry line is `<id> <crc> <name-hex|-> <blob-hex|->`: the name's UTF-8
//! bytes and the raw blob, in lowercase hex, `-` standing for none. Blank lines
//! and `#` comments are skipped. Parsing never panics and never repairs.

use vstd::prelude::*;

use crate::error::PropError;
use crate::prp::PropKey;
use crate::text::{is_white_space, is_whitespace_char, push_char, push_str, trimmed};

verus! {

/// The characters of a string, in order.
pub fn chars_of(s: &str) -> (r: Vec<char>)
    ensures
        r@ == s@,
{
    let mut out: Vec<char> = Vec::new();
    for c in it: s.chars()
        invariant
            out@ == it.seq().take(it.index() as int),
    {
        out.push(c);
        assert(out@ =~= it.seq().take(it.index() as int + 1));
    }
    assert(out@ =~= s@);
    out
}

/// The text cut at every `'\n'`: always at least one segment.
pub open spec fn segments(t: Seq<char>) -> Seq<Seq<char>>
    decreases t.len(),
{
    if t.len() == 0 {
        seq![Seq::empty()]
    } else {
        let prev = segments(t.drop_last());
        if t.last() == '\n' {
            prev.push(Seq::empty())
        } else {
            prev.update(prev.len() - 1, prev.last().push(t.last()))
        }
    }
}

/// The lines of a text, as `str::lines` cuts them: a final line ending does
/// not start another line, and an empty text has none. (A `'\r'` before a
/// `'\n'` stays on its line; every reader here trims it as white space.)
pub open spec fn spec_lines(t: Seq<char>) -> Seq<Seq<char>> {
    let segs = segments(t);
    if segs.last().len() == 0 {
        segs.drop_last()
    } else {
        segs
    }
}

pub(crate) proof fn lemma_segments_nonempty(t: Seq<char>)
    ensures
        segments(t).len() >= 1,
    decreases t.len(),
{
    if t.len() > 0 {
        lemma_segments_nonempty(t.drop_last());
    }
}

/// Cut a text into its lines.
pub fn split_lines(t: &[char]) -> (r: Vec<Vec<char>>)
    ensures
        r@.len() == spec_lines(t@).len(),
        forall|i: int| 0 <= i < r@.len() ==> (#[trigger] r@[i])@ == spec_lines(t@)[i],
{
    let mut out: Vec<Vec<char>> = Vec::new();
    let mut cur: Vec<char> = Vec::new();
    let mut i: usize = 0;
    while i < t.len()
        invariant
            i <= t@.len(),
            out@.len() + 1 == segments(t@.subrange(0, i as int)).len(),
            forall|j: int|
                0 <= j < out@.len() ==> (#[trigger] out@[j])@ == segments(t@.subrange(0, i as int))[j],
            cur@ == segments(t@.subrange(0, i as int)).last(),
        decreases t@.len() - i,
    {
        let ghost pre = t@.subrange(0, i as int + 1);
        assert(pre.drop_last() =~= t@.subrange(0, i as int));
        proof {
            lemma_segments_nonempty(t@.subrange(0, i as int));
        }
        if t[i] == '\n' {
            let mut done: Vec<char> = Vec::new();
            std::mem::swap(&mut done, &mut cur);
            out.push(done);
        } else {
            cur.push(t[i]);
        }
        i = i + 1;
    }
    assert(t@.subrange(0, i as int) =~= t@);
    if cur.len() > 0 {
        out.push(cur);
    }
    proof {
        lemma_segments_nonempty(t@);
    }
    out
}

/// The text cut into maximal runs of non-white-space characters, with
/// whether the last run is still open.
pub open spec fn word_split(t: Seq<char>) -> (Seq<Seq<char>>, bool)
    decreases t.len(),
{
    if t.len() == 0 {
        (Seq::empty(), false)
    } else {
        let (words, open) = word_split(t.drop_last());
        let c = t.last();
        if is_white_space(c) {
            (words, false)
        } else if open {
            (words.update(words.len() - 1, words.last().push(c)), true)
        } else {
            (words.push(seq![c]), true)
        }
    }
}

/// The words of a text, as `str::split_whitespace` yields them.
pub open spec fn spec_words(t: Seq<char>) -> Seq<Seq<char>> {
    word_split(t).0
}

proof fn lemma_word_split_open(t: Seq<char>)
    ensures
        word_split(t).1 ==> word_split(t).0.len() >= 1,
    decreases t.len(),
{
    if t.len() > 0 {
        lemma_word_split_open(t.drop_last());
    }
}

/// Cut a text into its white-space separated words.
pub fn split_words(t: &[char]) -> (r: Vec<Vec<char>>)
    ensures
        r@.len() == spec_words(t@).len(),
        forall|i: int| 0 <= i < r@.len() ==> (#[trigger] r@[i])@ == spec_words(t@)[i],
{
    let mut out: Vec<Vec<char>> = Vec::new();
    let mut cur: Vec<char> = Vec::new();
    let mut open = false;
    let mut i: usize = 0;
    while i < t.len()
        invariant
            i <= t@.len(),
            open == word_split(t@.subrange(0, i as int)).1,
            open ==> out@.len() + 1 == word_split(t@.subrange(0, i as int)).0.len(),
            !open ==> out@.len() == word_split(t@.subrange(0, i as int)).0.len(),
            forall|j: int|
                0 <= j < out@.len() ==> (#[trigger] out@[j])@ == word_split(
                    t@.subrange(0, i as int),
                ).0[j],
            open ==> cur@ == word_split(t@.subrange(0, i as int)).0.last(),
            !open ==> cur@.len() == 0,
        decreases t@.len() - i,
    {
        let ghost pre = t@.subrange(0, i as int + 1);
        assert(pre.drop_last() =~= t@.subrange(0, i as int));
        proof {
            lemma_word_split_open(t@.subrange(0, i as int));
        }
        let c = t[i];
        if is_whitespace_char(c) {
            if open {
                let mut done: Vec<char> = Vec::new();
                std::mem::swap(&mut done, &mut cur);
                out.push(done);
            }
            open = false;
        } else {
            cur.push(c);
            if !open {
                assert(cur@ =~= seq![c]);
            }
            open = true;
        }
        i = i + 1;
    }
    assert(t@.subrange(0, i as int) =~= t@);
    if open {
        out.push(cur);
    }
    out
}

/// Whether a character is an ASCII decimal digit.
pub open spec fn is_digit(c: char) -> bool {
    '0' <= c <= '9'
}

/// The value of a run of decimal digits.
pub open spec fn digits_value(s: Seq<char>) -> int
    decreases s.len(),
{
    if s.len() == 0 {
        0
    } else {
        digits_value(s.drop_last()) * 10 + (s.last() as int - 48)
    }
}

/// Whether every character is a decimal digit.
pub open spec fn all_digits(s: Seq<char>) -> bool {
    forall|i: int| 0 <= i < s.len() ==> is_digit(#[trigger] s[i])
}

/// A non-empty run of digits whose value is at most `limit`.
pub open spec fn digits_within(s: Seq<char>, limit: int) -> bool {
    s.len() > 0 && all_digits(s) && digits_value(s) <= limit
}

/// What `str::parse::<u32>` makes of a text.
pub open spec fn spec_parse_u32(s: Seq<char>) -> Option<u32> {
    let d = if s.len() > 0 && s[0] == '+' {
        s.drop_first()
    } else {
        s
    };
    if digits_within(d, u32::MAX as int) {
        Some(digits_value(d) as u32)
    } else {
        None
    }
}

/// What `str::parse::<i32>` makes of a text.
pub open spec fn spec_parse_i32(s: Seq<char>) -> Option<i32> {
    if s.len() > 0 && s[0] == '-' {
        let d = s.drop_first();
        if digits_within(d, 0x8000_0000) {
            Some((-digits_value(d)) as i32)
        } else {
            None
        }
    } else {
        let d = if s.len() > 0 && s[0] == '+' {
            s.drop_first()
        } else {
            s
        };
        if digits_within(d, i32::MAX as int) {
            Some(digits_value(d) as i32)
        } else {
            None
        }
    }
}

proof fn lemma_digits_nonneg(s: Seq<char>)
    requires
        all_digits(s),
    ensures
        digits_value(s) >= 0,
    decreases s.len(),
{
    if s.len() > 0 {
        lemma_digits_nonneg(s.drop_last());
    }
}

proof fn lemma_digits_prefix_mono(s: Seq<char>, k: int)
    requires
        all_digits(s),
        0 <= k <= s.len(),
    ensures
        digits_value(s.subrange(0, k)) <= digits_value(s),
    decreases s.len() - k,
{
    if k < s.len() {
        assert(s.drop_last() =~= s.subrange(0, s.len() - 1));
        assert(s.drop_last().subrange(0, k) =~= s.subrange(0, k));
        lemma_digits_prefix_mono(s.drop_last(), k);
        lemma_digits_nonneg(s.drop_last());
    } else {
        assert(s.subrange(0, k) =~= s);
    }
}

/// The value of `t[start..]` when it is a non-empty run of digits worth at
/// most `limit`.
pub(crate) fn digits_upto(t: &[char], start: usize, limit: u64) -> (r: Option<u64>)
    requires
        start <= t@.len(),
        limit <= 0x1_0000_0000,
    ensures
        digits_within(t@.subrange(start as int, t@.len() as int), limit as int) ==> r == Some(
            digits_value(t@.subrange(start as int, t@.len() as int)) as u64,
        ),
        !digits_within(t@.subrange(start as int, t@.len() as int), limit as int) ==> r is None,
        r matches Some(v) ==> v <= limit && v as int == digits_value(
            t@.subrange(start as int, t@.len() as int),
        ) && digits_within(t@.subrange(start as int, t@.len() as int), limit as int),
{
    let ghost d = t@.subrange(start as int, t@.len() as int);
    if start >= t.len() {
        return None;
    }
    let mut value: u64 = 0;
    let mut i = start;
    while i < t.len()
        invariant
            start <= i <= t@.len(),
            d == t@.subrange(start as int, t@.len() as int),
            limit <= 0x1_0000_0000,
            all_digits(t@.subrange(start as int, i as int)),
            value == digits_value(t@.subrange(start as int, i as int)),
            value <= limit,
        decreases t@.len() - i,
    {
        let c = t[i];
        let ghost pre = t@.subrange(start as int, i as int + 1);
        assert(pre.drop_last() =~= t@.subrange(start as int, i as int));
        if !('0' <= c && c <= '9') {
            assert(!all_digits(d)) by {
                assert(d[i - start] == c);
            }
            return None;
        }
        let digit = (c as u32 - 48) as u64;
        let next = value * 10 + digit;
        if next > limit {
            proof {
                if all_digits(d) {
                    assert(pre =~= d.subrange(0, i - start + 1));
                    lemma_digits_prefix_mono(d, i - start + 1);
                }
            }
            return None;
        }
        value = next;
        i = i + 1;
    }
    assert(t@.subrange(start as int, i as int) =~= d);
    Some(value)
}

/// Parse a `u32` as `str::parse` does.
pub fn parse_u32_text(t: &[char]) -> (r: Option<u32>)
    ensures
        r == spec_parse_u32(t@),
{
    let start: usize = if t.len() > 0 && t[0] == '+' {
        1
    } else {
        0
    };
    assert(t@.subrange(start as int, t@.len() as int) =~= if t@.len() > 0 && t@[0] == '+' {
        t@.drop_first()
    } else {
        t@
    });
    match digits_upto(t, start, 0xFFFF_FFFF) {
        Some(v) => Some(v as u32),
        None => None,
    }
}

/// Parse an `i32` as `str::parse` does.
pub fn parse_i32_text(t: &[char]) -> (r: Option<i32>)
    ensures
        r == spec_parse_i32(t@),
{
    if t.len() > 0 && t[0] == '-' {
        assert(t@.subrange(1, t@.len() as int) =~= t@.drop_first());
        match digits_upto(t, 1, 0x8000_0000) {
            Some(v) => {
                let neg: i64 = 0i64 - (v as i64);
                Some(neg as i32)
            },
            None => None,
        }
    } else {
        let start: usize = if t.len() > 0 && t[0] == '+' {
            1
        } else {
            0
        };
        assert(t@.subrange(start as int, t@.len() as int) =~= if t@.len() > 0 && t@[0] == '+' {
            t@.drop_first()
        } else {
            t@
        });
        match digits_upto(t, start, 0x7FFF_FFFF) {
            Some(v) => Some(v as i32),
            None => None,
        }
    }
}

/// The value of a hexadecimal digit, either case.
pub open spec fn hex_val(c: char) -> Option<u8> {
    if '0' <= c <= '9' {
        Some((c as int - 48) as u8)
    } else if 'a' <= c <= 'f' {
        Some((c as int - 97 + 10) as u8)
    } else if 'A' <= c <= 'F' {
        Some((c as int - 65 + 10) as u8)
    } else {
        None
    }
}

/// Lowercase hex of a byte string, two digits per byte.
pub open spec fn hex_text(bytes: Seq<u8>) -> Seq<char> {
    Seq::new(
        2 * bytes.len(),
        |i: int|
            crate::json::hex_digit(
                if i % 2 == 0 {
                    bytes[i / 2] as int / 16
                } else {
                    bytes[i / 2] as int % 16
                },
            ),
    )
}

/// What the strict hex decoder makes of a field: `-` is the empty byte
/// string; an odd length or a non-hex character is `None`.
pub open spec fn spec_hex_decode(t: Seq<char>) -> Option<Seq<u8>> {
    if t == seq!['-'] {
        Some(Seq::empty())
    } else if t.len() % 2 == 0 && (forall|i: int| 0 <= i < t.len() ==> #[trigger] hex_val(t[i]) is Some) {
        Some(
            Seq::new(
                t.len() / 2,
                |i: int| (hex_val(t[2 * i]).unwrap() * 16 + hex_val(t[2 * i + 1]).unwrap()) as u8,
            ),
        )
    } else {
        None
    }
}

fn hex_value(c: char) -> (r: Option<u8>)
    ensures
        r == hex_val(c),
{
    if '0' <= c && c <= '9' {
        Some((c as u32 - 48) as u8)
    } else if 'a' <= c && c <= 'f' {
        Some((c as u32 - 97 + 10) as u8)
    } else if 'A' <= c && c <= 'F' {
        Some((c as u32 - 65 + 10) as u8)
    } else {
        None
    }
}

/// Lowercase hex, the encoding the document uses for names and blobs.
pub fn hex_encode(bytes: &[u8]) -> (r: String)
    ensures
        r@ == hex_text(bytes@),
{
    let mut out = String::new();
    let mut i: usize = 0;
    while i < bytes.len()
        invariant
            i <= bytes@.len(),
            out@ == hex_text(bytes@.subrange(0, i as int)),
        decreases bytes@.len() - i,
    {
        let b = bytes[i];
        let hi = (b / 16) as u32;
        let lo = (b % 16) as u32;
        let ch = if hi < 10 {
            ((hi + 48) as u8) as char
        } else {
            ((hi - 10 + 97) as u8) as char
        };
        let cl = if lo < 10 {
            ((lo + 48) as u8) as char
        } else {
            ((lo - 10 + 97) as u8) as char
        };
        push_char(&mut out, ch);
        push_char(&mut out, cl);
        assert(out@ =~= hex_text(bytes@.subrange(0, i as int + 1)));
        i = i + 1;
    }
    assert(bytes@.subrange(0, i as int) =~= bytes@);
    out
}

/// Strict hex decode: `-` is the empty byte string; anything with an odd
/// length or a non-hex character is `None`.
pub fn hex_decode(t: &[char]) -> (r: Option<Vec<u8>>)
    ensures
        match spec_hex_decode(t@) {
            Some(b) => r matches Some(v) && v@ == b,
            None => r is None,
        },
{
    if t.len() == 1 && t[0] == '-' {
        assert(t@ =~= seq!['-']);
        return Some(Vec::new());
    }
    proof {
        if t@ == seq!['-'] {
            assert(t@.len() == 1);
        }
    }
    let n = t.len();
    if n % 2 != 0 {
        return None;
    }
    let mut out: Vec<u8> = Vec::new();
    let mut i: usize = 0;
    while i < n / 2
        invariant
            n == t@.len(),
            n % 2 == 0,
            i <= n / 2,
            forall|j: int| 0 <= j < 2 * i ==> #[trigger] hex_val(t@[j]) is Some,
            out@.len() == i,
            forall|j: int|
                0 <= j < i ==> #[trigger] out@[j] == (hex_val(t@[2 * j]).unwrap() * 16 + hex_val(
                    t@[2 * j + 1],
                ).unwrap()) as u8,
        decreases n / 2 - i,
    {
        let high = match hex_value(t[2 * i]) {
            Some(v) => v,
            None => {
                return None;
            },
        };
        let low = match hex_value(t[2 * i + 1]) {
            Some(v) => v,
            None => {
                return None;
            },
        };
        out.push(high * 16 + low);
        i = i + 1;
    }
    Some(out)
}

/// One prop moved out of the bag to the trash: identity, label and raw blob.
#[derive(Debug, Clone, PartialEq, Eq)]
pub struct TrashEntry {
    /// The prop's `(id, crc)` identity at the moment it was trashed.
    pub key: PropKey,
    /// The prop's name, when it had one.
    pub name: Option<String>,
    /// The prop's raw blob (12-byte header included).
    pub blob: Vec<u8>,
}

/// The abstract content of a trash entry.
pub struct EntryView {
    /// The identity.
    pub key: PropKey,
    /// The name.
    pub name: Option<Seq<char>>,
    /// The blob.
    pub blob: Seq<u8>,
}

impl View for TrashEntry {
    type V = EntryView;

    open spec fn view(&self) -> EntryView {
        EntryView {
            key: self.key,
            name: match self.name {
                Some(n) => Some(n@),
                None => None,
            },
            blob: self.blob@,
        }
    }
}

/// The views of a list of entries.
pub open spec fn entries_view(es: Seq<TrashEntry>) -> Seq<EntryView> {
    Seq::new(es.len(), |i: int| es[i]@)
}

/// A copy of an entry.
pub fn copy_trash_entry(e: &TrashEntry) -> (r: TrashEntry)
    ensures
        r@ == e@,
{
    TrashEntry {
        key: e.key,
        name: match &e.name {
            Some(n) => Some(n.clone()),
            None => None,
        },
        blob: crate::codec::thirtytwo::slice_to_vec(e.blob.as_slice()),
    }
}

/// Decode UTF-8 bytes into a string with `std::string::String::from_utf8`.
///
/// Trusted: std documents that the conversion succeeds exactly when the
/// bytes are valid UTF-8 and then holds the characters they encode. On
/// failure the error's own text is returned, and left unsaid.
#[verifier::external_body]
pub(crate) fn utf8_string(bytes: Vec<u8>) -> (r: Result<String, String>)
    ensures
        r matches Ok(s) ==> vstd::utf8::valid_utf8(bytes@) && s@ == vstd::utf8::decode_utf8(bytes@),
        r is Err ==> !vstd::utf8::valid_utf8(bytes@),
{
    String::from_utf8(bytes).map_err(|e| e.utf8_error().to_string())
}

/// A field of an entry line: the hex of its bytes, or `-` when there are none.
pub open spec fn field_text(bytes: Seq<u8>) -> Seq<char> {
    if bytes.len() == 0 {
        seq!['-']
    } else {
        hex_text(bytes)
    }
}

/// The UTF-8 bytes of an optional name; none for no name.
pub open spec fn name_bytes(name: Option<Seq<char>>) -> Seq<u8> {
    match name {
        Some(n) => vstd::utf8::encode_utf8(n),
        None => Seq::empty(),
    }
}

/// One entry line of the document.
pub open spec fn entry_line(e: EntryView) -> Seq<char> {
    crate::text::spec_signed_decimal(e.key.id as int) + seq![' '] + crate::text::spec_decimal(
        e.key.crc as nat,
    ) + seq![' '] + field_text(name_bytes(e.name)) + seq![' '] + field_text(e.blob) + seq!['\n']
}

/// The entry lines of a list, in order.
pub open spec fn entry_lines(es: Seq<EntryView>) -> Seq<char>
    decreases es.len(),
{
    if es.len() == 0 {
        Seq::empty()
    } else {
        entry_lines(es.drop_last()) + entry_line(es.last())
    }
}

/// The header line of the document.
pub open spec fn header_line() -> Seq<char> {
    "palace-prop-trash 1\n"@
}

/// The whole document for a list of entries.
pub open spec fn spec_render(es: Seq<EntryView>) -> Seq<char> {
    header_line() + entry_lines(es)
}

/// Append a field: hex, or `-` for none.
fn push_field(out: &mut String, bytes: &[u8])
    ensures
        final(out)@ == old(out)@ + field_text(bytes@),
{
    if bytes.len() == 0 {
        push_char(out, '-');
    } else {
        let hex = hex_encode(bytes);
        push_str(out, hex.as_str());
    }
}

proof fn lemma_concat8(
    m: Seq<char>,
    a: Seq<char>,
    b: Seq<char>,
    c: Seq<char>,
    d: Seq<char>,
    e: Seq<char>,
    f: Seq<char>,
    g: Seq<char>,
    h: Seq<char>,
)
    ensures
        m + a + b + c + d + e + f + g + h == m + (a + b + c + d + e + f + g + h),
{
    assert(m + a + b + c + d + e + f + g + h =~= m + (a + b + c + d + e + f + g + h));
}

/// Append one entry line.
fn push_entry_line(out: &mut String, e: &TrashEntry)
    ensures
        final(out)@ == old(out)@ + entry_line(e@),
{
    let ghost start = out@;
    crate::text::push_signed(out, e.key.id as i64);
    push_char(out, ' ');
    crate::text::push_decimal(out, e.key.crc as u64);
    push_char(out, ' ');
    match &e.name {
        Some(n) => push_field(out, n.as_str().as_bytes()),
        None => push_field(out, &[]),
    }
    push_char(out, ' ');
    push_field(out, e.blob.as_slice());
    push_char(out, '\n');
    proof {
        lemma_concat8(
            start,
            crate::text::spec_signed_decimal(e.key.id as int),
            seq![' '],
            crate::text::spec_decimal(e.key.crc as nat),
            seq![' '],
            field_text(name_bytes(e@.name)),
            seq![' '],
            field_text(e@.blob),
            seq!['\n'],
        );
    }
}

/// Serialise the trash document.
pub fn render(entries: &[TrashEntry]) -> (r: String)
    ensures
        r@ == spec_render(entries_view(entries@)),
{
    let ghost es = entries_view(entries@);
    let mut out = String::new();
    push_str(&mut out, "palace-prop-trash 1\n");
    let mut i: usize = 0;
    while i < entries.len()
        invariant
            i <= entries@.len(),
            es == entries_view(entries@),
            out@ == header_line() + entry_lines(es.subrange(0, i as int)),
        decreases entries@.len() - i,
    {
        push_entry_line(&mut out, &entries[i]);
        let ghost pre = es.subrange(0, i as int + 1);
        assert(pre.drop_last() =~= es.subrange(0, i as int));
        i = i + 1;
    }
    assert(es.subrange(0, i as int) =~= es);
    out
}

/// Most entries the trash keeps before the oldest are dropped.
pub const MAX_ENTRIES: usize = 1024;

/// Most blob bytes a single trashed prop may carry.
pub const MAX_BLOB_BYTES: usize = 16777216;

/// Whether a line is blank or a `#` comment once trimmed.
pub open spec fn blank_or_comment(line: Seq<char>) -> bool {
    let t = trimmed(line);
    t.len() == 0 || t[0] == '#'
}

/// The first line from `i` on that is not blank.
pub open spec fn first_nonblank(lines: Seq<Seq<char>>, i: int) -> Option<int>
    decreases lines.len() - i,
{
    if i < 0 || i >= lines.len() {
        None
    } else if trimmed(lines[i]).len() > 0 {
        Some(i)
    } else {
        first_nonblank(lines, i + 1)
    }
}

/// Whether the header's words are the magic and version `1`, and no more.
pub open spec fn header_ok(words: Seq<Seq<char>>) -> bool {
    &&& words.len() == 2
    &&& words[0] == "palace-prop-trash"@
    &&& spec_parse_u32(words[1]) == Some(1u32)
}

/// The name a name field decodes to: none when empty, the UTF-8 text
/// otherwise; `None` when the bytes are not UTF-8.
pub open spec fn parse_name(bytes: Seq<u8>) -> Option<Option<Seq<char>>> {
    if bytes.len() == 0 {
        Some(None)
    } else if vstd::utf8::valid_utf8(bytes) {
        Some(Some(vstd::utf8::decode_utf8(bytes)))
    } else {
        None
    }
}

/// The entry an entry line's words describe, if they are well formed.
pub open spec fn parse_entry(words: Seq<Seq<char>>) -> Option<EntryView> {
    if words.len() != 4 {
        None
    } else {
        match (
            spec_parse_i32(words[0]),
            spec_parse_u32(words[1]),
            spec_hex_decode(words[2]),
            spec_hex_decode(words[3]),
        ) {
            (Some(id), Some(crc), Some(nb), Some(blob)) => match parse_name(nb) {
                Some(name) => if blob.len() <= MAX_BLOB_BYTES {
                    Some(EntryView { key: PropKey { id, crc }, name, blob })
                } else {
                    None
                },
                None => None,
            },
            _ => None,
        }
    }
}

/// One body line applied to what the lines before it parsed to.
pub open spec fn body_step(st: Option<Seq<EntryView>>, line: Seq<char>) -> Option<Seq<EntryView>> {
    match st {
        None => None,
        Some(es) => if blank_or_comment(line) {
            Some(es)
        } else if es.len() >= MAX_ENTRIES {
            None
        } else {
            match parse_entry(spec_words(trimmed(line))) {
                Some(e) => Some(es.push(e)),
                None => None,
            }
        },
    }
}

/// What the body lines `from..to` parse to.
pub open spec fn parse_body(lines: Seq<Seq<char>>, from: int, to: int) -> Option<Seq<EntryView>>
    decreases to - from,
{
    if to <= from {
        Some(Seq::empty())
    } else {
        body_step(parse_body(lines, from, to - 1), lines[to - 1])
    }
}

/// What a trash document parses to; `None` when it is refused.
pub open spec fn spec_parse_trash(text: Seq<char>) -> Option<Seq<EntryView>> {
    let ls = spec_lines(text);
    match first_nonblank(ls, 0) {
        None => None,
        Some(h) => if header_ok(spec_words(ls[h])) {
            parse_body(ls, h + 1, ls.len() as int)
        } else {
            None
        },
    }
}

/// Why the header's words are refused.
pub open spec fn header_problem(words: Seq<Seq<char>>) -> Seq<char> {
    if words.len() == 0 || words[0] != "palace-prop-trash"@ {
        "trash document does not start with the palace-prop-trash magic"@
    } else if words.len() < 2 || spec_parse_u32(words[1]) is None {
        "trash document has no version"@
    } else if spec_parse_u32(words[1]) != Some(1u32) {
        "trash document version "@ + crate::text::spec_decimal(spec_parse_u32(words[1]).unwrap() as nat)
            + " is not 1"@
    } else {
        "trash document header has trailing fields"@
    }
}

/// Why an entry line's words are refused, checked in the order the fields
/// are read.
pub open spec fn entry_problem(words: Seq<Seq<char>>) -> Seq<char> {
    if words.len() != 4 {
        "expected exactly 4 fields"@
    } else if spec_parse_i32(words[0]) is None {
        "bad id "@ + crate::tool::debug_quoted(words[0])
    } else if spec_parse_u32(words[1]) is None {
        "bad crc "@ + crate::tool::debug_quoted(words[1])
    } else if spec_hex_decode(words[2]) is None {
        "bad name hex"@
    } else if parse_name(spec_hex_decode(words[2]).unwrap()) is None {
        "name is not UTF-8"@
    } else if spec_hex_decode(words[3]) is None {
        "bad blob hex"@
    } else {
        "blob is "@ + crate::text::spec_decimal(spec_hex_decode(words[3]).unwrap().len()) + " bytes, above the cap"@
    }
}

/// Why body line `k` (counted from the document's first line, the header
/// being line `from - 1`) is refused after the lines before it parsed to
/// `es`.
pub open spec fn line_problem(es: Seq<EntryView>, line: Seq<char>, number: int) -> Seq<char> {
    if es.len() >= MAX_ENTRIES {
        "trash document holds more than 1024 entries"@
    } else {
        "line "@ + crate::text::spec_decimal(number as nat) + ": "@ + entry_problem(spec_words(trimmed(line)))
    }
}

/// Why the body lines `from..to` are refused: the first refused line's
/// reason.
pub open spec fn body_problem(lines: Seq<Seq<char>>, from: int, to: int) -> Seq<char>
    decreases to - from,
{
    if to <= from {
        Seq::empty()
    } else {
        match parse_body(lines, from, to - 1) {
            None => body_problem(lines, from, to - 1),
            Some(es) => line_problem(es, lines[to - 1], to - 1 - from + 2),
        }
    }
}

/// Why a trash document is refused (meaningful when
/// [`spec_parse_trash`] refuses it).
pub open spec fn trash_problem(text: Seq<char>) -> Seq<char> {
    let ls = spec_lines(text);
    match first_nonblank(ls, 0) {
        None => "trash document is empty"@,
        Some(h) => if header_ok(spec_words(ls[h])) {
            body_problem(ls, h + 1, ls.len() as int)
        } else {
            header_problem(spec_words(ls[h]))
        },
    }
}

/// Remove leading and trailing white space.
pub fn trim_chars(t: &[char]) -> (r: Vec<char>)
    ensures
        r@ == trimmed(t@),
{
    let n = t.len();
    let mut start: usize = 0;
    while start < n && is_whitespace_char(t[start])
        invariant
            n == t@.len(),
            start <= n,
            crate::text::leading_ws(t@, 0) == crate::text::leading_ws(t@, start as int),
        decreases n - start,
    {
        start = start + 1;
    }
    if start >= n {
        return Vec::new();
    }
    let mut end: usize = n;
    while end > start && is_whitespace_char(t[end - 1])
        invariant
            n == t@.len(),
            start < n,
            start < end <= n,
            !is_white_space(t@[start as int]),
            crate::text::trailing_end(t@, n as int) == crate::text::trailing_end(t@, end as int),
        decreases end,
    {
        end = end - 1;
    }
    assert(crate::text::trailing_end(t@, end as int) == end);
    assert(crate::text::leading_ws(t@, start as int) == start);
    let mut out: Vec<char> = Vec::new();
    let mut i = start;
    while i < end
        invariant
            start <= i <= end,
            end <= n,
            n == t@.len(),
            out@ == t@.subrange(start as int, i as int),
        decreases end - i,
    {
        out.push(t[i]);
        i = i + 1;
        assert(out@ =~= t@.subrange(start as int, i as int));
    }
    out
}

/// Whether two character strings are equal.
fn chars_eq(a: &[char], b: &str) -> (r: bool)
    ensures
        r == (a@ == b@),
{
    let bc = chars_of(b);
    if a.len() != bc.len() {
        return false;
    }
    let mut i: usize = 0;
    while i < a.len()
        invariant
            i <= a@.len(),
            a@.len() == bc@.len(),
            bc@ == b@,
            forall|j: int| 0 <= j < i ==> a@[j] == bc@[j],
        decreases a@.len() - i,
    {
        if a[i] != bc[i] {
            return false;
        }
        i = i + 1;
    }
    assert(a@ =~= b@);
    true
}

/// A bag error naming the document.
fn doc_error(path: &str, detail: &str) -> (r: PropError)
    ensures
        r matches PropError::BagIo { detail: d } && d@ == path@ + ": "@ + detail@,
{
    proof {
        reveal_strlit(": ");
    }
    let mut text = String::from_str(path);
    push_str(&mut text, ": ");
    push_str(&mut text, detail);
    assert(text@ =~= path@ + ": "@ + detail@);
    PropError::BagIo { detail: text }
}

/// A bag error naming the document and a line.
fn line_error(path: &str, line: usize, detail: &str) -> (r: PropError)
    ensures
        r matches PropError::BagIo { detail: d } && d@ == path@ + ": "@ + ("line "@
            + crate::text::spec_decimal(line as nat) + ": "@ + detail@),
{
    proof {
        reveal_strlit(": ");
        reveal_strlit(": line ");
        reveal_strlit("line ");
    }
    let mut text = String::from_str(path);
    push_str(&mut text, ": line ");
    crate::text::push_decimal(&mut text, line as u64);
    push_str(&mut text, ": ");
    push_str(&mut text, detail);
    assert(text@ =~= path@ + ": "@ + ("line "@ + crate::text::spec_decimal(line as nat) + ": "@ + detail@));
    PropError::BagIo { detail: text }
}

/// A refusal's text.
fn problem(text: &str) -> (r: String)
    ensures
        r@ == text@,
{
    String::from_str(text)
}

/// Parse one entry line's words; a refusal carries its reason.
fn parse_entry_words(words: &Vec<Vec<char>>) -> (r: Result<TrashEntry, String>)
    ensures
        match parse_entry(Seq::new(words@.len(), |i: int| words@[i]@)) {
            Some(e) => r matches Ok(t) && t@ == e,
            None => r matches Err(m) && m@ == entry_problem(Seq::new(words@.len(), |i: int| words@[i]@)),
        },
{
    let ghost ws = Seq::new(words@.len(), |i: int| words@[i]@);
    if words.len() != 4 {
        return Err(problem("expected exactly 4 fields"));
    }
    assert(ws[0] == words@[0]@ && ws[1] == words@[1]@ && ws[2] == words@[2]@ && ws[3] == words@[3]@);
    let id = match parse_i32_text(words[0].as_slice()) {
        Some(v) => v,
        None => {
            let mut m = problem("bad id ");
            push_debug_chars(&mut m, words[0].as_slice());
            return Err(m);
        },
    };
    let crc = match parse_u32_text(words[1].as_slice()) {
        Some(v) => v,
        None => {
            let mut m = problem("bad crc ");
            push_debug_chars(&mut m, words[1].as_slice());
            return Err(m);
        },
    };
    let name_bytes = match hex_decode(words[2].as_slice()) {
        Some(b) => b,
        None => {
            return Err(problem("bad name hex"));
        },
    };
    let ghost nb = name_bytes@;
    let name = if name_bytes.len() == 0 {
        None
    } else {
        match utf8_string(name_bytes) {
            Ok(n) => Some(n),
            Err(_) => {
                return Err(problem("name is not UTF-8"));
            },
        }
    };
    assert(parse_name(nb) == Some(
        match name {
            Some(n) => Some(n@),
            None => None::<Seq<char>>,
        },
    ));
    let blob = match hex_decode(words[3].as_slice()) {
        Some(b) => b,
        None => {
            return Err(problem("bad blob hex"));
        },
    };
    if blob.len() > MAX_BLOB_BYTES {
        let mut m = problem("blob is ");
        crate::text::push_decimal(&mut m, blob.len() as u64);
        push_str(&mut m, " bytes, above the cap");
        return Err(m);
    }
    Ok(TrashEntry { key: PropKey::new(id, crc), name, blob })
}

/// Append a text as `{:?}` shows it.
fn push_debug_chars(out: &mut String, text: &[char])
    ensures
        final(out)@ == old(out)@ + crate::tool::debug_quoted(text@),
{
    let mut s = String::new();
    let mut i: usize = 0;
    while i < text.len()
        invariant
            i <= text@.len(),
            s@ == text@.subrange(0, i as int),
        decreases text@.len() - i,
    {
        push_char(&mut s, text[i]);
        i = i + 1;
        assert(s@ =~= text@.subrange(0, i as int));
    }
    assert(text@.subrange(0, i as int) =~= text@);
    crate::tool::push_debug(out, s.as_str());
}

/// The words of a line as plain sequences.
pub open spec fn word_views(words: Seq<Vec<char>>) -> Seq<Seq<char>> {
    Seq::new(words.len(), |i: int| words[i]@)
}

proof fn lemma_body_stays_refused(lines: Seq<Seq<char>>, from: int, k: int, to: int)
    requires
        k <= to,
        parse_body(lines, from, k) is None,
    ensures
        parse_body(lines, from, to) is None,
    decreases to - k,
{
    if k < to {
        lemma_body_stays_refused(lines, from, k, to - 1);
    }
}

/// Once body line `k` is the first one refused, the reason for the whole
/// body is that line's reason.
proof fn lemma_first_refusal(lines: Seq<Seq<char>>, from: int, k: int, to: int)
    requires
        from <= k < to,
        parse_body(lines, from, k) is Some,
        parse_body(lines, from, k + 1) is None,
    ensures
        body_problem(lines, from, to) == line_problem(
            parse_body(lines, from, k).unwrap(),
            lines[k],
            k - from + 2,
        ),
    decreases to - k,
{
    if to > k + 1 {
        lemma_body_stays_refused(lines, from, k + 1, to - 1);
        lemma_first_refusal(lines, from, k, to - 1);
    }
}

/// Parse a trash document. Never panics; every failure names its line.
pub fn parse_trash(text: &str, path: &str) -> (r: Result<Vec<TrashEntry>, PropError>)
    ensures
        match spec_parse_trash(text@) {
            Some(es) => r matches Ok(v) && entries_view(v@) == es,
            None => r matches Err(PropError::BagIo { detail }) && detail@ == path@ + ": "@
                + trash_problem(text@),
        },
{
    let chars = chars_of(text);
    let lines = split_lines(chars.as_slice());
    let ghost ls = spec_lines(text@);
    let mut h: usize = 0;
    let mut found = false;
    while !found && h < lines.len()
        invariant
            h <= lines@.len(),
            lines@.len() == ls.len(),
            forall|i: int| 0 <= i < lines@.len() ==> (#[trigger] lines@[i])@ == ls[i],
            first_nonblank(ls, 0) == first_nonblank(ls, h as int),
            found ==> h < lines@.len() && trimmed(ls[h as int]).len() > 0,
        decreases lines@.len() - h, if found { 0int } else { 1int },
    {
        let t = trim_chars(lines[h].as_slice());
        if t.len() > 0 {
            found = true;
        } else {
            h = h + 1;
        }
    }
    if !found {
        return Err(doc_error(path, "trash document is empty"));
    }
    assert(first_nonblank(ls, h as int) == Some(h as int));
    let header = split_words(lines[h].as_slice());
    let ghost hw = spec_words(ls[h as int]);
    assert(word_views(header@) =~= hw);
    if header.len() == 0 || !chars_eq(header[0].as_slice(), "palace-prop-trash") {
        return Err(doc_error(path, "trash document does not start with the palace-prop-trash magic"));
    }
    if header.len() < 2 {
        return Err(doc_error(path, "trash document has no version"));
    }
    match parse_u32_text(header[1].as_slice()) {
        Some(v) => {
            if v != 1 {
                let mut m = problem("trash document version ");
                crate::text::push_decimal(&mut m, v as u64);
                push_str(&mut m, " is not 1");
                return Err(doc_error(path, m.as_str()));
            }
        },
        None => {
            return Err(doc_error(path, "trash document has no version"));
        },
    }
    if header.len() > 2 {
        return Err(doc_error(path, "trash document header has trailing fields"));
    }
    proof {
        reveal_strlit("palace-prop-trash");
    }
    assert(header_ok(hw));
    let mut entries: Vec<TrashEntry> = Vec::new();
    let nlines = lines.len();
    assert(h < nlines);
    let mut k: usize = h + 1;
    while k < lines.len()
        invariant
            h < k <= lines@.len(),
            lines@.len() == ls.len(),
            ls == spec_lines(text@),
            first_nonblank(ls, 0) == Some(h as int),
            header_ok(spec_words(ls[h as int])),
            forall|i: int| 0 <= i < lines@.len() ==> (#[trigger] lines@[i])@ == ls[i],
            parse_body(ls, h + 1, k as int) == Some(entries_view(entries@)),
        decreases lines@.len() - k,
    {
        let t = trim_chars(lines[k].as_slice());
        let ghost line = ls[k as int];
        let line_number = k - h + 1;
        if t.len() == 0 || t[0] == '#' {
        } else {
            if entries.len() >= MAX_ENTRIES {
                proof {
                    assert(parse_body(ls, h + 1, k as int + 1) is None);
                    lemma_body_stays_refused(ls, h + 1, k as int + 1, ls.len() as int);
                    lemma_first_refusal(ls, h + 1, k as int, ls.len() as int);
                    assert(trash_problem(text@) == line_problem(entries_view(entries@), line, k - h + 1));
                }
                return Err(doc_error(path, "trash document holds more than 1024 entries"));
            }
            let words = split_words(t.as_slice());
            assert(word_views(words@) =~= spec_words(trimmed(line)));
            assert(Seq::new(words@.len(), |i: int| words@[i]@) =~= word_views(words@));
            match parse_entry_words(&words) {
                Ok(e) => {
                    let ghost before = entries_view(entries@);
                    entries.push(e);
                    assert(entries_view(entries@) =~= before.push(e@));
                },
                Err(detail) => {
                    proof {
                        assert(parse_body(ls, h + 1, k as int + 1) is None);
                        lemma_body_stays_refused(ls, h + 1, k as int + 1, ls.len() as int);
                        lemma_first_refusal(ls, h + 1, k as int, ls.len() as int);
                        assert(trash_problem(text@) == line_problem(entries_view(entries@), line, k - h + 1));
                    }
                    return Err(line_error(path, line_number, detail.as_str()));
                },
            }
        }
        k = k + 1;
    }
    Ok(entries)
}

} // verus!
