//! What reading a rendered trash document gives back.

use vstd::prelude::*;

use crate::json::hex_digit;
use crate::text::{is_white_space, leading_ws, trailing_end, trimmed, spec_decimal, spec_signed_decimal};
use crate::trash_doc::{
    first_nonblank, parse_body, spec_lines, spec_parse_trash, MAX_ENTRIES,    header_line, header_ok, lemma_segments_nonempty, segments, spec_render,    blank_or_comment, entry_line, parse_entry, spec_words, EntryView, MAX_BLOB_BYTES,    word_split,    field_text, name_bytes, parse_name, all_digits, digits_value, hex_text, hex_val, is_digit, spec_hex_decode, spec_parse_i32,
    spec_parse_u32,
};

verus! {

/// Whether a text has no white space in it.
pub open spec fn solid(s: Seq<char>) -> bool {
    forall|i: int| 0 <= i < s.len() ==> !is_white_space(#[trigger] s[i])
}

/// A run of digits has no white space.
proof fn lemma_digits_solid(s: Seq<char>)
    requires
        all_digits(s),
    ensures
        solid(s),
{
    assert forall|i: int| 0 <= i < s.len() implies !is_white_space(#[trigger] s[i]) by {
        assert(is_digit(s[i]));
    }
}

/// The decimal text of `n` is a non-empty run of digits worth `n`.
proof fn lemma_decimal(n: nat)
    ensures
        spec_decimal(n).len() >= 1,
        all_digits(spec_decimal(n)),
        digits_value(spec_decimal(n)) == n,
        solid(spec_decimal(n)),
    decreases n,
{
    let s = spec_decimal(n);
    if n < 10 {
        let c = ((n + 48) as u32) as char;
        assert(c as int == n + 48);
        assert(s.drop_last() =~= Seq::<char>::empty());
        assert(digits_value(s) == digits_value(s.drop_last()) * 10 + (s.last() as int - 48));
    } else {
        lemma_decimal(n / 10);
        let c = (((n % 10) + 48) as u32) as char;
        assert(c as int == n % 10 + 48);
        assert(s.drop_last() =~= spec_decimal(n / 10));
        assert(digits_value(s) == digits_value(s.drop_last()) * 10 + (s.last() as int - 48));
        assert(n == (n / 10) * 10 + n % 10) by (nonlinear_arith);
        assert forall|i: int| 0 <= i < s.len() implies is_digit(#[trigger] s[i]) by {
            if i < s.len() - 1 {
                assert(s[i] == spec_decimal(n / 10)[i]);
            }
        }
    }
    lemma_digits_solid(s);
}

/// Reading back the decimal text of an unsigned number gives the number.
proof fn lemma_parse_u32_decimal(v: u32)
    ensures
        spec_parse_u32(spec_decimal(v as nat)) == Some(v),
        spec_decimal(v as nat).len() >= 1,
        solid(spec_decimal(v as nat)),
{
    lemma_decimal(v as nat);
    let s = spec_decimal(v as nat);
    assert(is_digit(s[0]));
}

/// Reading back the decimal text of a signed number gives the number.
proof fn lemma_parse_i32_signed(v: i32)
    ensures
        spec_parse_i32(spec_signed_decimal(v as int)) == Some(v),
        spec_signed_decimal(v as int).len() >= 1,
        solid(spec_signed_decimal(v as int)),
{
    let s = spec_signed_decimal(v as int);
    if v < 0 {
        let d = spec_decimal((-v) as nat);
        lemma_decimal((-v) as nat);
        assert(s.drop_first() =~= d);
        assert(s[0] == '-');
        assert forall|i: int| 0 <= i < s.len() implies !is_white_space(#[trigger] s[i]) by {
            if i > 0 {
                assert(s[i] == d[i - 1]);
            }
        }
    } else {
        lemma_decimal(v as nat);
        assert(is_digit(s[0]));
    }
}

/// A hexadecimal digit reads back as its value.
proof fn lemma_hex_digit(v: int)
    requires
        0 <= v < 16,
    ensures
        hex_val(hex_digit(v)) == Some(v as u8),
        !is_white_space(hex_digit(v)),
{
    let c = hex_digit(v);
    if v < 10 {
        assert(c as int == v + 48);
    } else {
        assert(c as int == v - 10 + 97);
    }
}

/// A field of an entry line reads back as the bytes it was written from.
proof fn lemma_field(b: Seq<u8>)
    ensures
        spec_hex_decode(field_text(b)) == Some(b),
        field_text(b).len() >= 1,
        solid(field_text(b)),
{
    let t = field_text(b);
    if b.len() == 0 {
        assert(t =~= seq!['-']);
        assert(spec_hex_decode(t) == Some(Seq::<u8>::empty()));
        assert(Seq::<u8>::empty() =~= b);
        assert(!is_white_space(t[0]));
    } else {
        assert(t == hex_text(b));
        assert(t.len() == 2 * b.len());
        assert(t != seq!['-']) by {
            assert(seq!['-'].len() == 1);
        }
        assert forall|i: int| 0 <= i < t.len() implies #[trigger] hex_val(t[i]) is Some
            && !is_white_space(t[i]) by {
            let k = i / 2;
            assert(0 <= k < b.len());
            if i % 2 == 0 {
                lemma_hex_digit(b[k] as int / 16);
            } else {
                lemma_hex_digit(b[k] as int % 16);
            }
        }
        let d = Seq::new(
            t.len() / 2,
            |i: int| (hex_val(t[2 * i]).unwrap() * 16 + hex_val(t[2 * i + 1]).unwrap()) as u8,
        );
        assert(spec_hex_decode(t) == Some(d));
        assert forall|i: int| 0 <= i < b.len() implies #[trigger] d[i] == b[i] by {
            assert((2 * i) % 2 == 0 && (2 * i) / 2 == i);
            assert((2 * i + 1) % 2 == 1 && (2 * i + 1) / 2 == i);
            lemma_hex_digit(b[i] as int / 16);
            lemma_hex_digit(b[i] as int % 16);
            assert(t[2 * i] == hex_digit(b[i] as int / 16));
            assert(t[2 * i + 1] == hex_digit(b[i] as int % 16));
            assert((b[i] as int / 16) * 16 + b[i] as int % 16 == b[i] as int);
        }
        assert(d =~= b);
    }
}

/// A name field reads back as the name it was written from; a name must not
/// be empty, for an empty one is written as no name at all.
proof fn lemma_name(name: Option<Seq<char>>)
    requires
        name matches Some(n) ==> n.len() > 0,
    ensures
        parse_name(name_bytes(name)) == Some(name),
{
    broadcast use vstd::utf8::encode_utf8_valid_utf8, vstd::utf8::encode_utf8_decode_utf8;

    if let Some(n) = name {
        let b = vstd::utf8::encode_utf8(n);
        if b.len() == 0 {
            assert(b =~= Seq::<u8>::empty());
            assert(vstd::utf8::decode_utf8(Seq::<u8>::empty()) =~= Seq::<char>::empty());
            assert(false);
        }
    }
}

/// A word after a gap extends the words of a text by one.
proof fn lemma_split_word(t: Seq<char>, w: Seq<char>)
    requires
        w.len() > 0,
        solid(w),
        !word_split(t).1,
    ensures
        word_split(t + w) == (word_split(t).0.push(w), true),
    decreases w.len(),
{
    let w2 = w.drop_last();
    assert((t + w).drop_last() =~= t + w2);
    assert((t + w).last() == w.last());
    assert(!is_white_space(w[w.len() - 1]));
    if w2.len() == 0 {
        assert(t + w2 =~= t);
        assert(seq![w.last()] =~= w);
    } else {
        assert forall|i: int| 0 <= i < w2.len() implies !is_white_space(#[trigger] w2[i]) by {
            assert(w2[i] == w[i]);
        }
        lemma_split_word(t, w2);
        assert(w2.push(w.last()) =~= w);
        assert(word_split(t).0.push(w2).update(word_split(t).0.len() as int, w) =~= word_split(
            t,
        ).0.push(w));
    }
}

/// A space ends the open word of a text.
proof fn lemma_split_space_word(t: Seq<char>, w: Seq<char>)
    requires
        w.len() > 0,
        solid(w),
    ensures
        word_split(t + seq![' '] + w) == (word_split(t).0.push(w), true),
{
    let ts = t + seq![' '];
    assert(ts.drop_last() =~= t);
    assert(is_white_space(ts.last()));
    assert(t + seq![' '] + w == ts + w);
    lemma_split_word(ts, w);
}

/// A single word is one word.
proof fn lemma_split_one(w: Seq<char>)
    requires
        w.len() > 0,
        solid(w),
    ensures
        word_split(w) == (seq![w], true),
{
    lemma_split_word(Seq::empty(), w);
    assert(Seq::<char>::empty() + w =~= w);
    assert(Seq::<Seq<char>>::empty().push(w) =~= seq![w]);
}

/// A text without white space at either end is its own trimmed form.
proof fn lemma_trimmed_solid_ends(s: Seq<char>)
    requires
        s.len() > 0,
        !is_white_space(s[0]),
        !is_white_space(s[s.len() - 1]),
    ensures
        trimmed(s) == s,
{
    assert(leading_ws(s, 0) == 0);
    assert(trailing_end(s, s.len() as int) == s.len());
    assert(s.subrange(0, s.len() as int) =~= s);
}

/// Whether a text holds no line break.
pub open spec fn one_line(s: Seq<char>) -> bool {
    forall|i: int| 0 <= i < s.len() ==> #[trigger] s[i] != '\n'
}

proof fn lemma_one_line_join(a: Seq<char>, b: Seq<char>)
    requires
        one_line(a),
        one_line(b),
    ensures
        one_line(a + b),
{
    assert forall|i: int| 0 <= i < (a + b).len() implies #[trigger] (a + b)[i] != '\n' by {
        if i < a.len() {
            assert((a + b)[i] == a[i]);
        } else {
            assert((a + b)[i] == b[i - a.len()]);
        }
    }
}

proof fn lemma_solid_one_line(s: Seq<char>)
    requires
        solid(s),
    ensures
        one_line(s),
{
    assert forall|i: int| 0 <= i < s.len() implies #[trigger] s[i] != '\n' by {
        assert(!is_white_space(s[i]));
        assert(is_white_space('\n'));
    }
}

/// An entry line without its line break.
pub open spec fn entry_body(e: EntryView) -> Seq<char> {
    spec_signed_decimal(e.key.id as int) + seq![' '] + spec_decimal(e.key.crc as nat) + seq![' ']
        + field_text(name_bytes(e.name)) + seq![' '] + field_text(e.blob)
}

/// Whether an entry is written and read back unchanged: a name, when there
/// is one, is not empty, and the blob is within the document's limit.
pub open spec fn entry_keeps(e: EntryView) -> bool {
    &&& (e.name matches Some(n) ==> n.len() > 0)
    &&& e.blob.len() <= MAX_BLOB_BYTES
}

/// Four words joined by single spaces: one line, already trimmed, whose
/// words are the four.
proof fn lemma_four_words(a: Seq<char>, b: Seq<char>, c: Seq<char>, d: Seq<char>)
    requires
        a.len() > 0 && solid(a),
        b.len() > 0 && solid(b),
        c.len() > 0 && solid(c),
        d.len() > 0 && solid(d),
    ensures
        ({
            let body = a + seq![' '] + b + seq![' '] + c + seq![' '] + d;
            &&& spec_words(body) == seq![a, b, c, d]
            &&& one_line(body)
            &&& trimmed(body) == body
            &&& body[0] == a[0]
        }),
{
    let sp = seq![' '];
    let body = a + sp + b + sp + c + sp + d;
    assert(spec_words(body) =~= seq![a, b, c, d]) by {
        lemma_split_one(a);
        lemma_split_space_word(a, b);
        lemma_split_space_word(a + sp + b, c);
        lemma_split_space_word(a + sp + b + sp + c, d);
    }
    assert(one_line(body)) by {
        lemma_solid_one_line(a);
        lemma_solid_one_line(b);
        lemma_solid_one_line(c);
        lemma_solid_one_line(d);
        assert(one_line(sp));
        lemma_one_line_join(a, sp);
        lemma_one_line_join(a + sp, b);
        lemma_one_line_join(a + sp + b, sp);
        lemma_one_line_join(a + sp + b + sp, c);
        lemma_one_line_join(a + sp + b + sp + c, sp);
        lemma_one_line_join(a + sp + b + sp + c + sp, d);
    }
    assert(trimmed(body) == body) by {
        assert(body[0] == a[0]);
        assert(body[body.len() - 1] == d[d.len() - 1]);
        lemma_trimmed_solid_ends(body);
    }
}

/// Four fields that read back as an entry's parts make that entry.
proof fn lemma_entry_fields(e: EntryView, a: Seq<char>, b: Seq<char>, c: Seq<char>, d: Seq<char>)
    requires
        entry_keeps(e),
        spec_parse_i32(a) == Some(e.key.id),
        spec_parse_u32(b) == Some(e.key.crc),
        spec_hex_decode(c) == Some(name_bytes(e.name)),
        parse_name(name_bytes(e.name)) == Some(e.name),
        spec_hex_decode(d) == Some(e.blob),
    ensures
        parse_entry(seq![a, b, c, d]) == Some(e),
{
    let w = seq![a, b, c, d];
    assert(w[0] == a && w[1] == b && w[2] == c && w[3] == d);
}

/// An entry's line, read back, is the entry.
proof fn lemma_entry(e: EntryView)
    requires
        entry_keeps(e),
    ensures
        entry_line(e) == entry_body(e) + seq!['\n'],
        one_line(entry_body(e)),
        !blank_or_comment(entry_body(e)),
        trimmed(entry_body(e)) == entry_body(e),
        parse_entry(spec_words(trimmed(entry_body(e)))) == Some(e),
{
    let a = spec_signed_decimal(e.key.id as int);
    let b = spec_decimal(e.key.crc as nat);
    let c = field_text(name_bytes(e.name));
    let d = field_text(e.blob);
    let body = entry_body(e);
    assert(body == a + seq![' '] + b + seq![' '] + c + seq![' '] + d);
    assert(entry_line(e) =~= body + seq!['\n']);
    assert(spec_words(body) == seq![a, b, c, d] && one_line(body) && trimmed(body) == body
        && body[0] == a[0]) by {
        lemma_parse_i32_signed(e.key.id);
        lemma_parse_u32_decimal(e.key.crc);
        lemma_field(name_bytes(e.name));
        lemma_field(e.blob);
        lemma_four_words(a, b, c, d);
    }
    assert(a[0] != '#') by {
        lemma_parse_i32_signed(e.key.id);
        if e.key.id >= 0 {
            lemma_decimal(e.key.id as nat);
            assert(is_digit(a[0]));
        }
    }
    assert(parse_entry(seq![a, b, c, d]) == Some(e)) by {
        lemma_parse_i32_signed(e.key.id);
        lemma_parse_u32_decimal(e.key.crc);
        lemma_field(name_bytes(e.name));
        lemma_field(e.blob);
        lemma_name(e.name);
        lemma_entry_fields(e, a, b, c, d);
    }
}

/// Text without a line break continues the last segment.
proof fn lemma_segments_extend(t: Seq<char>, l: Seq<char>)
    requires
        one_line(l),
    ensures
        segments(t + l) == segments(t).update(segments(t).len() - 1, segments(t).last() + l),
    decreases l.len(),
{
    lemma_segments_nonempty(t);
    if l.len() == 0 {
        assert(t + l =~= t);
        assert(segments(t).last() + l =~= segments(t).last());
        assert(segments(t).update(segments(t).len() - 1, segments(t).last()) =~= segments(t));
    } else {
        let l2 = l.drop_last();
        assert(one_line(l2)) by {
            assert forall|i: int| 0 <= i < l2.len() implies #[trigger] l2[i] != '\n' by {
                assert(l2[i] == l[i]);
            }
        }
        lemma_segments_extend(t, l2);
        assert((t + l).drop_last() =~= t + l2);
        assert((t + l).last() == l.last());
        assert(l.last() != '\n');
        assert((segments(t).last() + l2).push(l.last()) =~= segments(t).last() + l);
        let prev = segments(t).update(segments(t).len() - 1, segments(t).last() + l2);
        assert(prev.update(prev.len() - 1, prev.last().push(l.last())) =~= segments(t).update(
            segments(t).len() - 1,
            segments(t).last() + l,
        ));
    }
}

/// A line and its break close the last segment and open an empty one.
proof fn lemma_segments_line(t: Seq<char>, l: Seq<char>)
    requires
        one_line(l),
    ensures
        segments(t + l + seq!['\n']) == segments(t).update(
            segments(t).len() - 1,
            segments(t).last() + l,
        ).push(Seq::empty()),
{
    lemma_segments_extend(t, l);
    let u = t + l + seq!['\n'];
    assert(u.drop_last() =~= t + l);
    assert(u.last() == '\n');
}

/// The header line without its break.
pub open spec fn header_body() -> Seq<char> {
    "palace-prop-trash"@ + seq![' '] + "1"@
}

/// The entry lines of a list without their breaks.
pub open spec fn entry_bodies(es: Seq<EntryView>) -> Seq<Seq<char>> {
    Seq::new(es.len(), |i: int| entry_body(es[i]))
}

/// Whether every entry of a list is written and read back unchanged.
pub open spec fn entries_keep(es: Seq<EntryView>) -> bool {
    forall|i: int| 0 <= i < es.len() ==> entry_keeps(#[trigger] es[i])
}

proof fn lemma_header()
    ensures
        header_line() == header_body() + seq!['\n'],
        one_line(header_body()),
        trimmed(header_body()).len() > 0,
        header_ok(spec_words(header_body())),
{
    reveal_strlit("palace-prop-trash 1\n");
    reveal_strlit("palace-prop-trash");
    reveal_strlit("1");
    let m = "palace-prop-trash"@;
    let one = "1"@;
    let h = header_body();
    assert(header_line() =~= h + seq!['\n']);
    assert(solid(m)) by {
        assert forall|i: int| 0 <= i < m.len() implies !is_white_space(#[trigger] m[i]) by {
            assert(m[i] == 'p' || m[i] == 'a' || m[i] == 'l' || m[i] == 'c' || m[i] == 'e' || m[i]
                == '-' || m[i] == 'r' || m[i] == 'o' || m[i] == 't' || m[i] == 's' || m[i] == 'h');
        }
    }
    assert(solid(one));
    lemma_split_one(m);
    lemma_split_space_word(m, one);
    assert(spec_words(h) =~= seq![m, one]);
    assert(one =~= seq!['1']);
    assert(digits_value(one) == 1) by {
        assert(one.drop_last() =~= Seq::<char>::empty());
        assert(digits_value(one.drop_last()) == 0);
        assert(one.last() == '1');
        assert(digits_value(one) == digits_value(one.drop_last()) * 10 + (one.last() as int - 48));
    }
    assert(spec_parse_u32(one) == Some(1u32));
    assert(one_line(h)) by {
        lemma_solid_one_line(m);
        lemma_solid_one_line(one);
        assert(one_line(seq![' ']));
        lemma_one_line_join(m, seq![' ']);
        lemma_one_line_join(m + seq![' '], one);
    }
    assert(h[0] == 'p' && h[h.len() - 1] == '1');
    lemma_trimmed_solid_ends(h);
}

/// The segments of a rendered document: the header, one per entry, and the
/// empty one after the last break.
proof fn lemma_render_segments(es: Seq<EntryView>)
    requires
        entries_keep(es),
    ensures
        segments(spec_render(es)) == seq![header_body()] + entry_bodies(es) + seq![
            Seq::<char>::empty(),
        ],
    decreases es.len(),
{
    lemma_header();
    if es.len() == 0 {
        assert(spec_render(es) =~= Seq::<char>::empty() + header_body() + seq!['\n']);
        lemma_segments_line(Seq::empty(), header_body());
        assert(segments(Seq::<char>::empty()) == seq![Seq::<char>::empty()]);
        assert(Seq::<char>::empty() + header_body() =~= header_body());
        assert(seq![Seq::<char>::empty()].update(0, header_body()).push(Seq::<char>::empty())
            =~= seq![header_body()] + entry_bodies(es) + seq![Seq::<char>::empty()]);
    } else {
        let front = es.drop_last();
        let e = es.last();
        assert(entries_keep(front)) by {
            assert forall|i: int| 0 <= i < front.len() implies entry_keeps(#[trigger] front[i]) by {
                assert(front[i] == es[i]);
            }
        }
        lemma_render_segments(front);
        assert(entry_keeps(es[es.len() - 1]));
        lemma_entry(e);
        assert(spec_render(es) =~= spec_render(front) + entry_body(e) + seq!['\n']);
        lemma_segments_line(spec_render(front), entry_body(e));
        let prev = segments(spec_render(front));
        assert(prev.last() == Seq::<char>::empty());
        assert(Seq::<char>::empty() + entry_body(e) =~= entry_body(e));
        assert(prev.update(prev.len() - 1, entry_body(e)).push(Seq::<char>::empty()) =~= seq![
            header_body(),
        ] + entry_bodies(es) + seq![Seq::<char>::empty()]);
    }
}

/// The body lines of a rendered document read back as its first entries.
proof fn lemma_parse_bodies(ls: Seq<Seq<char>>, es: Seq<EntryView>, k: int)
    requires
        ls == seq![header_body()] + entry_bodies(es),
        entries_keep(es),
        es.len() <= MAX_ENTRIES,
        0 <= k <= es.len(),
    ensures
        parse_body(ls, 1, k + 1) == Some(es.take(k)),
    decreases k,
{
    if k == 0 {
        assert(es.take(0) =~= Seq::<EntryView>::empty());
    } else {
        lemma_parse_bodies(ls, es, k - 1);
        let e = es[k - 1];
        assert(entry_keeps(e));
        lemma_entry(e);
        assert(ls[k] == entry_body(e));
        assert(es.take(k - 1).push(e) =~= es.take(k));
    }
}

/// A rendered trash document reads back as the entries it was rendered
/// from, provided each entry's name, when it has one, is not empty, each
/// blob is within the document's limit and the list is within the trash's
/// capacity.
pub proof fn lemma_render_then_parse(es: Seq<EntryView>)
    requires
        entries_keep(es),
        es.len() <= MAX_ENTRIES,
    ensures
        spec_parse_trash(spec_render(es)) == Some(es),
{
    lemma_render_segments(es);
    lemma_header();
    let segs = segments(spec_render(es));
    let ls = spec_lines(spec_render(es));
    assert(segs.last() == Seq::<char>::empty());
    assert(ls =~= seq![header_body()] + entry_bodies(es));
    assert(ls[0] == header_body());
    assert(first_nonblank(ls, 0) == Some(0int));
    lemma_parse_bodies(ls, es, es.len() as int);
    assert(es.take(es.len() as int) =~= es);
}

} // verus!
