//! The decisions behind the corpus tool: the raw-RGBA dump format, the image
//! digest, the roster index the tool walks, the extract plan, the encode
//! options, the PNG sample widening and the inventory tally. The command-line
//! program reads and writes the files; everything it decides is here.

use vstd::prelude::*;

use crate::error::{spec_message, PropError};
use crate::header::{spec_format_name, PropEndian, PropFormat, PropHeader, FLAG_GHOST, FLAG_HEAD};
use crate::image::PropImage;
use crate::png_codec::{png_buffer_sized, png_frame, png_read_frame, PngColor, PngReadError};
use crate::prp::read::le_u32;
use crate::text::{push_char, push_decimal, push_str, spec_decimal};

verus! {

// ---------------------------------------------------------------------------
// Raw RGBA dump
// ---------------------------------------------------------------------------

/// The raw dump of an image: `PRGBA1`, the width and height little-endian,
/// then the RGBA bytes.
pub open spec fn spec_prgba(width: u32, height: u32, rgba: Seq<u8>) -> Seq<u8> {
    "PRGBA1"@.map_values(|c: char| c as u8) + crate::prp::write::u32_le(width)
        + crate::prp::write::u32_le(height) + rgba
}

/// The raw dump the differential oracle reads.
pub fn prgba_dump(image: &PropImage) -> (r: Vec<u8>)
    ensures
        r@ == spec_prgba(image@.width, image@.height, image@.rgba),
{
    let mut out: Vec<u8> = Vec::new();
    out.push(80u8);
    out.push(82u8);
    out.push(71u8);
    out.push(66u8);
    out.push(65u8);
    out.push(49u8);
    proof {
        reveal_strlit("PRGBA1");
    }
    assert(out@ =~= "PRGBA1"@.map_values(|c: char| c as u8));
    crate::prp::write::put_u32(&mut out, image.width());
    crate::prp::write::put_u32(&mut out, image.height());
    crate::prp::write::put_bytes(&mut out, image.as_rgba());
    out
}

// ---------------------------------------------------------------------------
// FNV-1a digest
// ---------------------------------------------------------------------------

/// The FNV-1a offset basis.
pub const FNV_OFFSET: u64 = 0xcbf2_9ce4_8422_2325;

/// The FNV-1a prime.
pub const FNV_PRIME: u64 = 0x0000_0100_0000_01b3;

/// One FNV-1a step.
pub open spec fn fnv_step(hash: u64, byte: u8) -> u64 {
    ((hash ^ (byte as u64)) as int * FNV_PRIME as int % 0x1_0000_0000_0000_0000) as u64
}

/// FNV-1a over a byte string, from `hash`.
pub open spec fn fnv(hash: u64, bytes: Seq<u8>) -> u64
    decreases bytes.len(),
{
    if bytes.len() == 0 {
        hash
    } else {
        fnv_step(fnv(hash, bytes.drop_last()), bytes.last())
    }
}

/// The digest of an image: FNV-1a 64 over the dimensions, little-endian, then
/// the RGBA bytes.
pub open spec fn spec_image_digest(width: u32, height: u32, rgba: Seq<u8>) -> u64 {
    fnv(
        FNV_OFFSET,
        crate::prp::write::u32_le(width) + crate::prp::write::u32_le(height) + rgba,
    )
}

fn fnv_over(hash: u64, bytes: &[u8]) -> (r: u64)
    ensures
        r == fnv(hash, bytes@),
{
    let mut h = hash;
    let mut i: usize = 0;
    while i < bytes.len()
        invariant
            i <= bytes@.len(),
            h == fnv(hash, bytes@.subrange(0, i as int)),
        decreases bytes@.len() - i,
    {
        let ghost pre = bytes@.subrange(0, i as int + 1);
        assert(pre.drop_last() =~= bytes@.subrange(0, i as int));
        h = (h ^ (bytes[i] as u64)).wrapping_mul(FNV_PRIME);
        i = i + 1;
    }
    assert(bytes@.subrange(0, i as int) =~= bytes@);
    h
}

proof fn lemma_fnv_concat(hash: u64, a: Seq<u8>, b: Seq<u8>)
    ensures
        fnv(hash, a + b) == fnv(fnv(hash, a), b),
    decreases b.len(),
{
    if b.len() == 0 {
        assert(a + b =~= a);
    } else {
        lemma_fnv_concat(hash, a, b.drop_last());
        assert((a + b).drop_last() =~= a + b.drop_last());
    }
}

/// FNV-1a (64-bit) of a decoded image: dimensions followed by the RGBA bytes.
/// Any pixel difference anywhere changes the digest.
pub fn image_digest(width: u32, height: u32, rgba: &[u8]) -> (r: u64)
    ensures
        r == spec_image_digest(width, height, rgba@),
{
    let mut head: Vec<u8> = Vec::new();
    crate::prp::write::put_u32(&mut head, width);
    crate::prp::write::put_u32(&mut head, height);
    let h = fnv_over(FNV_OFFSET, head.as_slice());
    proof {
        lemma_fnv_concat(
            FNV_OFFSET,
            crate::prp::write::u32_le(width) + crate::prp::write::u32_le(height),
            rgba@,
        );
    }
    fnv_over(h, rgba)
}

// ---------------------------------------------------------------------------
// Failure text
// ---------------------------------------------------------------------------

/// How a failure is reported: zlib errors, whose details are long and highly
/// variable, collapse to one phrase.
pub open spec fn spec_describe(e: PropError) -> Seq<char> {
    match e {
        PropError::Zlib { .. } => "zlib stream rejected"@,
        other => spec_message(other),
    }
}

/// The failure text of an error.
pub fn describe(error: &PropError) -> (r: String)
    ensures
        r@ == spec_describe(*error),
{
    match error {
        PropError::Zlib { .. } => String::from_str("zlib stream rejected"),
        other => other.message(),
    }
}

// ---------------------------------------------------------------------------
// The roster index the tool walks
// ---------------------------------------------------------------------------

/// The parts of a `.prp` file the tool needs: where the data region and the
/// asset map are, how many records there are and where their table is.
#[derive(Debug, Clone, Copy, PartialEq, Eq)]
pub struct RosterIndex {
    /// The data region's offset.
    pub data_offset: usize,
    /// The asset map's offset.
    pub map_offset: usize,
    /// The record count.
    pub n_assets: usize,
    /// The record table's offset inside the map.
    pub recs_offset: usize,
}

/// The little-endian word at `at`, when four bytes are there.
pub open spec fn word_at(buf: Seq<u8>, at: int) -> Option<int> {
    if 0 <= at && at + 4 <= buf.len() {
        Some(le_u32(buf, at) as int)
    } else {
        None
    }
}

/// Most records the tool agrees to walk.
pub const MAX_TOOL_ASSETS: usize = 4000000;

/// What the tool reads of a file's headers.
pub open spec fn spec_roster_index(buf: Seq<u8>) -> Option<RosterIndex> {
    match (word_at(buf, 0), word_at(buf, 8)) {
        (Some(data_offset), Some(map_offset)) => match (
            word_at(buf, map_offset + 4),
            word_at(buf, map_offset + 16),
        ) {
            (Some(n_assets), Some(recs_offset)) => if n_assets > MAX_TOOL_ASSETS {
                None
            } else {
                Some(
                    RosterIndex {
                        data_offset: data_offset as usize,
                        map_offset: map_offset as usize,
                        n_assets: n_assets as usize,
                        recs_offset: recs_offset as usize,
                    },
                )
            },
            _ => None,
        },
        _ => None,
    }
}

fn word_at_exec(buf: &[u8], at: u64) -> (r: Option<u64>)
    ensures
        match word_at(buf@, at as int) {
            Some(v) => r == Some(v as u64),
            None => r is None,
        },
{
    let n = buf.len() as u64;
    if at > n || n - at < 4 {
        return None;
    }
    Some(crate::prp::read::word_u32(buf, at as usize) as u64)
}

impl RosterIndex {
    /// Read the headers of a `.prp` file; `None` when they are cut short or
    /// claim more than [`MAX_TOOL_ASSETS`] records.
    pub fn parse(buf: &[u8]) -> (r: Option<Self>)
        ensures
            r == spec_roster_index(buf@),
    {
        let data_offset = match word_at_exec(buf, 0) {
            Some(v) => v,
            None => {
                return None;
            },
        };
        let map_offset = match word_at_exec(buf, 8) {
            Some(v) => v,
            None => {
                return None;
            },
        };
        let n_assets = match word_at_exec(buf, map_offset + 4) {
            Some(v) => v,
            None => {
                return None;
            },
        };
        let recs_offset = match word_at_exec(buf, map_offset + 16) {
            Some(v) => v,
            None => {
                return None;
            },
        };
        if n_assets > MAX_TOOL_ASSETS as u64 {
            return None;
        }
        Some(
            RosterIndex {
                data_offset: data_offset as usize,
                map_offset: map_offset as usize,
                n_assets: n_assets as usize,
                recs_offset: recs_offset as usize,
            },
        )
    }

    /// The record at position `i`: `(id, data offset, data size)` when its 32
    /// bytes are present and it carries at least a 12-byte payload.
    pub open spec fn spec_record(self, buf: Seq<u8>, i: int) -> Option<(u32, int, int)> {
        let at = self.map_offset + self.recs_offset + i * 32;
        if at + 32 <= buf.len() {
            let size = le_u32(buf, at + 12) as int;
            if size >= 12 {
                Some((le_u32(buf, at), le_u32(buf, at + 8) as int, size))
            } else {
                None
            }
        } else {
            None
        }
    }

    /// Every record that carries a payload, in order.
    pub open spec fn spec_records(self, buf: Seq<u8>, n: int) -> Seq<(u32, int, int)>
        decreases n,
    {
        if n <= 0 {
            Seq::empty()
        } else {
            let prev = self.spec_records(buf, n - 1);
            match self.spec_record(buf, n - 1) {
                Some(r) => prev.push(r),
                None => prev,
            }
        }
    }

    /// `(id, data offset, data size)` for every record that carries a payload.
    pub fn records(&self, buf: &[u8]) -> (r: Vec<(u32, usize, usize)>)
        ensures
            r@.len() == self.spec_records(buf@, self.n_assets as int).len(),
            forall|k: int|
                0 <= k < r@.len() ==> {
                    let (id, off, size) = self.spec_records(buf@, self.n_assets as int)[k];
                    &&& (#[trigger] r@[k]).0 == id
                    &&& r@[k].1 as int == off
                    &&& r@[k].2 as int == size
                },
    {
        let mut out: Vec<(u32, usize, usize)> = Vec::new();
        let mut i: usize = 0;
        let len = buf.len();
        while i < self.n_assets
            invariant
                i <= self.n_assets,
                len == buf@.len(),
                out@.len() == self.spec_records(buf@, i as int).len(),
                forall|k: int|
                    0 <= k < out@.len() ==> {
                        let (id, off, size) = self.spec_records(buf@, i as int)[k];
                        &&& (#[trigger] out@[k]).0 == id
                        &&& out@[k].1 as int == off
                        &&& out@[k].2 as int == size
                    },
            decreases self.n_assets - i,
        {
            let at: u128 = self.map_offset as u128 + self.recs_offset as u128 + i as u128 * 32;
            let ghost pre = self.spec_records(buf@, i as int + 1);
            if at + 32 <= len as u128 {
                let a = at as usize;
                assert(a as int == self.map_offset + self.recs_offset + i * 32);
                let size = crate::prp::read::word_u32(buf, a + 12);
                if size >= 12 {
                    let id = crate::prp::read::word_u32(buf, a);
                    let rel = crate::prp::read::word_u32(buf, a + 8);
                    out.push((id, rel as usize, size as usize));
                }
            }
            i = i + 1;
        }
        out
    }
}

// ---------------------------------------------------------------------------
// Roster slices and the extract plan
// ---------------------------------------------------------------------------

/// Where one prop blob of a roster lies in the file.
#[derive(Debug, Clone, Copy, PartialEq, Eq)]
pub struct BlobSlice {
    /// The record's id.
    pub id: u32,
    /// The blob's position in the record list that carries payloads.
    pub index: usize,
    /// The blob's first byte in the file.
    pub start: usize,
    /// The blob's length.
    pub len: usize,
}

/// Eight lowercase hexadecimal digits of a word, no prefix.
pub open spec fn lower_hex8(v: u32) -> Seq<char> {
    crate::json::hex4(v as int / 65536) + crate::json::hex4(v as int % 65536)
}

/// Append eight lowercase hexadecimal digits.
pub fn push_lower_hex8(out: &mut String, v: u32)
    ensures
        final(out)@ == old(out)@ + lower_hex8(v),
{
    crate::json::push_hex4(out, v / 65536);
    crate::json::push_hex4(out, v % 65536);
    assert(out@ =~= old(out)@ + lower_hex8(v));
}

/// The format name the extract file name carries: the header's format, or
/// `bad` when the blob has no valid header.
pub open spec fn blob_label(blob: Seq<u8>) -> Seq<char> {
    match crate::header::spec_parse_header(blob) {
        Ok(h) => spec_format_name(crate::header::spec_format(h.flags))@,
        Err(_) => "bad"@,
    }
}

/// The file name one extracted blob is written under.
pub open spec fn extract_name(label: Seq<char>, id: u32, index: int) -> Seq<char> {
    label + seq!['_'] + lower_hex8(id) + seq!['_'] + spec_decimal(index as nat) + ".bin"@
}

/// One blob the extract command writes, with its file name.
#[derive(Debug, Clone)]
pub struct ExtractItem {
    /// The file name, `<format>_<id:08x>_<index>.bin`.
    pub file_name: String,
    /// The blob's first byte in the file.
    pub start: usize,
    /// The blob's length.
    pub len: usize,
}

/// Whether record `i` of the payload list is taken: on the stride, inside
/// the file, and of the wanted format.
pub open spec fn extract_takes(
    idx: RosterIndex,
    buf: Seq<u8>,
    rec: (u32, int, int),
    i: int,
    stride: int,
    wanted: Option<Seq<char>>,
) -> bool {
    let start = idx.data_offset + rec.1;
    let end = start + rec.2;
    &&& i % stride == 0
    &&& end <= buf.len()
    &&& match wanted {
        Some(w) => w == blob_label(buf.subrange(start, end)),
        None => true,
    }
}

/// The label of a blob.
fn label_of(blob: &[u8]) -> (r: &'static str)
    ensures
        r@ == blob_label(blob@),
{
    match crate::decode_header(blob) {
        Ok(h) => h.format().name(),
        Err(_) => "bad",
    }
}

/// Whether two texts are equal.
fn texts_equal(a: &str, b: &str) -> (r: bool)
    ensures
        r == (a@ == b@),
{
    crate::text::str_eq(a, b)
}

/// The blobs `extract` writes from the first `n` payload records, as
/// `(file name, start, length)`.
pub open spec fn spec_extract(
    idx: RosterIndex,
    buf: Seq<u8>,
    recs: Seq<(u32, int, int)>,
    n: int,
    stride: int,
    want: Option<Seq<char>>,
) -> Seq<(Seq<char>, int, int)>
    decreases n,
{
    if n <= 0 {
        Seq::empty()
    } else {
        let prev = spec_extract(idx, buf, recs, n - 1, stride, want);
        let i = n - 1;
        let rec = recs[i];
        let start = idx.data_offset + rec.1;
        if extract_takes(idx, buf, rec, i, stride, want) {
            prev.push(
                (
                    extract_name(blob_label(buf.subrange(start, start + rec.2)), rec.0, i),
                    start,
                    rec.2,
                ),
            )
        } else {
            prev
        }
    }
}

/// The plain view of extract items.
pub open spec fn items_view(items: Seq<ExtractItem>) -> Seq<(Seq<char>, int, int)> {
    Seq::new(items.len(), |k: int| (items[k].file_name@, items[k].start as int, items[k].len as int))
}

/// The blobs `extract` writes, in order, before its `--limit` is applied:
/// every `stride`-th record that carries a payload inside the file, of the
/// wanted format when one is named. `None` when the file is not a roster.
pub fn extract_plan(buf: &[u8], stride: usize, wanted: Option<&str>) -> (r: Option<Vec<ExtractItem>>)
    requires
        stride > 0,
    ensures
        match spec_roster_index(buf@) {
            None => r is None,
            Some(idx) => r matches Some(items) && items_view(items@) == spec_extract(
                idx,
                buf@,
                idx.spec_records(buf@, idx.n_assets as int),
                idx.spec_records(buf@, idx.n_assets as int).len() as int,
                stride as int,
                match wanted {
                    Some(w) => Some(w@),
                    None => None,
                },
            ),
        },
{
    let idx = match RosterIndex::parse(buf) {
        Some(i) => i,
        None => {
            return None;
        },
    };
    let recs = idx.records(buf);
    let ghost srecs = idx.spec_records(buf@, idx.n_assets as int);
    let ghost want = match wanted {
        Some(w) => Some(w@),
        None => None::<Seq<char>>,
    };
    let len = buf.len();
    let mut items: Vec<ExtractItem> = Vec::new();
    let mut i: usize = 0;
    while i < recs.len()
        invariant
            i <= recs@.len(),
            len == buf@.len(),
            stride > 0,
            srecs == idx.spec_records(buf@, idx.n_assets as int),
            want == (match wanted {
                Some(w) => Some(w@),
                None => None::<Seq<char>>,
            }),
            recs@.len() == srecs.len(),
            forall|k: int|
                0 <= k < recs@.len() ==> {
                    let (id, off, size) = srecs[k];
                    &&& (#[trigger] recs@[k]).0 == id
                    &&& recs@[k].1 as int == off
                    &&& recs@[k].2 as int == size
                },
            items_view(items@) == spec_extract(idx, buf@, srecs, i as int, stride as int, want),
        decreases recs@.len() - i,
    {
        let (id, rel, size) = recs[i];
        assert(recs@[i as int].0 == srecs[i as int].0);
        let start: u128 = idx.data_offset as u128 + rel as u128;
        let end: u128 = start + size as u128;
        let ghost before = items_view(items@);
        if i % stride == 0 && end <= len as u128 {
            let s = start as usize;
            let e = end as usize;
            let blob = &buf[s..e];
            assert(blob@ == buf@.subrange(s as int, e as int));
            let label = label_of(blob);
            let take = match wanted {
                Some(w) => texts_equal(w, label),
                None => true,
            };
            if take {
                let mut name = String::from_str(label);
                push_char(&mut name, '_');
                push_lower_hex8(&mut name, id);
                push_char(&mut name, '_');
                push_decimal(&mut name, i as u64);
                push_str(&mut name, ".bin");
                assert(name@ =~= extract_name(label@, id, i as int));
                items.push(ExtractItem { file_name: name, start: s, len: size });
                assert(items_view(items@) =~= before.push((name@, s as int, size as int)));
            }
        }
        i = i + 1;
    }
    Some(items)
}

// ---------------------------------------------------------------------------
// Encode options
// ---------------------------------------------------------------------------

/// The head/ghost/offset flags the encode commands take.
#[derive(Debug, Clone, Copy, PartialEq, Eq)]
pub struct EncodeOptions {
    /// `--head`.
    pub head: bool,
    /// `--ghost`.
    pub ghosted: bool,
    /// `--h-offset N`.
    pub h_offset: i16,
    /// `--v-offset N`.
    pub v_offset: i16,
}

/// What `str::parse::<i16>` makes of a text.
pub open spec fn spec_parse_i16(s: Seq<char>) -> Option<i16> {
    if s.len() > 0 && s[0] == '-' {
        let d = s.drop_first();
        if crate::trash_doc::digits_within(d, 0x8000) {
            Some((-crate::trash_doc::digits_value(d)) as i16)
        } else {
            None
        }
    } else {
        let d = if s.len() > 0 && s[0] == '+' {
            s.drop_first()
        } else {
            s
        };
        if crate::trash_doc::digits_within(d, 0x7FFF) {
            Some(crate::trash_doc::digits_value(d) as i16)
        } else {
            None
        }
    }
}

/// Parse an `i16` as `str::parse` does.
pub fn parse_i16_text(t: &[char]) -> (r: Option<i16>)
    ensures
        r == spec_parse_i16(t@),
{
    if t.len() > 0 && t[0] == '-' {
        assert(t@.subrange(1, t@.len() as int) =~= t@.drop_first());
        match crate::trash_doc::digits_upto(t, 1, 0x8000) {
            Some(v) => {
                let neg: i64 = 0i64 - (v as i64);
                Some(neg as i16)
            },
            None => None,
        }
    } else {
        let start: usize = if t.len() > 0 && t[0] == '+' {
            1
        } else {
            0
        };
        assert(t@.subrange(start as int, t@.len() as int) =~= if t@.len() > 0 && t@[0] == '+' {
            t@.drop_first()
        } else {
            t@
        });
        match crate::trash_doc::digits_upto(t, start, 0x7FFF) {
            Some(v) => Some(v as i16),
            None => None,
        }
    }
}

/// How `{:?}` shows one character inside a quoted string: quote,
/// backslash and the ASCII control characters escaped, everything else as
/// itself.
pub open spec fn debug_char(c: char) -> Seq<char> {
    if c == '"' {
        seq!['\\', '"']
    } else if c == '\\' {
        seq!['\\', '\\']
    } else if c == '\n' {
        seq!['\\', 'n']
    } else if c == '\r' {
        seq!['\\', 'r']
    } else if c == '\t' {
        seq!['\\', 't']
    } else if c == '\0' {
        seq!['\\', '0']
    } else if (c as u32) < 0x20 || c as u32 == 0x7f {
        seq!['\\', 'u', '{'] + (if (c as u32) < 16 {
            seq![crate::json::hex_digit(c as u32 as int)]
        } else {
            seq![crate::json::hex_digit(c as u32 as int / 16), crate::json::hex_digit(c as u32 as int % 16)]
        }) + seq!['}']
    } else {
        seq![c]
    }
}

/// A text as `{:?}` shows it, without the quotes.
pub open spec fn debug_text(s: Seq<char>) -> Seq<char>
    decreases s.len(),
{
    if s.len() == 0 {
        Seq::empty()
    } else {
        debug_text(s.drop_last()) + debug_char(s.last())
    }
}

/// A text as `{:?}` shows it: quoted and escaped.
pub open spec fn debug_quoted(s: Seq<char>) -> Seq<char> {
    seq!['"'] + debug_text(s) + seq!['"']
}

/// What the option words from `i` on make of `acc`: the options, or the
/// message that refuses them.
pub open spec fn spec_options(args: Seq<Seq<char>>, i: int, acc: EncodeOptions) -> Result<EncodeOptions, Seq<char>>
    decreases args.len() - i,
{
    if i < 0 || i >= args.len() {
        Ok(acc)
    } else if args[i] == "--head"@ {
        spec_options(args, i + 1, EncodeOptions { head: true, ..acc })
    } else if args[i] == "--ghost"@ {
        spec_options(args, i + 1, EncodeOptions { ghosted: true, ..acc })
    } else if args[i] == "--h-offset"@ || args[i] == "--v-offset"@ {
        if i + 1 >= args.len() {
            Err(args[i] + " needs a value"@)
        } else if spec_parse_i16(args[i + 1]) is None {
            Err(args[i] + ": "@ + debug_quoted(args[i + 1]) + " is not a 16-bit integer"@)
        } else if args[i] == "--h-offset"@ {
            spec_options(args, i + 2, EncodeOptions { h_offset: spec_parse_i16(args[i + 1]).unwrap(), ..acc })
        } else {
            spec_options(args, i + 2, EncodeOptions { v_offset: spec_parse_i16(args[i + 1]).unwrap(), ..acc })
        }
    } else {
        Err("unknown option "@ + debug_quoted(args[i]))
    }
}

/// Append how `{:?}` shows one character inside a quoted string.
fn push_debug_char(out: &mut String, c: char)
    ensures
        final(out)@ == old(out)@ + debug_char(c),
{
    let ghost start = out@;
    if c == '"' {
        push_str(out, "\\\"");
        proof { reveal_strlit("\\\""); }
    } else if c == '\\' {
        push_str(out, "\\\\");
        proof { reveal_strlit("\\\\"); }
    } else if c == '\n' {
        push_str(out, "\\n");
        proof { reveal_strlit("\\n"); }
    } else if c == '\r' {
        push_str(out, "\\r");
        proof { reveal_strlit("\\r"); }
    } else if c == '\t' {
        push_str(out, "\\t");
        proof { reveal_strlit("\\t"); }
    } else if c == '\0' {
        push_str(out, "\\0");
        proof { reveal_strlit("\\0"); }
    } else if (c as u32) < 0x20 || c as u32 == 0x7f {
        let v = c as u32;
        push_str(out, "\\u{");
        proof { reveal_strlit("\\u{"); }
        if v >= 16 {
            crate::json::push_hex_digit(out, v / 16);
        }
        crate::json::push_hex_digit(out, v % 16);
        push_char(out, '}');
    } else {
        push_char(out, c);
    }
    assert(out@ =~= start + debug_char(c));
}

/// Append a text as `{:?}` shows it, quotes included.
pub(crate) fn push_debug(out: &mut String, text: &str)
    ensures
        final(out)@ == old(out)@ + debug_quoted(text@),
{
    let ghost start = out@;
    push_char(out, '"');
    let n = text.unicode_len();
    let mut i: usize = 0;
    while i < n
        invariant
            n == text@.len(),
            i <= n,
            out@ == start + seq!['"'] + debug_text(text@.subrange(0, i as int)),
        decreases n - i,
    {
        let c = text.get_char(i);
        push_debug_char(out, c);
        proof {
            let prefix = text@.subrange(0, i as int + 1);
            assert(prefix.drop_last() =~= text@.subrange(0, i as int));
            assert(prefix.last() == c);
        }
        i = i + 1;
        assert(out@ =~= start + seq!['"'] + debug_text(text@.subrange(0, i as int)));
    }
    assert(text@.subrange(0, i as int) =~= text@);
    push_char(out, '"');
    assert(out@ =~= start + debug_quoted(text@));
}

/// The texts of a list of arguments.
pub open spec fn args_view(args: Seq<String>) -> Seq<Seq<char>> {
    Seq::new(args.len(), |i: int| args[i]@)
}

/// The defaults: no flags, no offsets.
pub open spec fn default_options() -> EncodeOptions {
    EncodeOptions { head: false, ghosted: false, h_offset: 0, v_offset: 0 }
}

/// Parse the value after an offset option.
fn parse_offset(args: &[String], at: usize, name: &str) -> (r: Result<i16, String>)
    ensures
        at >= args@.len() ==> (r matches Err(m) && m@ == name@ + " needs a value"@),
        at < args@.len() ==> match spec_parse_i16(args@[at as int]@) {
            Some(v) => r == Ok::<i16, String>(v),
            None => r matches Err(m) && m@ == name@ + ": "@ + debug_quoted(args@[at as int]@)
                + " is not a 16-bit integer"@,
        },
{
    if at >= args.len() {
        let mut m = String::from_str(name);
        push_str(&mut m, " needs a value");
        return Err(m);
    }
    let raw = crate::trash_doc::chars_of(args[at].as_str());
    match parse_i16_text(raw.as_slice()) {
        Some(v) => Ok(v),
        None => {
            let mut m = String::from_str(name);
            push_str(&mut m, ": ");
            push_debug(&mut m, args[at].as_str());
            push_str(&mut m, " is not a 16-bit integer");
            Err(m)
        },
    }
}

impl EncodeOptions {
    /// Parse the option words after the two paths.
    pub fn parse(args: &[String]) -> (r: Result<Self, String>)
        ensures
            match spec_options(args_view(args@), 0, default_options()) {
                Ok(o) => r == Ok::<Self, String>(o),
                Err(m) => r matches Err(e) && e@ == m,
            },
    {
        let ghost av = args_view(args@);
        let mut options = EncodeOptions { head: false, ghosted: false, h_offset: 0, v_offset: 0 };
        let mut i: usize = 0;
        proof {
            reveal_strlit("--head");
            reveal_strlit("--ghost");
            reveal_strlit("--h-offset");
            reveal_strlit("--v-offset");
        }
        while i < args.len()
            invariant
                i <= args@.len(),
                av == args_view(args@),
                spec_options(av, 0, default_options()) == spec_options(av, i as int, options),
            decreases args@.len() - i,
        {
            let word = args[i].as_str();
            assert(av[i as int] == word@);
            if texts_equal(word, "--head") {
                options.head = true;
            } else if texts_equal(word, "--ghost") {
                options.ghosted = true;
            } else if texts_equal(word, "--h-offset") {
                i = i + 1;
                match parse_offset(args, i, "--h-offset") {
                    Ok(v) => {
                        options.h_offset = v;
                    },
                    Err(e) => {
                        return Err(e);
                    },
                }
            } else if texts_equal(word, "--v-offset") {
                i = i + 1;
                match parse_offset(args, i, "--v-offset") {
                    Ok(v) => {
                        options.v_offset = v;
                    },
                    Err(e) => {
                        return Err(e);
                    },
                }
            } else {
                let mut m = String::from_str("unknown option ");
                push_debug(&mut m, word);
                return Err(m);
            }
            i = i + 1;
        }
        Ok(options)
    }

    /// The flag word the options select: `HEAD` and `GHOST`.
    pub fn flags(&self) -> (r: u16)
        ensures
            r == ((if self.head {
                FLAG_HEAD
            } else {
                0u16
            }) | (if self.ghosted {
                FLAG_GHOST
            } else {
                0u16
            })),
    {
        (if self.head {
            FLAG_HEAD
        } else {
            0
        }) | (if self.ghosted {
            FLAG_GHOST
        } else {
            0
        })
    }
}

/// Whether an image of this size can be encoded: S20 packs pixels in pairs,
/// so the width must be even and non-zero, and the height non-zero.
pub open spec fn encodable(width: u32, height: u32) -> bool {
    width != 0 && height != 0 && width % 2 == 0
}

/// Why an image cannot be encoded, naming the file, or `None` when it can.
pub fn encode_refusal(label: &str, width: u32, height: u32) -> (r: Option<String>)
    ensures
        r is None == encodable(width, height),
{
    if width != 0 && height != 0 && width % 2 == 0 {
        return None;
    }
    let mut m = String::from_str(label);
    push_str(&mut m, ": cannot encode ");
    push_decimal(&mut m, width as u64);
    push_char(&mut m, 'x');
    push_decimal(&mut m, height as u64);
    push_str(&mut m, ": S20 packs pixels in pairs, so the width must be even and non-zero");
    Some(m)
}

// ---------------------------------------------------------------------------
// PNG sample widening
// ---------------------------------------------------------------------------

/// The RGBA pixels 8-bit samples widen to; `None` when the combination cannot
/// be widened without guessing. A trailing partial pixel is ignored.
pub open spec fn spec_expand(color: PngColor, eight_bit: bool, data: Seq<u8>) -> Option<Seq<u8>> {
    if !eight_bit {
        None
    } else {
        match color {
            PngColor::Rgba => Some(data),
            PngColor::Rgb => Some(
                Seq::new(
                    4 * (data.len() / 3),
                    |i: int|
                        if i % 4 == 3 {
                            255u8
                        } else {
                            data[3 * (i / 4) + i % 4]
                        },
                ),
            ),
            PngColor::Grayscale => Some(
                Seq::new(
                    4 * data.len(),
                    |i: int|
                        if i % 4 == 3 {
                            255u8
                        } else {
                            data[i / 4]
                        },
                ),
            ),
            PngColor::GrayscaleAlpha => Some(
                Seq::new(
                    4 * (data.len() / 2),
                    |i: int|
                        if i % 4 == 3 {
                            data[2 * (i / 4) + 1]
                        } else {
                            data[2 * (i / 4)]
                        },
                ),
            ),
            PngColor::Indexed => None,
        }
    }
}

/// Why a PNG file could not be turned into RGBA pixels.
#[derive(Debug, Clone, PartialEq, Eq)]
pub enum PngRgbaError {
    /// The decoder could not size an output buffer.
    BufferSize,
    /// The decoder refused the file; its message.
    Decode(String),
    /// The frame's colour type cannot be widened to RGBA.
    Unsupported,
}

/// Decode a PNG file's first frame to 8-bit RGBA: its width, height and
/// pixels. The decoder widens every sample to 8 bits; a colour type that
/// cannot be widened to RGBA is [`PngRgbaError::Unsupported`].
pub fn png_rgba(data: &[u8]) -> (r: Result<(u32, u32, Vec<u8>), PngRgbaError>)
    ensures
        (png_buffer_sized(data@) && png_frame(data@) is Some) ==> ({
            let f = png_frame(data@)->Some_0;
            match spec_expand(f.2, true, f.3) {
                Some(b) => r matches Ok(o) && o.0 == f.0 && o.1 == f.1 && o.2@ == b,
                None => r == Err::<(u32, u32, Vec<u8>), PngRgbaError>(PngRgbaError::Unsupported),
            }
        }),
        png_frame(data@) is None ==> (r matches Err(e) && !(e is Unsupported)),
        !png_buffer_sized(data@) ==> (r matches Err(e) && !(e is Unsupported)),
        r matches Ok(o) ==> (png_frame(data@) matches Some(f) && o.0 == f.0 && o.1 == f.1
            && spec_expand(f.2, true, f.3) == Some(o.2@)),
{
    match png_read_frame(data) {
        Err(PngReadError::BufferSize) => Err(PngRgbaError::BufferSize),
        Err(PngReadError::Decode(detail)) => Err(PngRgbaError::Decode(detail)),
        Ok((width, height, color, samples)) => match expand_to_rgba(color, true, samples.as_slice()) {
            Some(rgba) => Ok((width, height, rgba)),
            None => Err(PngRgbaError::Unsupported),
        },
    }
}

/// Widen 8-bit PNG samples to RGBA.
pub fn expand_to_rgba(color: PngColor, eight_bit: bool, data: &[u8]) -> (r: Option<Vec<u8>>)
    ensures
        match spec_expand(color, eight_bit, data@) {
            Some(b) => r matches Some(v) && v@ == b,
            None => r is None,
        },
{
    if !eight_bit {
        return None;
    }
    let (width, alpha_at): (usize, usize) = match color {
        PngColor::Rgba => {
            return Some(crate::codec::thirtytwo::slice_to_vec(data));
        },
        PngColor::Indexed => {
            return None;
        },
        PngColor::Rgb => (3, 3),
        PngColor::Grayscale => (1, 1),
        PngColor::GrayscaleAlpha => (2, 1),
    };
    let ghost expected = spec_expand(color, eight_bit, data@).unwrap();
    let dlen = data.len();
    let n = dlen / width;
    let mut out: Vec<u8> = Vec::new();
    let mut p: usize = 0;
    while p < n
        invariant
            n == data@.len() as int / (width as int),
            dlen == data@.len(),
            width == 3 || width == 1 || width == 2,
            color == PngColor::Rgb ==> width == 3,
            color == PngColor::Grayscale ==> width == 1,
            color == PngColor::GrayscaleAlpha ==> width == 2,
            color == PngColor::Rgb || color == PngColor::Grayscale || color == PngColor::GrayscaleAlpha,
            expected == spec_expand(color, eight_bit, data@).unwrap(),
            eight_bit,
            p <= n,
            expected.len() == 4 * n,
            out@ == expected.subrange(0, 4 * p as int),
        decreases n - p,
    {
        assert(p * width + width <= data@.len()) by (nonlinear_arith)
            requires
                p < n,
                n == data@.len() as int / (width as int),
                width > 0,
        ;
        let at = p * width;
        let (r, g, b, a) = match color {
            PngColor::Rgb => (data[at], data[at + 1], data[at + 2], 255u8),
            PngColor::Grayscale => (data[at], data[at], data[at], 255u8),
            _ => (data[at], data[at], data[at], data[at + 1]),
        };
        out.push(r);
        out.push(g);
        out.push(b);
        out.push(a);
        proof {
            assert(4 * (p as int) / 4 == p as int);
            assert((4 * (p as int) + 1) / 4 == p as int);
            assert((4 * (p as int) + 2) / 4 == p as int);
            assert((4 * (p as int) + 3) / 4 == p as int);
            assert(out@ =~= expected.subrange(0, 4 * p as int + 4));
        }
        p = p + 1;
    }
    assert(out@ =~= expected);
    Some(out)
}

// ---------------------------------------------------------------------------
// Digest lines
// ---------------------------------------------------------------------------

/// Sixteen lowercase hexadecimal digits of a 64-bit word.
pub open spec fn lower_hex16(v: u64) -> Seq<char> {
    lower_hex8((v / 0x1_0000_0000) as u32) + lower_hex8((v % 0x1_0000_0000) as u32)
}

/// One line of the digest listing: `index, format, width, height, digest`
/// tab-separated, or `index, FAIL, reason` for a rejected prop.
pub open spec fn spec_digest_line(index: usize, outcome: Result<(PropFormat, u32, u32, u64), Seq<char>>) -> Seq<char> {
    spec_decimal(index as nat) + match outcome {
        Ok((f, w, h, d)) => seq!['\t'] + spec_format_name(f)@ + seq!['\t'] + spec_decimal(w as nat)
            + seq!['\t'] + spec_decimal(h as nat) + seq!['\t'] + lower_hex16(d) + seq!['\n'],
        Err(reason) => "\tFAIL\t"@ + reason + seq!['\n'],
    }
}

/// The digest listing line for one manifest entry.
pub fn digest_line(index: usize, outcome: Result<(PropFormat, u32, u32, u64), String>) -> (r: String)
    ensures
        r@ == spec_digest_line(
            index,
            match outcome {
                Ok(t) => Ok(t),
                Err(s) => Err(s@),
            },
        ),
{
    let mut out = String::new();
    push_decimal(&mut out, index as u64);
    let ghost head = out@;
    match outcome {
        Ok((f, w, h, d)) => {
            push_char(&mut out, '\t');
            push_str(&mut out, f.name());
            push_char(&mut out, '\t');
            push_decimal(&mut out, w as u64);
            push_char(&mut out, '\t');
            push_decimal(&mut out, h as u64);
            push_char(&mut out, '\t');
            push_lower_hex8(&mut out, (d / 0x1_0000_0000) as u32);
            push_lower_hex8(&mut out, (d % 0x1_0000_0000) as u32);
            push_char(&mut out, '\n');
            assert(out@ =~= head + (seq!['\t'] + spec_format_name(f)@ + seq!['\t'] + spec_decimal(
                w as nat,
            ) + seq!['\t'] + spec_decimal(h as nat) + seq!['\t'] + lower_hex16(d) + seq!['\n']));
        },
        Err(reason) => {
            push_str(&mut out, "\tFAIL\t");
            push_str(&mut out, reason.as_str());
            push_char(&mut out, '\n');
            assert(out@ =~= head + ("\tFAIL\t"@ + reason@ + seq!['\n']));
        },
    }
    out
}

// ---------------------------------------------------------------------------
// Inventory tally
// ---------------------------------------------------------------------------

/// What one blob contributes to an inventory.
pub enum Profile {
    /// The blob decoded.
    Decoded {
        /// Its format.
        format: PropFormat,
        /// Its header's byte order.
        endian: PropEndian,
        /// Its pixel count, `|width| * |height|`.
        pixels: u64,
    },
    /// The blob was rejected.
    Failed {
        /// Its format, when its header was readable.
        format: Option<PropFormat>,
        /// Why.
        reason: Seq<char>,
    },
}

/// What one blob contributes: its format, byte order and pixel count when
/// it decodes, otherwise the format its header named and the reason.
pub open spec fn spec_profile(bytes: Seq<u8>) -> Profile {
    match crate::header::spec_parse_header(bytes) {
        Err(e) => Profile::Failed { format: None, reason: spec_message(e) },
        Ok(h) => {
            let format = crate::header::spec_format(h.flags);
            match crate::spec_decode(bytes) {
                Some(Ok(_)) => Profile::Decoded {
                    format,
                    endian: h.endian,
                    pixels: (crate::codec::abs_dim(h.width) as int * crate::codec::abs_dim(h.height) as int) as u64,
                },
                Some(Err(e)) => Profile::Failed { format: Some(format), reason: spec_describe(e) },
                None => Profile::Failed { format: Some(format), reason: "zlib stream rejected"@ },
            }
        },
    }
}

/// Decode one blob and profile it.
pub fn profile(bytes: &[u8]) -> (r: Result<(PropFormat, PropEndian, u64), (Option<PropFormat>, String)>)
    ensures
        match spec_profile(bytes@) {
            Profile::Decoded { format, endian, pixels } => r == Ok::<
                (PropFormat, PropEndian, u64),
                (Option<PropFormat>, String),
            >((format, endian, pixels)),
            Profile::Failed { format, reason } => r matches Err((f, m)) && f == format && m@
                == reason,
        },
{
    let header = match crate::decode_header(bytes) {
        Ok(h) => h,
        Err(e) => {
            return Err((None, e.message()));
        },
    };
    let format = header.format();
    let w = crate::codec::abs_u32(header.width) as u64;
    let h = crate::codec::abs_u32(header.height) as u64;
    assert(w <= 32768 && h <= 32768);
    assert(w * h <= 0x4000_0000) by (nonlinear_arith)
        requires
            w <= 32768,
            h <= 32768,
    ;
    let pixels = w * h;
    match crate::decode(bytes) {
        Ok(_) => Ok((format, header.endian, pixels)),
        Err(e) => Err((Some(format), describe(&e))),
    }
}

/// How many failures an inventory keeps for its report.
pub const MAX_REPORTED_FAILURES: usize = 80;

/// Counts over a set of blobs, by format and byte order, plus the first
/// failures.
#[derive(Debug, Default)]
pub struct Tally {
    /// Decoded 8-bit props.
    pub eight: u64,
    /// Decoded 16-bit props.
    pub sixteen: u64,
    /// Decoded 20-bit props.
    pub twenty: u64,
    /// Decoded S20-bit props.
    pub s20: u64,
    /// Decoded 32-bit props.
    pub thirty_two: u64,
    /// Decoded props with a little-endian header.
    pub little: u64,
    /// Decoded props with a big-endian header.
    pub big: u64,
    /// Rejected blobs.
    pub failed: u64,
    /// Pixels across the decoded props.
    pub pixels: u64,
    /// The first rejected blobs: `(label, reason)`.
    pub failures: Vec<(String, String)>,
}

/// A tally can count one more blob without overflowing.
pub open spec fn has_room(t: &Tally) -> bool {
    &&& t.eight < u64::MAX
    &&& t.sixteen < u64::MAX
    &&& t.twenty < u64::MAX
    &&& t.s20 < u64::MAX
    &&& t.thirty_two < u64::MAX
    &&& t.little < u64::MAX
    &&& t.big < u64::MAX
    &&& t.failed < u64::MAX
    &&& t.pixels <= u64::MAX - 0x4000_0000
}

/// The decoded count of a format.
pub open spec fn format_count(t: &Tally, f: PropFormat) -> u64 {
    match f {
        PropFormat::EightBit => t.eight,
        PropFormat::SixteenBit => t.sixteen,
        PropFormat::TwentyBit => t.twenty,
        PropFormat::S20Bit => t.s20,
        PropFormat::ThirtyTwoBit => t.thirty_two,
    }
}

/// The label a failure is reported under: the source and the format name,
/// `?` when the header was unreadable.
pub open spec fn failure_label(source: Seq<char>, format: Option<PropFormat>) -> Seq<char> {
    source + " ["@ + match format {
        Some(f) => spec_format_name(f)@,
        None => "?"@,
    } + "]"@
}

impl Tally {
    /// An empty tally.
    pub fn new() -> (r: Self)
        ensures
            r.eight == 0 && r.sixteen == 0 && r.twenty == 0 && r.s20 == 0 && r.thirty_two == 0,
            r.little == 0 && r.big == 0 && r.failed == 0 && r.pixels == 0,
            r.failures@.len() == 0,
    {
        Tally {
            eight: 0,
            sixteen: 0,
            twenty: 0,
            s20: 0,
            thirty_two: 0,
            little: 0,
            big: 0,
            failed: 0,
            pixels: 0,
            failures: Vec::new(),
        }
    }

    /// Count one blob under `source`.
    pub fn record(&mut self, source: &str, bytes: &[u8])
        requires
            has_room(old(self)),
        ensures
            match spec_profile(bytes@) {
                Profile::Decoded { format, endian, pixels } => {
                    &&& forall|f: PropFormat| format_count(final(self), f) == format_count(old(self), f) + if f == format { 1int } else { 0int }
                    &&& final(self).little == old(self).little + if endian == PropEndian::Little { 1int } else { 0int }
                    &&& final(self).big == old(self).big + if endian == PropEndian::Big { 1int } else { 0int }
                    &&& final(self).pixels == old(self).pixels + pixels
                    &&& final(self).failed == old(self).failed
                    &&& final(self).failures@ == old(self).failures@
                },
                Profile::Failed { format, reason } => {
                    &&& forall|f: PropFormat| format_count(final(self), f) == format_count(old(self), f)
                    &&& final(self).little == old(self).little
                    &&& final(self).big == old(self).big
                    &&& final(self).pixels == old(self).pixels
                    &&& final(self).failed == old(self).failed + 1
                    &&& old(self).failures@.len() < MAX_REPORTED_FAILURES ==> final(self).failures@.len() == old(self).failures@.len() + 1
                        && final(self).failures@.subrange(0, old(self).failures@.len() as int) == old(self).failures@
                        && final(self).failures@.last().0@ == failure_label(source@, format)
                        && final(self).failures@.last().1@ == reason
                    &&& old(self).failures@.len() >= MAX_REPORTED_FAILURES ==> final(self).failures@ == old(self).failures@
                },
            },
    {
        match profile(bytes) {
            Ok((format, endian, pixels)) => {
                match format {
                    PropFormat::EightBit => self.eight = self.eight + 1,
                    PropFormat::SixteenBit => self.sixteen = self.sixteen + 1,
                    PropFormat::TwentyBit => self.twenty = self.twenty + 1,
                    PropFormat::S20Bit => self.s20 = self.s20 + 1,
                    PropFormat::ThirtyTwoBit => self.thirty_two = self.thirty_two + 1,
                }
                match endian {
                    PropEndian::Little => self.little = self.little + 1,
                    PropEndian::Big => self.big = self.big + 1,
                }
                self.pixels = self.pixels + pixels;
            },
            Err((format, reason)) => {
                self.failed = self.failed + 1;
                if self.failures.len() < MAX_REPORTED_FAILURES {
                    let mut label = String::from_str(source);
                    push_str(&mut label, " [");
                    match format {
                        Some(f) => push_str(&mut label, f.name()),
                        None => push_str(&mut label, "?"),
                    }
                    push_str(&mut label, "]");
                    assert(label@ =~= failure_label(source@, format));
                    let ghost before = self.failures@;
                    self.failures.push((label, reason));
                    assert(self.failures@.subrange(0, before.len() as int) =~= before);
                }
            },
        }
    }
}

/// The views of failure pairs.
pub open spec fn failures_view(f: Seq<(String, String)>) -> Seq<(Seq<char>, Seq<char>)> {
    Seq::new(f.len(), |i: int| (f[i].0@, f[i].1@))
}

/// Two tallies can be added without overflow.
pub open spec fn can_merge(a: &Tally, b: &Tally) -> bool {
    &&& a.eight + b.eight <= u64::MAX
    &&& a.sixteen + b.sixteen <= u64::MAX
    &&& a.twenty + b.twenty <= u64::MAX
    &&& a.s20 + b.s20 <= u64::MAX
    &&& a.thirty_two + b.thirty_two <= u64::MAX
    &&& a.little + b.little <= u64::MAX
    &&& a.big + b.big <= u64::MAX
    &&& a.failed + b.failed <= u64::MAX
    &&& a.pixels + b.pixels <= u64::MAX
}

/// The `{:?}` text of the byte-order counts: the orders seen, sorted by
/// name.
pub open spec fn endian_debug(big: u64, little: u64) -> Seq<char> {
    "{"@ + (if big > 0 {
        "\"big\": "@ + spec_decimal(big as nat)
    } else {
        Seq::empty()
    }) + (if big > 0 && little > 0 {
        ", "@
    } else {
        Seq::empty()
    }) + (if little > 0 {
        "\"little\": "@ + spec_decimal(little as nat)
    } else {
        Seq::empty()
    }) + "}"@
}

/// One `name=count` column of the report.
pub open spec fn count_column(f: PropFormat, n: u64) -> Seq<char> {
    spec_format_name(f)@ + seq!['='] + spec_decimal(n as nat) + seq!['\t']
}

/// The summary line of an inventory report.
pub open spec fn spec_report_line(name: Seq<char>, t: &Tally, sources: usize) -> Seq<char> {
    name + seq!['\t'] + count_column(PropFormat::EightBit, t.eight) + count_column(
        PropFormat::SixteenBit,
        t.sixteen,
    ) + count_column(PropFormat::TwentyBit, t.twenty) + count_column(PropFormat::S20Bit, t.s20)
        + count_column(PropFormat::ThirtyTwoBit, t.thirty_two) + "failed="@ + spec_decimal(
        t.failed as nat,
    ) + "\tendian="@ + endian_debug(t.big, t.little) + "\tpixels="@ + spec_decimal(t.pixels as nat)
        + if sources > 0 {
        "\tsources="@ + spec_decimal(sources as nat)
    } else {
        Seq::empty()
    }
}

fn push_endian_debug(out: &mut String, big: u64, little: u64)
    ensures
        final(out)@ == old(out)@ + endian_debug(big, little),
{
    let ghost start = out@;
    push_str(out, "{");
    let ghost a = out@;
    if big > 0 {
        push_str(out, "\"big\": ");
        push_decimal(out, big);
    }
    let ghost b = out@;
    if big > 0 && little > 0 {
        push_str(out, ", ");
    }
    let ghost c = out@;
    if little > 0 {
        push_str(out, "\"little\": ");
        push_decimal(out, little);
    }
    let ghost d = out@;
    push_str(out, "}");
    assert(out@ =~= old(out)@ + endian_debug(big, little));
}

fn push_count_column(out: &mut String, f: PropFormat, n: u64)
    ensures
        final(out)@ == old(out)@ + count_column(f, n),
{
    push_str(out, f.name());
    push_char(out, '=');
    push_decimal(out, n);
    push_char(out, '\t');
    assert(out@ =~= old(out)@ + count_column(f, n));
}

impl Tally {
    /// Add another tally's counts and failures to this one.
    pub fn merge(&mut self, from: &Tally)
        requires
            can_merge(old(self), from),
        ensures
            final(self).eight == old(self).eight + from.eight,
            final(self).sixteen == old(self).sixteen + from.sixteen,
            final(self).twenty == old(self).twenty + from.twenty,
            final(self).s20 == old(self).s20 + from.s20,
            final(self).thirty_two == old(self).thirty_two + from.thirty_two,
            final(self).little == old(self).little + from.little,
            final(self).big == old(self).big + from.big,
            final(self).failed == old(self).failed + from.failed,
            final(self).pixels == old(self).pixels + from.pixels,
            failures_view(final(self).failures@) == failures_view(old(self).failures@)
                + failures_view(from.failures@),
    {
        let ghost start = failures_view(self.failures@);
        let mut i: usize = 0;
        while i < from.failures.len()
            invariant
                i <= from.failures@.len(),
                can_merge(old(self), from),
                self.eight == old(self).eight && self.sixteen == old(self).sixteen && self.twenty == old(self).twenty,
                self.s20 == old(self).s20 && self.thirty_two == old(self).thirty_two,
                self.little == old(self).little && self.big == old(self).big,
                self.failed == old(self).failed && self.pixels == old(self).pixels,
                failures_view(self.failures@) == start + failures_view(from.failures@).subrange(0, i as int),
            decreases from.failures@.len() - i,
        {
            let ghost before = failures_view(self.failures@);
            let a = from.failures[i].0.clone();
            let b = from.failures[i].1.clone();
            self.failures.push((a, b));
            assert(failures_view(self.failures@) =~= before.push((from.failures@[i as int].0@, from.failures@[i as int].1@)));
            assert(failures_view(from.failures@).subrange(0, i as int + 1) =~= failures_view(from.failures@).subrange(0, i as int).push((from.failures@[i as int].0@, from.failures@[i as int].1@)));
            i = i + 1;
        }
        assert(failures_view(from.failures@).subrange(0, i as int) =~= failures_view(from.failures@));
        self.eight = self.eight + from.eight;
        self.sixteen = self.sixteen + from.sixteen;
        self.twenty = self.twenty + from.twenty;
        self.s20 = self.s20 + from.s20;
        self.thirty_two = self.thirty_two + from.thirty_two;
        self.little = self.little + from.little;
        self.big = self.big + from.big;
        self.failed = self.failed + from.failed;
        self.pixels = self.pixels + from.pixels;
    }

    /// The summary line of the report for `name`, with the source count when
    /// there is one.
    pub fn report_line(&self, name: &str, sources: usize) -> (r: String)
        ensures
            r@ == spec_report_line(name@, self, sources),
    {
        let mut out = String::from_str(name);
        push_char(&mut out, '\t');
        push_count_column(&mut out, PropFormat::EightBit, self.eight);
        push_count_column(&mut out, PropFormat::SixteenBit, self.sixteen);
        push_count_column(&mut out, PropFormat::TwentyBit, self.twenty);
        push_count_column(&mut out, PropFormat::S20Bit, self.s20);
        push_count_column(&mut out, PropFormat::ThirtyTwoBit, self.thirty_two);
        let ghost cols = out@;
        push_str(&mut out, "failed=");
        push_decimal(&mut out, self.failed);
        push_str(&mut out, "\tendian=");
        push_endian_debug(&mut out, self.big, self.little);
        push_str(&mut out, "\tpixels=");
        push_decimal(&mut out, self.pixels);
        let ghost mid = out@;
        if sources > 0 {
            push_str(&mut out, "\tsources=");
            push_decimal(&mut out, sources as u64);
        }
        assert(out@ =~= mid + if sources > 0 {
            "\tsources="@ + spec_decimal(sources as nat)
        } else {
            Seq::empty()
        });
        assert(mid =~= cols + ("failed="@ + spec_decimal(self.failed as nat) + "\tendian="@ + endian_debug(self.big, self.little) + "\tpixels="@ + spec_decimal(self.pixels as nat)));
        assert(out@ =~= spec_report_line(name@, self, sources));
        out
    }
}

} // verus!
