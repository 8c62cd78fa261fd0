//! File names, stems and extensions of `/`-separated path texts.
//!
//! A path's file name is its last normal component: separators and `.`
//! components are skipped, and a path that ends in `..` (or has no component)
//! has none. The stem is the file name up to its last `.`, and the extension
//! what follows it; a name whose only dot leads it (`.bashrc`) is all stem.

use vstd::prelude::*;

use crate::text::push_char;

verus! {

/// The normal components of a path read so far: empty and `.` pieces are
/// skipped, everything else is kept in order.
pub open spec fn kept(pieces: Seq<Seq<char>>, piece: Seq<char>) -> Seq<Seq<char>> {
    if piece.len() == 0 || piece == seq!['.'] {
        pieces
    } else {
        pieces.push(piece)
    }
}

/// The kept components after `k` characters, and the component being read.
pub open spec fn pieces_upto(s: Seq<char>, k: int) -> (Seq<Seq<char>>, Seq<char>)
    decreases k,
{
    if k <= 0 {
        (Seq::empty(), Seq::empty())
    } else {
        let (done, cur) = pieces_upto(s, k - 1);
        if s[k - 1] == '/' {
            (kept(done, cur), Seq::empty())
        } else {
            (done, cur.push(s[k - 1]))
        }
    }
}

/// The kept components of a path.
pub open spec fn pieces_of(s: Seq<char>) -> Seq<Seq<char>> {
    let (done, cur) = pieces_upto(s, s.len() as int);
    kept(done, cur)
}

/// The file name of a path: its last kept component, unless that is `..` or
/// there is none.
pub open spec fn spec_file_name(s: Seq<char>) -> Option<Seq<char>> {
    let ps = pieces_of(s);
    if ps.len() == 0 || ps.last() == seq!['.', '.'] {
        None
    } else {
        Some(ps.last())
    }
}

/// The index of the last `.` in a name at or before `k - 1`, if any.
pub open spec fn last_dot(name: Seq<char>, k: int) -> Option<int>
    decreases k,
{
    if k <= 0 {
        None
    } else if name[k - 1] == '.' {
        Some(k - 1)
    } else {
        last_dot(name, k - 1)
    }
}

/// The stem of a file name.
pub open spec fn stem_of(name: Seq<char>) -> Seq<char> {
    match last_dot(name, name.len() as int) {
        Some(d) if d > 0 => name.subrange(0, d),
        _ => name,
    }
}

/// The extension of a file name.
pub open spec fn extension_of(name: Seq<char>) -> Option<Seq<char>> {
    match last_dot(name, name.len() as int) {
        Some(d) if d > 0 => Some(name.subrange(d + 1, name.len() as int)),
        _ => None,
    }
}

/// Append one component to the kept ones.
fn keep_piece(pieces: &mut Vec<String>, piece: String)
    ensures
        crate::bag_folder::texts_view(final(pieces)@) == kept(
            crate::bag_folder::texts_view(old(pieces)@),
            piece@,
        ),
{
    let n = piece.unicode_len();
    let is_dot = n == 1 && piece.get_char(0) == '.';
    proof {
        if n == 1 && piece@[0] == '.' {
            assert(piece@ =~= seq!['.']);
        }
    }
    if n == 0 || is_dot {
    } else {
        let ghost p = piece@;
        pieces.push(piece);
        assert(crate::bag_folder::texts_view(pieces@) =~= crate::bag_folder::texts_view(
            old(pieces)@,
        ).push(p));
    }
}

/// The file name of a path.
pub fn file_name(path: &str) -> (r: Option<String>)
    ensures
        match spec_file_name(path@) {
            Some(n) => r matches Some(s) && s@ == n,
            None => r is None,
        },
{
    let n = path.unicode_len();
    let mut pieces: Vec<String> = Vec::new();
    let mut cur = String::new();
    let mut i: usize = 0;
    while i < n
        invariant
            n == path@.len(),
            i <= n,
            pieces_upto(path@, i as int) == (crate::bag_folder::texts_view(pieces@), cur@),
        decreases n - i,
    {
        let c = path.get_char(i);
        if c == '/' {
            let piece = cur;
            cur = String::new();
            keep_piece(&mut pieces, piece);
        } else {
            push_char(&mut cur, c);
        }
        i = i + 1;
    }
    keep_piece(&mut pieces, cur);
    let count = pieces.len();
    if count == 0 {
        return None;
    }
    let last = pieces.pop().unwrap();
    let m = last.unicode_len();
    let dot_dot = m == 2 && last.get_char(0) == '.' && last.get_char(1) == '.';
    proof {
        if m == 2 && last@[0] == '.' && last@[1] == '.' {
            assert(last@ =~= seq!['.', '.']);
        }
    }
    if dot_dot {
        None
    } else {
        Some(last)
    }
}

/// The position of the last `.` in a name.
fn find_last_dot(name: &str) -> (r: Option<usize>)
    ensures
        r matches Some(d) ==> last_dot(name@, name@.len() as int) == Some(d as int),
        r is None ==> last_dot(name@, name@.len() as int) is None,
{
    let mut k = name.unicode_len();
    while k > 0
        invariant
            k <= name@.len(),
            last_dot(name@, name@.len() as int) == last_dot(name@, k as int),
        decreases k,
    {
        if name.get_char(k - 1) == '.' {
            return Some(k - 1);
        }
        k = k - 1;
    }
    None
}

/// The characters `[from, to)` of a text.
fn slice_chars(s: &str, from: usize, to: usize) -> (r: String)
    requires
        from <= to <= s@.len(),
    ensures
        r@ == s@.subrange(from as int, to as int),
{
    let mut out = String::new();
    let mut i = from;
    while i < to
        invariant
            from <= i <= to,
            to <= s@.len(),
            out@ == s@.subrange(from as int, i as int),
        decreases to - i,
    {
        push_char(&mut out, s.get_char(i));
        i = i + 1;
        assert(out@ =~= s@.subrange(from as int, i as int));
    }
    out
}

/// The stem of a path's file name.
pub fn file_stem(path: &str) -> (r: Option<String>)
    ensures
        match spec_file_name(path@) {
            Some(n) => r matches Some(s) && s@ == stem_of(n),
            None => r is None,
        },
{
    let name = match file_name(path) {
        Some(n) => n,
        None => {
            return None;
        },
    };
    proof {
        lemma_last_dot_in_range(name@, name@.len() as int);
    }
    match find_last_dot(name.as_str()) {
        Some(d) if d > 0 => Some(slice_chars(name.as_str(), 0, d)),
        _ => Some(name),
    }
}

/// The extension of a path's file name.
pub fn extension(path: &str) -> (r: Option<String>)
    ensures
        match spec_file_name(path@) {
            Some(n) => match extension_of(n) {
                Some(e) => r matches Some(s) && s@ == e,
                None => r is None,
            },
            None => r is None,
        },
{
    let name = match file_name(path) {
        Some(n) => n,
        None => {
            return None;
        },
    };
    proof {
        lemma_last_dot_in_range(name@, name@.len() as int);
    }
    let len = name.unicode_len();
    match find_last_dot(name.as_str()) {
        Some(d) if d > 0 => Some(slice_chars(name.as_str(), d + 1, len)),
        _ => None,
    }
}

/// A found dot lies inside the name.
pub proof fn lemma_last_dot_in_range(name: Seq<char>, k: int)
    requires
        k <= name.len(),
    ensures
        last_dot(name, k) matches Some(d) ==> 0 <= d < k,
    decreases k,
{
    if k > 0 && name[k - 1] != '.' {
        lemma_last_dot_in_range(name, k - 1);
    }
}

/// A character folded to ASCII lowercase.
pub open spec fn ascii_lower(c: char) -> char {
    if 'A' <= c && c <= 'Z' {
        ((c as u32) + 32) as char
    } else {
        c
    }
}

/// Whether two texts are equal when ASCII letters are compared without case.
pub open spec fn eq_ignore_ascii_case_spec(a: Seq<char>, b: Seq<char>) -> bool {
    a.len() == b.len() && forall|i: int| 0 <= i < a.len() ==> ascii_lower(a[i]) == ascii_lower(b[i])
}

/// Compare two texts ignoring ASCII case.
pub fn eq_ignore_ascii_case(a: &str, b: &str) -> (r: bool)
    ensures
        r == eq_ignore_ascii_case_spec(a@, b@),
{
    let n = a.unicode_len();
    if n != b.unicode_len() {
        return false;
    }
    let mut i: usize = 0;
    while i < n
        invariant
            n == a@.len(),
            n == b@.len(),
            i <= n,
            forall|k: int| 0 <= k < i ==> ascii_lower(a@[k]) == ascii_lower(b@[k]),
        decreases n - i,
    {
        let x = a.get_char(i);
        let y = b.get_char(i);
        let lx = if 'A' <= x && x <= 'Z' {
            ((x as u32) + 32) as u8 as char
        } else {
            x
        };
        let ly = if 'A' <= y && y <= 'Z' {
            ((y as u32) + 32) as u8 as char
        } else {
            y
        };
        if lx != ly {
            return false;
        }
        i = i + 1;
    }
    true
}

/// Whether a path's extension is `prp`, ignoring ASCII case.
pub open spec fn spec_is_prp(path: Seq<char>) -> bool {
    match spec_file_name(path) {
        Some(n) => match extension_of(n) {
            Some(e) => eq_ignore_ascii_case_spec(e, "prp"@),
            None => false,
        },
        None => false,
    }
}

/// Whether a path's extension is `prp`, ignoring ASCII case.
pub fn has_prp_extension(path: &str) -> (r: bool)
    ensures
        r == spec_is_prp(path@),
{
    match extension(path) {
        Some(e) => eq_ignore_ascii_case(e.as_str(), "prp"),
        None => false,
    }
}

} // verus!
