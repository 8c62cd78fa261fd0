//! Bag folder layout and the path guard.
//!
//! ```text
//! <bag root>/                     e.g. ~/.local/share/org.palace.client/props/
//! ├── My Bag.prp                  the one writable collection
//! ├── Outfits.prp                 saved outfits
//! └── shelves/                    read-only collections
//! ```
//!
//! Paths are texts with `/` separators. [`BagContext::classify`] sorts a path
//! into one of three [`BagRole`]s: a writable file the bag owns, a read-only
//! shelf, or everything else. It is a pure function of the path and the
//! context's roots: it resolves `.` and `..` lexically and compares path
//! components. The protected subtrees below the user's home are forbidden even
//! when they sit inside a configured bag root.

use vstd::prelude::*;

use crate::error::PropError;
use crate::text::{push_char, push_str, str_eq};

verus! {

/// Environment variable that overrides the bag folder.
pub const ENV_BAG_DIR: &'static str = "PALACE_PROP_BAG_DIR";

/// The client's data-directory name.
pub const APP_ID: &'static str = "org.palace.client";

/// The bag folder's name inside the client data directory.
pub const PROPS_DIR_NAME: &'static str = "props";

/// The one writable collection inside the bag folder.
pub const BAG_FILE_NAME: &'static str = "My Bag.prp";

/// Read-only collections live here, one `.prp` per shelf.
pub const SHELVES_DIR_NAME: &'static str = "shelves";

/// Saved outfits.
pub const OUTFITS_FILE_NAME: &'static str = "Outfits.prp";

/// What a path means to the bag folder.
#[derive(Debug, Clone, Copy, PartialEq, Eq, Hash, Structural)]
pub enum BagRole {
    /// A file the bag folder owns and may rewrite atomically (`My Bag.prp`,
    /// `Outfits.prp`).
    MyBag,
    /// A collection under `shelves/`: browsable, never written.
    Shelf,
    /// Protected client data, anything outside the bag root, or otherwise not
    /// writable.
    Forbidden,
}

/// A bag folder plus the home directory used to recognise protected trees.
#[derive(Debug, Clone, Default)]
pub struct BagContext {
    /// The bag folder: the directory that holds `My Bag.prp`.
    pub bag_root: Option<String>,
    /// The user's home directory, used only to recognise the protected
    /// subtrees.
    pub home: Option<String>,
}

/// A path as the guard compares it: whether it is absolute, and its normal
/// components.
pub struct PathShape {
    /// Whether the path starts at the root.
    pub absolute: bool,
    /// The components after `.` and `..` are resolved.
    pub parts: Seq<Seq<char>>,
}

/// One component applied to the components so far: empty and `.` are skipped,
/// `..` drops the last component (nothing at the root), anything else is
/// appended.
pub open spec fn apply_piece(parts: Seq<Seq<char>>, piece: Seq<char>) -> Seq<Seq<char>> {
    if piece.len() == 0 || piece == seq!['.'] {
        parts
    } else if piece == seq!['.', '.'] {
        if parts.len() > 0 {
            parts.drop_last()
        } else {
            parts
        }
    } else {
        parts.push(piece)
    }
}

/// The components resolved so far after reading `k` characters, and the
/// component being read.
pub open spec fn read_parts(s: Seq<char>, k: int) -> (Seq<Seq<char>>, Seq<char>)
    decreases k,
{
    if k <= 0 {
        (Seq::empty(), Seq::empty())
    } else {
        let (parts, cur) = read_parts(s, k - 1);
        if s[k - 1] == '/' {
            (apply_piece(parts, cur), Seq::empty())
        } else {
            (parts, cur.push(s[k - 1]))
        }
    }
}

/// A path lexically normalised: `.` and `..` resolved, repeated separators
/// collapsed, without touching the filesystem.
pub open spec fn shape_of(s: Seq<char>) -> PathShape {
    let (parts, cur) = read_parts(s, s.len() as int);
    PathShape { absolute: s.len() > 0 && s[0] == '/', parts: apply_piece(parts, cur) }
}

/// A component appended to a path.
pub open spec fn child(p: PathShape, name: Seq<char>) -> PathShape {
    PathShape { absolute: p.absolute, parts: p.parts.push(name) }
}

/// Whether `q`'s components are a prefix of `p`'s.
pub open spec fn starts_with(p: PathShape, q: PathShape) -> bool {
    p.absolute == q.absolute && q.parts.len() <= p.parts.len() && p.parts.subrange(
        0,
        q.parts.len() as int,
    ) == q.parts
}

/// The protected subtrees below the home directory, as component lists.
pub open spec fn forbidden_rel(i: int) -> Seq<Seq<char>> {
    if i == 0 {
        seq![".local"@, "share"@, "PalaceChat"@]
    } else if i == 1 {
        seq![".config"@, "PalaceChat 5"@]
    } else if i == 2 {
        seq![".cache"@, "PalaceChat"@]
    } else {
        seq!["Pictures"@, "Prop Files"@]
    }
}

/// Whether a path lies in one of the protected subtrees of `home`.
pub open spec fn in_protected(p: PathShape, home: PathShape) -> bool {
    exists|i: int|
        0 <= i < 4 && starts_with(
            p,
            PathShape { absolute: home.absolute, parts: home.parts + forbidden_rel(i) },
        )
}

/// The role of a path under a bag root and a home directory.
pub open spec fn spec_classify(path: Seq<char>, root: Option<Seq<char>>, home: Option<Seq<char>>) -> BagRole {
    let p = shape_of(path);
    if home matches Some(h) && in_protected(p, shape_of(h)) {
        BagRole::Forbidden
    } else {
        match root {
            None => BagRole::Forbidden,
            Some(r) => {
                let rs = shape_of(r);
                if p == child(rs, BAG_FILE_NAME@) || p == child(rs, OUTFITS_FILE_NAME@) {
                    BagRole::MyBag
                } else if starts_with(p, child(rs, SHELVES_DIR_NAME@)) {
                    BagRole::Shelf
                } else {
                    BagRole::Forbidden
                }
            },
        }
    }
}

/// The executable form of a path shape.
struct Shape {
    absolute: bool,
    parts: Vec<String>,
}

/// The views of a list of texts.
pub open spec fn texts_view(parts: Seq<String>) -> Seq<Seq<char>> {
    Seq::new(parts.len(), |i: int| parts[i]@)
}

/// Apply one component to the components so far.
fn push_piece(parts: &mut Vec<String>, piece: String)
    ensures
        texts_view(final(parts)@) == apply_piece(texts_view(old(parts)@), piece@),
{
    let n = piece.unicode_len();
    let is_dot = n == 1 && piece.get_char(0) == '.';
    let is_dot_dot = n == 2 && piece.get_char(0) == '.' && piece.get_char(1) == '.';
    proof {
        if n == 1 {
            assert(is_dot == (piece@ == seq!['.'])) by {
                if piece@[0] == '.' {
                    assert(piece@ =~= seq!['.']);
                }
            }
        }
        if n == 2 {
            assert(is_dot_dot == (piece@ == seq!['.', '.'])) by {
                if piece@[0] == '.' && piece@[1] == '.' {
                    assert(piece@ =~= seq!['.', '.']);
                }
            }
        }
    }
    if n == 0 || is_dot {
    } else if is_dot_dot {
        if parts.len() > 0 {
            parts.pop();
            assert(texts_view(parts@) =~= texts_view(old(parts)@).drop_last());
        }
    } else {
        let ghost p = piece@;
        parts.push(piece);
        assert(texts_view(parts@) =~= texts_view(old(parts)@).push(p));
    }
}

/// Normalise a path lexically.
fn shape(path: &str) -> (r: Shape)
    ensures
        r.absolute == shape_of(path@).absolute,
        texts_view(r.parts@) == shape_of(path@).parts,
{
    let n = path.unicode_len();
    let mut parts: Vec<String> = Vec::new();
    let mut cur = String::new();
    let mut i: usize = 0;
    while i < n
        invariant
            n == path@.len(),
            i <= n,
            read_parts(path@, i as int) == (texts_view(parts@), cur@),
        decreases n - i,
    {
        let c = path.get_char(i);
        if c == '/' {
            let piece = cur;
            cur = String::new();
            push_piece(&mut parts, piece);
        } else {
            push_char(&mut cur, c);
        }
        i = i + 1;
    }
    push_piece(&mut parts, cur);
    let absolute = n > 0 && path.get_char(0) == '/';
    Shape { absolute, parts }
}

/// Whether two component lists are equal.
fn parts_equal(a: &Vec<String>, b: &Vec<String>) -> (r: bool)
    ensures
        r == (texts_view(a@) == texts_view(b@)),
{
    if a.len() != b.len() {
        assert(texts_view(a@).len() != texts_view(b@).len());
        return false;
    }
    let mut i: usize = 0;
    while i < a.len()
        invariant
            i <= a@.len(),
            a@.len() == b@.len(),
            forall|k: int| 0 <= k < i ==> a@[k]@ == b@[k]@,
        decreases a@.len() - i,
    {
        if !(a[i] == b[i]) {
            assert(texts_view(a@)[i as int] != texts_view(b@)[i as int]);
            return false;
        }
        i = i + 1;
    }
    assert(texts_view(a@) =~= texts_view(b@));
    true
}

/// Whether `p` starts with the components of `q` followed by `extra`.
fn starts_with_parts(p: &Shape, q: &Shape, extra: &[&str]) -> (r: bool)
    ensures
        r == starts_with(
            PathShape { absolute: p.absolute, parts: texts_view(p.parts@) },
            PathShape {
                absolute: q.absolute,
                parts: texts_view(q.parts@) + Seq::new(extra@.len(), |i: int| extra@[i]@),
            },
        ),
{
    let ghost pp = texts_view(p.parts@);
    let ghost qq = texts_view(q.parts@) + Seq::new(extra@.len(), |i: int| extra@[i]@);
    let qn = q.parts.len();
    let en = extra.len();
    let pn = p.parts.len();
    if p.absolute != q.absolute {
        return false;
    }
    if qn > pn || en > pn - qn {
        return false;
    }
    let mut i: usize = 0;
    while i < qn
        invariant
            i <= qn,
            qn == q.parts@.len(),
            qn + en <= p.parts@.len(),
            en == extra@.len(),
            pp == texts_view(p.parts@),
            qq == texts_view(q.parts@) + Seq::new(extra@.len(), |j: int| extra@[j]@),
            forall|k: int| 0 <= k < i ==> pp[k] == qq[k],
        decreases qn - i,
    {
        if !(p.parts[i] == q.parts[i]) {
            proof {
                assert(pp[i as int] != qq[i as int]);
                assert(pp.subrange(0, qq.len() as int)[i as int] == pp[i as int]);
            }
            return false;
        }
        i = i + 1;
    }
    let mut j: usize = 0;
    while j < en
        invariant
            j <= en,
            qn == q.parts@.len(),
            qn + en <= p.parts@.len(),
            pn == p.parts@.len(),
            en == extra@.len(),
            pp == texts_view(p.parts@),
            qq == texts_view(q.parts@) + Seq::new(extra@.len(), |k: int| extra@[k]@),
            forall|k: int| 0 <= k < qn + j ==> pp[k] == qq[k],
        decreases en - j,
    {
        if !str_eq(p.parts[qn + j].as_str(), extra[j]) {
            proof {
                let at = qn + j;
                assert(pp[at as int] != qq[at as int]);
                assert(pp.subrange(0, qq.len() as int)[at as int] == pp[at as int]);
            }
            return false;
        }
        j = j + 1;
    }
    assert(pp.subrange(0, qq.len() as int) =~= qq);
    true
}

/// Whether `p` is exactly `root` followed by `name`.
fn is_child(p: &Shape, root: &Shape, name: &str) -> (r: bool)
    ensures
        r == (PathShape { absolute: p.absolute, parts: texts_view(p.parts@) } == child(
            PathShape { absolute: root.absolute, parts: texts_view(root.parts@) },
            name@,
        )),
{
    let ghost pp = texts_view(p.parts@);
    let ghost rr = texts_view(root.parts@).push(name@);
    let pn = p.parts.len();
    if p.absolute != root.absolute || pn == 0 || pn - 1 != root.parts.len() {
        proof {
            if pn == 0 || pn - 1 != root.parts.len() {
                assert(pp.len() != rr.len());
            }
        }
        return false;
    }
    let names = [name];
    assert(Seq::new(names@.len(), |i: int| names@[i]@) =~= seq![name@]);
    let prefix = starts_with_parts(p, root, &names);
    proof {
        assert(texts_view(root.parts@) + seq![name@] =~= rr);
        if prefix {
            assert(pp =~= rr);
        } else {
            if pp == rr {
                assert(pp.subrange(0, rr.len() as int) =~= pp);
            }
        }
    }
    prefix
}

/// The role of a path given explicit roots; the pure decision behind
/// [`BagContext::classify`].
pub fn classify_path(path: &str, bag_root: Option<&str>, home: Option<&str>) -> (r: BagRole)
    ensures
        r == spec_classify(
            path@,
            match bag_root {
                Some(s) => Some(s@),
                None => None,
            },
            match home {
                Some(s) => Some(s@),
                None => None,
            },
        ),
{
    let p = shape(path);
    let ghost ps = shape_of(path@);
    assert(ps == PathShape { absolute: p.absolute, parts: texts_view(p.parts@) });
    match home {
        Some(h) => {
            let hs = shape(h);
            let ghost hshape = shape_of(h@);
            assert(hshape == PathShape { absolute: hs.absolute, parts: texts_view(hs.parts@) });
            let rel0 = [".local", "share", "PalaceChat"];
            let rel1 = [".config", "PalaceChat 5"];
            let rel2 = [".cache", "PalaceChat"];
            let rel3 = ["Pictures", "Prop Files"];
            assert(Seq::new(rel0@.len(), |i: int| rel0@[i]@) =~= forbidden_rel(0));
            assert(Seq::new(rel1@.len(), |i: int| rel1@[i]@) =~= forbidden_rel(1));
            assert(Seq::new(rel2@.len(), |i: int| rel2@[i]@) =~= forbidden_rel(2));
            assert(Seq::new(rel3@.len(), |i: int| rel3@[i]@) =~= forbidden_rel(3));
            if starts_with_parts(&p, &hs, &rel0) || starts_with_parts(&p, &hs, &rel1)
                || starts_with_parts(&p, &hs, &rel2) || starts_with_parts(&p, &hs, &rel3) {
                return BagRole::Forbidden;
            }
            assert forall|i: int| 0 <= i < 4 implies !starts_with(
                ps,
                PathShape { absolute: hshape.absolute, parts: hshape.parts + forbidden_rel(i) },
            ) by {
                if i == 0 {
                } else if i == 1 {
                } else if i == 2 {
                } else {
                }
            }
            assert(!in_protected(ps, hshape));
        },
        None => {},
    }
    let root = match bag_root {
        Some(r) => r,
        None => {
            return BagRole::Forbidden;
        },
    };
    let rs = shape(root);
    if is_child(&p, &rs, BAG_FILE_NAME) || is_child(&p, &rs, OUTFITS_FILE_NAME) {
        return BagRole::MyBag;
    }
    let shelves = [SHELVES_DIR_NAME];
    assert(Seq::new(shelves@.len(), |i: int| shelves@[i]@) =~= seq![SHELVES_DIR_NAME@]);
    if starts_with_parts(&p, &rs, &shelves) {
        assert(texts_view(rs.parts@) + seq![SHELVES_DIR_NAME@] =~= texts_view(rs.parts@).push(
            SHELVES_DIR_NAME@,
        ));
        return BagRole::Shelf;
    }
    assert(texts_view(rs.parts@) + seq![SHELVES_DIR_NAME@] =~= texts_view(rs.parts@).push(
        SHELVES_DIR_NAME@,
    ));
    BagRole::Forbidden
}

/// An optional text by view.
pub open spec fn opt_str(s: Option<String>) -> Option<Seq<char>> {
    match s {
        Some(t) => Some(t@),
        None => None,
    }
}

impl BagContext {
    /// The role of `path` under this context. Pure: it answers for paths that
    /// do not exist and cannot race with the disk.
    pub fn classify(&self, path: &str) -> (r: BagRole)
        ensures
            r == spec_classify(path@, opt_str(self.bag_root), opt_str(self.home)),
    {
        let root = match &self.bag_root {
            Some(s) => Some(s.as_str()),
            None => None,
        };
        let home = match &self.home {
            Some(s) => Some(s.as_str()),
            None => None,
        };
        classify_path(path, root, home)
    }
}

/// `base` joined with a relative component, with `/` as the separator.
pub open spec fn join_text(base: Seq<char>, name: Seq<char>) -> Seq<char> {
    if base.len() == 0 {
        name
    } else if base.last() == '/' {
        base + name
    } else {
        base.push('/') + name
    }
}

/// Join a relative component onto a path.
pub fn join(base: &str, name: &str) -> (r: String)
    ensures
        r@ == join_text(base@, name@),
{
    let n = base.unicode_len();
    let mut out = String::from_str(base);
    if n > 0 && base.get_char(n - 1) != '/' {
        push_char(&mut out, '/');
    }
    push_str(&mut out, name);
    out
}

/// `<root>/My Bag.prp`, the writable collection.
pub fn my_bag_path(root: &str) -> (r: String)
    ensures
        r@ == join_text(root@, BAG_FILE_NAME@),
{
    join(root, BAG_FILE_NAME)
}

/// `<root>/shelves`, the read-only collections directory.
pub fn shelves_dir(root: &str) -> (r: String)
    ensures
        r@ == join_text(root@, SHELVES_DIR_NAME@),
{
    join(root, SHELVES_DIR_NAME)
}

/// `<root>/Outfits.prp`, the saved-outfits file.
pub fn outfits_path(root: &str) -> (r: String)
    ensures
        r@ == join_text(root@, OUTFITS_FILE_NAME@),
{
    join(root, OUTFITS_FILE_NAME)
}

/// `<base>/org.palace.client/props`.
pub open spec fn props_under(base: Seq<char>) -> Seq<char> {
    join_text(join_text(base, APP_ID@), PROPS_DIR_NAME@)
}

/// The Unix default bag root: `$XDG_DATA_HOME/org.palace.client/props`, else
/// `$HOME/.local/share/org.palace.client/props`. An empty `XDG_DATA_HOME`
/// falls through to the home directory.
pub fn unix_bag_root(xdg_data_home: Option<&str>, home: Option<&str>) -> (r: Option<String>)
    ensures
        match xdg_data_home {
            Some(x) if x@.len() > 0 => r matches Some(s) && s@ == props_under(x@),
            _ => match home {
                Some(h) => r matches Some(s) && s@ == props_under(
                    join_text(join_text(h@, ".local"@), "share"@),
                ),
                None => r is None,
            },
        },
{
    let base = match xdg_data_home {
        Some(x) if x.unicode_len() > 0 => String::from_str(x),
        _ => match home {
            Some(h) => {
                let local = join(h, ".local");
                join(local.as_str(), "share")
            },
            None => {
                return None;
            },
        },
    };
    let app = join(base.as_str(), APP_ID);
    Some(join(app.as_str(), PROPS_DIR_NAME))
}

/// `<profile>/AppData/<leaf>`.
pub open spec fn appdata_under(profile: Seq<char>, leaf: Seq<char>) -> Seq<char> {
    join_text(join_text(profile, "AppData"@), leaf)
}

/// The Windows default bag root: `%LOCALAPPDATA%\org.palace.client\props`,
/// then `%APPDATA%`; each root is derived from the user profile at
/// `AppData\Local` / `AppData\Roaming` when its variable is unset.
pub fn windows_bag_root(
    local_app_data: Option<&str>,
    app_data: Option<&str>,
    user_profile: Option<&str>,
) -> (r: Option<String>)
    ensures
        match local_app_data {
            Some(l) => r matches Some(s) && s@ == props_under(l@),
            None => match user_profile {
                Some(p) => r matches Some(s) && s@ == props_under(appdata_under(p@, "Local"@)),
                None => match app_data {
                    Some(a) => r matches Some(s) && s@ == props_under(a@),
                    None => r is None,
                },
            },
        },
{
    let base = match local_app_data {
        Some(l) => String::from_str(l),
        None => match user_profile {
            Some(p) => {
                let app = join(p, "AppData");
                join(app.as_str(), "Local")
            },
            None => match app_data {
                Some(a) => String::from_str(a),
                None => {
                    return None;
                },
            },
        },
    };
    let app = join(base.as_str(), APP_ID);
    Some(join(app.as_str(), PROPS_DIR_NAME))
}

/// A failure point in the atomic-write sequence, used to stop a write between
/// the flush and the rename.
#[derive(Debug, Clone, Copy, PartialEq, Eq, Default, Structural)]
pub enum WriteFault {
    /// Write, flush and rename normally.
    #[default]
    NoFault,
    /// Stop after the temp file is written and flushed: the rename never
    /// happens.
    BeforeRename,
}

impl WriteFault {
    /// Whether the sequence may go on to the rename.
    pub fn check(self) -> (r: Result<(), PropError>)
        ensures
            self == WriteFault::NoFault ==> r is Ok,
            self == WriteFault::BeforeRename ==> r matches Err(PropError::BagIo { .. }),
    {
        match self {
            WriteFault::NoFault => Ok(()),
            WriteFault::BeforeRename => Err(
                PropError::BagIo {
                    detail: String::from_str(
                        "atomic write interrupted before rename (fault injected)",
                    ),
                },
            ),
        }
    }
}

/// The error a refused write returns, naming the role that refused it.
pub fn refusal(path: &str, role: BagRole) -> (r: PropError)
    ensures
        r matches PropError::BagIo { .. },
{
    let mut detail = String::from_str(path);
    match role {
        BagRole::MyBag => push_str(&mut detail, ": not writable"),
        BagRole::Shelf => push_str(
            &mut detail,
            ": shelves are read-only; duplicate the prop into \"My Bag.prp\" to change it",
        ),
        BagRole::Forbidden => push_str(
            &mut detail,
            ": refusing to write; the path is outside the bag folder or inside protected PalaceChat data",
        ),
    }
    PropError::BagIo { detail }
}

} // verus!
