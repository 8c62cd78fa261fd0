//! The order the bag folder's collections are listed in: My Bag first, then
//! the `.prp` shelves by name, case-insensitively first and then exactly, so
//! the listing is deterministic.

use vstd::prelude::*;

use crate::bag_folder::BagRole;
use crate::bag_store::{display_name, Collection};
use crate::paths::{file_name, has_prp_extension, spec_file_name, spec_is_prp, stem_of};

verus! {

/// What `str::to_lowercase` makes of a text.
pub uninterp spec fn lowercase(s: Seq<char>) -> Seq<char>;

/// Lowercase a text with `str::to_lowercase`.
///
/// Trusted: the result is std's (Unicode's full lowercase mapping), named by
/// [`lowercase`].
#[verifier::external_body]
pub(crate) fn to_lowercase(s: &str) -> (r: String)
    ensures
        r@ == lowercase(s@),
{
    s.to_lowercase()
}

/// Lexicographic comparison by code point from index `i` on: negative,
/// zero or positive as `a` sorts before, with or after `b`.
pub open spec fn compare_from(a: Seq<char>, b: Seq<char>, i: int) -> int
    decreases a.len() - i,
{
    if i >= a.len() && i >= b.len() {
        0
    } else if i >= a.len() {
        -1
    } else if i >= b.len() {
        1
    } else if (a[i] as int) < (b[i] as int) {
        -1
    } else if (a[i] as int) > (b[i] as int) {
        1
    } else {
        compare_from(a, b, i + 1)
    }
}

/// Lexicographic comparison by code point, as `str`'s `Ord` compares.
pub open spec fn compare(a: Seq<char>, b: Seq<char>) -> int {
    compare_from(a, b, 0)
}

/// Whether name `a` may be listed before name `b`: lowercase first, then the
/// exact text.
pub open spec fn name_le(a: Seq<char>, b: Seq<char>) -> bool {
    let c = compare(lowercase(a), lowercase(b));
    c < 0 || (c == 0 && compare(a, b) <= 0)
}

proof fn lemma_compare_anti(a: Seq<char>, b: Seq<char>, i: int)
    requires
        0 <= i,
    ensures
        compare_from(a, b, i) == -compare_from(b, a, i),
        -1 <= compare_from(a, b, i) <= 1,
    decreases a.len() - i,
{
    if i < a.len() && i < b.len() && (a[i] as int) == (b[i] as int) {
        lemma_compare_anti(a, b, i + 1);
    }
}

proof fn lemma_compare_trans(a: Seq<char>, b: Seq<char>, c: Seq<char>, i: int)
    requires
        0 <= i,
    ensures
        (compare_from(a, b, i) <= 0 && compare_from(b, c, i) <= 0) ==> compare_from(a, c, i) <= 0,
        (compare_from(a, b, i) < 0 && compare_from(b, c, i) <= 0) ==> compare_from(a, c, i) < 0,
        (compare_from(a, b, i) <= 0 && compare_from(b, c, i) < 0) ==> compare_from(a, c, i) < 0,
    decreases a.len() - i,
{
    if i < a.len() && i < b.len() && i < c.len() && (a[i] as int) == (b[i] as int) && (b[i] as int)
        == (c[i] as int) {
        lemma_compare_trans(a, b, c, i + 1);
    }
}

/// Comparing equal is being equal.
proof fn lemma_compare_zero(a: Seq<char>, b: Seq<char>, i: int)
    requires
        0 <= i <= a.len(),
        i <= b.len(),
        compare_from(a, b, i) == 0,
    ensures
        a.subrange(i, a.len() as int) == b.subrange(i, b.len() as int),
    decreases a.len() - i,
{
    if i < a.len() && i < b.len() {
        lemma_compare_zero(a, b, i + 1);
        assert(a[i] == b[i]);
        assert(a.subrange(i, a.len() as int) =~= seq![a[i]] + a.subrange(i + 1, a.len() as int));
        assert(b.subrange(i, b.len() as int) =~= seq![b[i]] + b.subrange(i + 1, b.len() as int));
    } else {
        assert(a.subrange(i, a.len() as int) =~= Seq::<char>::empty());
        assert(b.subrange(i, b.len() as int) =~= Seq::<char>::empty());
    }
}

/// The listing order is total and transitive.
pub proof fn lemma_name_le(a: Seq<char>, b: Seq<char>, c: Seq<char>)
    ensures
        name_le(a, b) || name_le(b, a),
        (name_le(a, b) && name_le(b, c)) ==> name_le(a, c),
        (name_le(a, b) && name_le(b, a)) ==> a == b,
{
    let (la, lb, lc) = (lowercase(a), lowercase(b), lowercase(c));
    lemma_compare_anti(la, lb, 0);
    lemma_compare_anti(a, b, 0);
    lemma_compare_trans(la, lb, lc, 0);
    lemma_compare_trans(a, b, c, 0);
    if compare(a, b) == 0 {
        lemma_compare_zero(a, b, 0);
        assert(a.subrange(0, a.len() as int) =~= a);
        assert(b.subrange(0, b.len() as int) =~= b);
    }
}

/// Whether `order` lists every index below `n` once, each name no later
/// than the next.
pub open spec fn orders(names: Seq<Seq<char>>, order: Seq<usize>) -> bool {
    &&& order.len() == names.len()
    &&& forall|i: int| 0 <= i < order.len() ==> (#[trigger] order[i]) < names.len()
    &&& forall|i: int, j: int| 0 <= i < j < order.len() ==> #[trigger] order[i] != #[trigger] order[j]
    &&& forall|i: int, j: int|
        0 <= i < j < order.len() ==> name_le(names[#[trigger] order[i] as int], names[#[trigger] order[j] as int])
}

/// The indices of `names` in listing order (a stable insertion sort).
pub fn listing_order(names: &[String]) -> (r: Vec<usize>)
    ensures
        orders(Seq::new(names@.len(), |i: int| names@[i]@), r@),
{
    let ghost nv = Seq::new(names@.len(), |i: int| names@[i]@);
    let n = names.len();
    let mut lower: Vec<String> = Vec::new();
    let mut k: usize = 0;
    while k < n
        invariant
            n == names@.len(),
            k <= n,
            lower@.len() == k,
            forall|i: int| 0 <= i < k ==> (#[trigger] lower@[i])@ == lowercase(names@[i]@),
        decreases n - k,
    {
        lower.push(to_lowercase(names[k].as_str()));
        k = k + 1;
    }
    let mut order: Vec<usize> = Vec::new();
    let mut j: usize = 0;
    while j < n
        invariant
            n == names@.len(),
            nv == Seq::new(names@.len(), |i: int| names@[i]@),
            lower@.len() == n,
            forall|i: int| 0 <= i < n ==> (#[trigger] lower@[i])@ == lowercase(names@[i]@),
            j <= n,
            order@.len() == j,
            forall|i: int| 0 <= i < order@.len() ==> (#[trigger] order@[i]) < j,
            forall|a: int, b: int| 0 <= a < b < order@.len() ==> #[trigger] order@[a] != #[trigger] order@[b],
            forall|a: int, b: int|
                0 <= a < b < order@.len() ==> name_le(nv[#[trigger] order@[a] as int], nv[#[trigger] order@[b] as int]),
        decreases n - j,
    {
        // Find the first listed index whose name sorts strictly after `j`'s.
        let mut p: usize = 0;
        while p < order.len() && before_or_same(names, &lower, order[p], j)
            invariant
                n == names@.len(),
                nv == Seq::new(names@.len(), |i: int| names@[i]@),
                lower@.len() == n,
                forall|i: int| 0 <= i < n ==> (#[trigger] lower@[i])@ == lowercase(names@[i]@),
                j < n,
                p <= order@.len(),
                forall|i: int| 0 <= i < order@.len() ==> (#[trigger] order@[i]) < j,
                forall|i: int| 0 <= i < p ==> name_le(nv[#[trigger] order@[i] as int], nv[j as int]),
            decreases order@.len() - p,
        {
            p = p + 1;
        }
        let ghost old_order = order@;
        proof {
            if p < old_order.len() {
                assert(!name_le(nv[old_order[p as int] as int], nv[j as int]));
            }
        }
        order.insert(p, j);
        proof {
            let o = order@;
            assert(o == old_order.insert(p as int, j));
            assert forall|a: int, b: int| 0 <= a < b < o.len() implies name_le(nv[#[trigger] o[a] as int], nv[#[trigger] o[b] as int]) by {
                if b < p {
                    assert(o[a] == old_order[a] && o[b] == old_order[b]);
                } else if b == p {
                    assert(o[a] == old_order[a]);
                } else if a == p {
                    assert(o[b] == old_order[b - 1]);
                    lemma_name_le(nv[j as int], nv[old_order[p as int] as int], nv[old_order[b - 1] as int]);
                    if b - 1 > p {
                        assert(name_le(nv[old_order[p as int] as int], nv[old_order[b - 1] as int]));
                    }
                } else if a < p {
                    assert(o[a] == old_order[a] && o[b] == old_order[b - 1]);
                } else {
                    assert(o[a] == old_order[a - 1] && o[b] == old_order[b - 1]);
                }
            }
            assert forall|a: int, b: int| 0 <= a < b < o.len() implies #[trigger] o[a] != #[trigger] o[b] by {
                if a < p {
                    assert(o[a] == old_order[a]);
                } else if a > p {
                    assert(o[a] == old_order[a - 1]);
                }
                if b < p {
                    assert(o[b] == old_order[b]);
                } else if b > p {
                    assert(o[b] == old_order[b - 1]);
                }
            }
            assert forall|i: int| 0 <= i < o.len() implies (#[trigger] o[i]) < j + 1 by {
                if i < p {
                    assert(o[i] == old_order[i]);
                } else if i > p {
                    assert(o[i] == old_order[i - 1]);
                }
            }
        }
        j = j + 1;
    }
    order
}

/// Whether the name at `a` may be listed before the name at `b`.
fn before_or_same(names: &[String], lower: &Vec<String>, a: usize, b: usize) -> (r: bool)
    requires
        a < names@.len(),
        b < names@.len(),
        lower@.len() == names@.len(),
        lower@[a as int]@ == lowercase(names@[a as int]@),
        lower@[b as int]@ == lowercase(names@[b as int]@),
    ensures
        r == name_le(names@[a as int]@, names@[b as int]@),
{
    let c = compare_texts(lower[a].as_str(), lower[b].as_str());
    if c < 0 {
        true
    } else if c > 0 {
        false
    } else {
        compare_texts(names[a].as_str(), names[b].as_str()) <= 0
    }
}

/// Compare two texts by code point.
fn compare_texts(a: &str, b: &str) -> (r: i32)
    ensures
        r == compare(a@, b@),
{
    let n = a.unicode_len();
    let m = b.unicode_len();
    let mut i: usize = 0;
    while i < n && i < m
        invariant
            n == a@.len(),
            m == b@.len(),
            i <= n,
            i <= m,
            compare(a@, b@) == compare_from(a@, b@, i as int),
        decreases n - i,
    {
        let x = a.get_char(i) as u32;
        let y = b.get_char(i) as u32;
        if x < y {
            return -1;
        }
        if x > y {
            return 1;
        }
        i = i + 1;
    }
    if i >= n && i >= m {
        0
    } else if i >= n {
        -1
    } else {
        1
    }
}

/// Whether `t` is one of `v`'s texts.
pub open spec fn listed_in(v: Seq<String>, t: Seq<char>) -> bool {
    exists|k: int| 0 <= k < v.len() && (#[trigger] v[k])@ == t
}

/// The name a listing sorts a path by: its file name, or with `by_stem`
/// its display name (the file name without `.prp`); empty without a file
/// name.
pub open spec fn sort_key(by_stem: bool, path: Seq<char>) -> Seq<char> {
    match spec_file_name(path) {
        Some(n) => if by_stem {
            stem_of(n)
        } else {
            n
        },
        None => Seq::empty(),
    }
}

/// The `.prp` files among `paths`, each once per occurrence, ordered by file
/// name (or display name, with `by_stem`): case-insensitively first, then
/// exactly.
pub fn prp_paths_ordered(paths: &[String], by_stem: bool) -> (r: Vec<String>)
    ensures
        forall|i: int| 0 <= i < r@.len() ==> spec_is_prp((#[trigger] r@[i])@) && listed_in(paths@, r@[i]@),
        forall|k: int| 0 <= k < paths@.len() && spec_is_prp((#[trigger] paths@[k])@) ==> listed_in(r@, paths@[k]@),
        forall|i: int, j: int|
            0 <= i < j < r@.len() ==> name_le(sort_key(by_stem, (#[trigger] r@[i])@), sort_key(by_stem, (#[trigger] r@[j])@)),
{
    let mut kept: Vec<String> = Vec::new();
    let mut k: usize = 0;
    while k < paths.len()
        invariant
            k <= paths@.len(),
            forall|i: int| 0 <= i < kept@.len() ==> spec_is_prp((#[trigger] kept@[i])@) && listed_in(paths@, kept@[i]@),
            forall|q: int| 0 <= q < k && spec_is_prp((#[trigger] paths@[q])@) ==> listed_in(kept@, paths@[q]@),
        decreases paths@.len() - k,
    {
        if has_prp_extension(paths[k].as_str()) {
            let ghost before = kept@;
            kept.push(crate::provenance::copy_string(&paths[k]));
            proof {
                let last = kept@.len() - 1;
                assert(kept@[last]@ == paths@[k as int]@);
                assert(listed_in(paths@, kept@[last]@));
                assert forall|q: int| 0 <= q < k + 1 && spec_is_prp((#[trigger] paths@[q])@) implies listed_in(kept@, paths@[q]@) by {
                    if q < k {
                        let i = choose|i: int| 0 <= i < before.len() && (#[trigger] before[i])@ == paths@[q]@;
                        assert(kept@[i] == before[i]);
                    } else {
                        assert(kept@[last]@ == paths@[q]@);
                    }
                }
                assert forall|i: int| 0 <= i < kept@.len() implies spec_is_prp((#[trigger] kept@[i])@) && listed_in(paths@, kept@[i]@) by {
                    if i < before.len() {
                        assert(kept@[i] == before[i]);
                    }
                }
            }
        }
        k = k + 1;
    }
    let mut keys: Vec<String> = Vec::new();
    let mut i: usize = 0;
    while i < kept.len()
        invariant
            i <= kept@.len(),
            keys@.len() == i,
            forall|x: int| 0 <= x < i ==> (#[trigger] keys@[x])@ == sort_key(by_stem, kept@[x]@),
        decreases kept@.len() - i,
    {
        let name = if by_stem {
            display_name(kept[i].as_str())
        } else {
            match file_name(kept[i].as_str()) {
                Some(n) => n,
                None => String::new(),
            }
        };
        keys.push(name);
        i = i + 1;
    }
    let order = listing_order(keys.as_slice());
    let ghost kv = Seq::new(keys@.len(), |x: int| keys@[x]@);
    let mut out: Vec<String> = Vec::new();
    let mut t: usize = 0;
    while t < order.len()
        invariant
            t <= order@.len(),
            order@.len() == kept@.len(),
            orders(kv, order@),
            kv == Seq::new(keys@.len(), |x: int| keys@[x]@),
            keys@.len() == kept@.len(),
            forall|x: int| 0 <= x < keys@.len() ==> (#[trigger] keys@[x])@ == sort_key(by_stem, kept@[x]@),
            out@.len() == t,
            forall|x: int| 0 <= x < t ==> (#[trigger] out@[x])@ == kept@[order@[x] as int]@,
        decreases order@.len() - t,
    {
        out.push(crate::provenance::copy_string(&kept[order[t]]));
        t = t + 1;
    }
    proof {
        lemma_shelf_out(paths@, kept@, kv, order@, out@, by_stem);
    }
    out
}

proof fn lemma_shelf_out(paths: Seq<String>, kept: Seq<String>, kv: Seq<Seq<char>>, order: Seq<usize>, out: Seq<String>, by_stem: bool)
    requires
        forall|i: int| 0 <= i < kept.len() ==> spec_is_prp((#[trigger] kept[i])@) && listed_in(paths, kept[i]@),
        forall|q: int| 0 <= q < paths.len() && spec_is_prp((#[trigger] paths[q])@) ==> listed_in(kept, paths[q]@),
        orders(kv, order),
        kv.len() == kept.len(),
        forall|x: int| 0 <= x < kv.len() ==> #[trigger] kv[x] == sort_key(by_stem, kept[x]@),
        out.len() == order.len(),
        forall|x: int| 0 <= x < out.len() ==> (#[trigger] out[x])@ == kept[order[x] as int]@,
    ensures
        forall|i: int| 0 <= i < out.len() ==> spec_is_prp((#[trigger] out[i])@) && listed_in(paths, out[i]@),
        forall|k: int| 0 <= k < paths.len() && spec_is_prp((#[trigger] paths[k])@) ==> listed_in(out, paths[k]@),
        forall|i: int, j: int|
            0 <= i < j < out.len() ==> name_le(sort_key(by_stem, (#[trigger] out[i])@), sort_key(by_stem, (#[trigger] out[j])@)),
{
    assert forall|x: int| 0 <= x < out.len() implies spec_is_prp((#[trigger] out[x])@) && listed_in(paths, out[x]@) by {
        let i = order[x] as int;
        assert(spec_is_prp(kept[i]@) && listed_in(paths, kept[i]@));
    }
    assert forall|q: int| 0 <= q < paths.len() && spec_is_prp((#[trigger] paths[q])@) implies listed_in(out, paths[q]@) by {
        let i = choose|i: int| 0 <= i < kept.len() && (#[trigger] kept[i])@ == paths[q]@;
        lemma_order_covers(order, kept.len() as int, i);
        let x = choose|x: int| 0 <= x < order.len() && order[x] == i;
        assert(out[x]@ == paths[q]@);
    }
    assert forall|i: int, j: int| 0 <= i < j < out.len() implies name_le(sort_key(by_stem, (#[trigger] out[i])@), sort_key(by_stem, (#[trigger] out[j])@)) by {
        assert(name_le(kv[order[i] as int], kv[order[j] as int]));
        assert(kv[order[i] as int] == sort_key(by_stem, kept[order[i] as int]@));
        assert(kv[order[j] as int] == sort_key(by_stem, kept[order[j] as int]@));
    }
}

/// The shelf files of a bag folder in the order the shelf set loads them:
/// `.prp` files only, by file name, case-insensitively first, then exactly.
pub fn shelf_files(paths: &[String]) -> (r: Vec<String>)
    ensures
        forall|i: int| 0 <= i < r@.len() ==> spec_is_prp((#[trigger] r@[i])@) && listed_in(paths@, r@[i]@),
        forall|k: int| 0 <= k < paths@.len() && spec_is_prp((#[trigger] paths@[k])@) ==> listed_in(r@, paths@[k]@),
        forall|i: int, j: int|
            0 <= i < j < r@.len() ==> name_le(sort_key(false, (#[trigger] r@[i])@), sort_key(false, (#[trigger] r@[j])@)),
{
    prp_paths_ordered(paths, false)
}

/// The display name of a path: its file stem, empty without a file name.
pub open spec fn display_of(path: Seq<char>) -> Seq<char> {
    sort_key(true, path)
}

/// Every collection of a bag folder: My Bag first (whether or not its file
/// exists), then each `.prp` file among `shelf_paths` as a shelf, ordered by
/// display name, case-insensitively first, then exactly.
pub fn collection_list(bag_path: &str, bag_exists: bool, shelf_paths: &[String]) -> (r: Vec<Collection>)
    ensures
        r@.len() >= 1,
        r@[0].path@ == bag_path@ && r@[0].name@ == display_of(bag_path@) && r@[0].role
            == BagRole::MyBag && r@[0].exists == bag_exists,
        forall|i: int|
            1 <= i < r@.len() ==> (#[trigger] r@[i]).role == BagRole::Shelf && r@[i].exists
                && r@[i].name@ == display_of(r@[i].path@) && spec_is_prp(r@[i].path@) && listed_in(
                shelf_paths@,
                r@[i].path@,
            ),
        forall|k: int|
            0 <= k < shelf_paths@.len() && spec_is_prp((#[trigger] shelf_paths@[k])@) ==> exists|i: int|
                1 <= i < r@.len() && r@[i].path@ == shelf_paths@[k]@,
        forall|i: int, j: int|
            1 <= i < j < r@.len() ==> name_le((#[trigger] r@[i]).name@, (#[trigger] r@[j]).name@),
{
    let shelves = prp_paths_ordered(shelf_paths, true);
    let mut out: Vec<Collection> = Vec::new();
    out.push(
        Collection {
            path: String::from_str(bag_path),
            name: display_name(bag_path),
            role: BagRole::MyBag,
            exists: bag_exists,
        },
    );
    let mut i: usize = 0;
    while i < shelves.len()
        invariant
            i <= shelves@.len(),
            out@.len() == i + 1,
            out@[0].path@ == bag_path@ && out@[0].name@ == display_of(bag_path@) && out@[0].role
                == BagRole::MyBag && out@[0].exists == bag_exists,
            forall|x: int|
                1 <= x < out@.len() ==> (#[trigger] out@[x]).role == BagRole::Shelf && out@[x].exists
                    && out@[x].name@ == display_of(out@[x].path@) && out@[x].path@ == shelves@[x - 1]@,
        decreases shelves@.len() - i,
    {
        let path = crate::provenance::copy_string(&shelves[i]);
        let name = display_name(shelves[i].as_str());
        out.push(Collection { path, name, role: BagRole::Shelf, exists: true });
        i = i + 1;
    }
    proof {
        assert forall|x: int| 1 <= x < out@.len() implies spec_is_prp((#[trigger] out@[x]).path@)
            && listed_in(shelf_paths@, out@[x].path@) by {
            assert(out@[x].path@ == shelves@[x - 1]@);
        }
        assert forall|k: int| 0 <= k < shelf_paths@.len() && spec_is_prp((#[trigger] shelf_paths@[k])@) implies exists|x: int|
            1 <= x < out@.len() && out@[x].path@ == shelf_paths@[k]@ by {
            assert(listed_in(shelves@, shelf_paths@[k]@));
            let q = choose|q: int| 0 <= q < shelves@.len() && (#[trigger] shelves@[q])@ == shelf_paths@[k]@;
            assert(out@[q + 1].path@ == shelves@[q]@);
        }
        assert forall|a: int, b: int| 1 <= a < b < out@.len() implies name_le((#[trigger] out@[a]).name@, (#[trigger] out@[b]).name@) by {
            assert(out@[a].path@ == shelves@[a - 1]@);
            assert(out@[b].path@ == shelves@[b - 1]@);
            assert(name_le(sort_key(true, shelves@[a - 1]@), sort_key(true, shelves@[b - 1]@)));
        }
    }
    out
}

/// An ordering of `n` distinct indices below `n` lists every index.
proof fn lemma_order_covers(order: Seq<usize>, n: int, i: int)
    requires
        order.len() == n,
        0 <= i < n,
        forall|x: int| 0 <= x < order.len() ==> (#[trigger] order[x]) < n,
        forall|a: int, b: int| 0 <= a < b < order.len() ==> #[trigger] order[a] != #[trigger] order[b],
    ensures
        exists|x: int| 0 <= x < order.len() && order[x] == i,
{
    if !(exists|x: int| 0 <= x < order.len() && order[x] == i) {
        // The n distinct entries would fit among the n - 1 values other than i.
        let vals = order.map_values(|v: usize| v as int);
        assert(vals.no_duplicates()) by {
            assert forall|a: int, b: int| 0 <= a < vals.len() && 0 <= b < vals.len() && a != b implies vals[a] != vals[b] by {
                if a < b {
                    assert(order[a] != order[b]);
                } else {
                    assert(order[b] != order[a]);
                }
            }
        }
        vals.unique_seq_to_set();
        let range = vstd::set_lib::set_int_range(0, n).remove(i);
        vstd::set_lib::lemma_int_range(0, n);
        assert(vals.to_set().subset_of(range)) by {
            assert forall|v: int| vals.to_set().contains(v) implies range.contains(v) by {
                let x = choose|x: int| 0 <= x < vals.len() && vals[x] == v;
                assert(order[x] as int == v);
            }
        }
        vstd::set_lib::lemma_len_subset(vals.to_set(), range);
        assert(false);
    }
}

} // verus!
