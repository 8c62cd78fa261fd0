//! Outfit operations: save the worn set, apply an outfit, manage outfits.
//!
//! The thin behaviour layer over [`crate::outfits`]: every storage detail
//! lives in [`OutfitStore`]. An outfit is applied by name against the keys
//! the caller can wear: what is available is worn, in outfit order, and
//! what is not is reported, never failing the whole apply. Identity is
//! always the `(id, crc)` pair.

use vstd::prelude::*;

use crate::error::PropError;
use crate::outfits::{first_named, not_found_text, OutfitChange, OutfitStore, OutfitView};
use crate::prp::PropKey;

verus! {

/// The result of preparing an outfit for wearing.
#[derive(Debug, Clone, PartialEq, Eq)]
pub struct OutfitApplication {
    /// The available props to wear, in the outfit's order.
    pub worn: Vec<PropKey>,
    /// The outfit's references that were not available, in the outfit's
    /// order.
    pub missing: Vec<PropKey>,
}

impl Default for OutfitApplication {
    fn default() -> (r: Self)
        ensures
            r.worn@.len() == 0,
            r.missing@.len() == 0,
    {
        OutfitApplication { worn: Vec::new(), missing: Vec::new() }
    }
}

impl OutfitApplication {
    /// Whether every reference in the outfit was available.
    pub fn is_complete(&self) -> (r: bool)
        ensures
            r == (self.missing@.len() == 0),
    {
        self.missing.len() == 0
    }

    /// Whether the outfit named nothing at all.
    pub fn is_empty(&self) -> (r: bool)
        ensures
            r == (self.worn@.len() == 0 && self.missing@.len() == 0),
    {
        self.worn.len() == 0 && self.missing.len() == 0
    }

    /// Total number of references the outfit named, worn plus missing,
    /// saturating at `usize::MAX`.
    pub fn total(&self) -> (r: usize)
        ensures
            r == (if self.worn@.len() + self.missing@.len() > usize::MAX {
                usize::MAX as int
            } else {
                (self.worn@.len() + self.missing@.len()) as int
            }),
    {
        match self.worn.len().checked_add(self.missing.len()) {
            Some(t) => t,
            None => usize::MAX,
        }
    }
}

/// The references of an outfit that are in `available`, in order.
pub open spec fn worn_of(props: Seq<PropKey>, available: Seq<PropKey>) -> Seq<PropKey>
    decreases props.len(),
{
    if props.len() == 0 {
        Seq::empty()
    } else if available.contains(props.last()) {
        worn_of(props.drop_last(), available).push(props.last())
    } else {
        worn_of(props.drop_last(), available)
    }
}

/// The references of an outfit that are not in `available`, in order.
pub open spec fn missing_of(props: Seq<PropKey>, available: Seq<PropKey>) -> Seq<PropKey>
    decreases props.len(),
{
    if props.len() == 0 {
        Seq::empty()
    } else if available.contains(props.last()) {
        missing_of(props.drop_last(), available)
    } else {
        missing_of(props.drop_last(), available).push(props.last())
    }
}

/// Stage recording `worn` as the outfit called `name`: the store's
/// [`OutfitStore::save_worn`].
pub fn save_current_outfit(store: &OutfitStore, name: &str, worn: &[PropKey]) -> (r: Result<
    OutfitChange,
    PropError,
>)
    ensures
        crate::outfits::change_matches(r, crate::outfits::spec_save_worn(store@, name@, worn@)),
{
    store.save_worn(name, worn)
}

/// Whether `key` is one of `keys`.
fn contains_key(keys: &[PropKey], key: PropKey) -> (r: bool)
    ensures
        r == keys@.contains(key),
{
    let mut i: usize = 0;
    while i < keys.len()
        invariant
            i <= keys@.len(),
            forall|j: int| 0 <= j < i ==> keys@[j] != key,
        decreases keys@.len() - i,
    {
        if keys[i].id == key.id && keys[i].crc == key.crc {
            assert(keys@[i as int] == key);
            return true;
        }
        i = i + 1;
    }
    false
}

/// Prepare the outfit called `name` (trimmed) for wearing against the keys
/// in `available`: the references to wear, in order, split from the ones
/// that are not available. An unknown name is an error; a missing reference
/// is not.
pub fn apply_outfit(store: &OutfitStore, name: &str, available: &[PropKey]) -> (r: Result<
    OutfitApplication,
    PropError,
>)
    ensures
        match first_named(store@.outfits, crate::text::trimmed(name@), 0) {
            None => r matches Err(PropError::BagIo { detail }) && detail@ == not_found_text(
                crate::text::trimmed(name@),
            ),
            Some(k) => r matches Ok(a) && a.worn@ == worn_of(store@.outfits[k].props, available@)
                && a.missing@ == missing_of(store@.outfits[k].props, available@),
        },
{
    let name = crate::text::trim(name);
    let outfit = match store.get(name.as_str()) {
        Some(o) => o,
        None => {
            let mut t = String::from_str("outfits: no outfit named \"");
            crate::text::push_str(&mut t, name.as_str());
            crate::text::push_str(&mut t, "\"");
            return Err(PropError::BagIo { detail: t });
        },
    };
    let ghost props = outfit.props@;
    let mut worn: Vec<PropKey> = Vec::new();
    let mut missing: Vec<PropKey> = Vec::new();
    let mut i: usize = 0;
    while i < outfit.props.len()
        invariant
            i <= props.len(),
            props == outfit.props@,
            worn@ == worn_of(props.subrange(0, i as int), available@),
            missing@ == missing_of(props.subrange(0, i as int), available@),
        decreases props.len() - i,
    {
        let key = outfit.props[i];
        let ghost prefix = props.subrange(0, i as int);
        assert(props.subrange(0, i + 1).drop_last() =~= prefix);
        if contains_key(available, key) {
            worn.push(key);
        } else {
            missing.push(key);
        }
        assert(worn@ =~= worn_of(props.subrange(0, i + 1), available@));
        assert(missing@ =~= missing_of(props.subrange(0, i + 1), available@));
        i = i + 1;
    }
    assert(props.subrange(0, i as int) =~= props);
    Ok(OutfitApplication { worn, missing })
}

/// Every stored outfit name, in file order.
pub fn list_outfits(store: &OutfitStore) -> (r: Vec<&str>)
    ensures
        r@.len() == store@.outfits.len(),
        forall|i: int| 0 <= i < r@.len() ==> r@[i]@ == store@.outfits[i].name,
{
    store.names()
}

/// Stage renaming the outfit `from` to `to`: the store's
/// [`OutfitStore::rename`].
pub fn rename_outfit(store: &OutfitStore, from: &str, to: &str) -> (r: Result<OutfitChange, PropError>)
    ensures
        crate::outfits::change_matches(r, crate::outfits::spec_rename(store@, from@, to@)),
{
    store.rename(from, to)
}

/// Stage deleting the outfit called `name`: the store's
/// [`OutfitStore::delete`].
pub fn delete_outfit(store: &OutfitStore, name: &str) -> (r: Result<OutfitChange, PropError>)
    ensures
        crate::outfits::change_matches(r, crate::outfits::spec_delete(store@, name@)),
{
    store.delete(name)
}

/// Stage copying the outfit `source` to a new outfit `target`: the store's
/// [`OutfitStore::duplicate`].
pub fn duplicate_outfit(store: &OutfitStore, source: &str, target: &str) -> (r: Result<
    OutfitChange,
    PropError,
>)
    ensures
        crate::outfits::change_matches(
            r,
            crate::outfits::spec_duplicate(store@, source@, target@),
        ),
{
    store.duplicate(source, target)
}

} // verus!
