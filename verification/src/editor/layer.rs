//! Layer identity.

use vstd::prelude::*;

verus! {

/// Stable identity for a layer, unique within a document.
#[derive(Debug, Clone, Copy, PartialEq, Eq, PartialOrd, Ord, Hash, Structural)]
pub struct LayerId(u64);

impl View for LayerId {
    type V = u64;

    closed spec fn view(&self) -> u64 {
        self.0
    }
}

impl LayerId {
    /// Wrap a raw id.
    pub fn new(raw: u64) -> (r: Self)
        ensures
            r@ == raw,
    {
        LayerId(raw)
    }

    /// The raw id, for state that must be persisted or compared.
    pub fn get(self) -> (r: u64)
        ensures
            r == self@,
    {
        self.0
    }
}

} // verus!
