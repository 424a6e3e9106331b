//! Configuration of the historically ambiguous instruction variants.

use vstd::prelude::*;

verus! {

/// The two quirks on which historical interpreters disagree. Both are off in
/// the canonical configuration:
/// - `shift_uses_vy`: the shift instructions read VY instead of VX;
/// - `load_store_increments_i`: the register-block store and load leave
///   I pointing past the transferred bytes instead of keeping it.
#[derive(Clone, Copy, Debug, PartialEq, Eq, Structural)]
pub struct Quirks {
    pub shift_uses_vy: bool,
    pub load_store_increments_i: bool,
}

/// The canonical quirk configuration: both toggles off.
pub open spec fn canonical_quirks() -> Quirks {
    Quirks { shift_uses_vy: false, load_store_increments_i: false }
}

impl Quirks {
    /// The canonical behaviour: shifts read VX, I is unchanged by the
    /// register-block operations.
    pub fn canonical() -> (q: Quirks)
        ensures
            q == canonical_quirks(),
    {
        Quirks { shift_uses_vy: false, load_store_increments_i: false }
    }
}

impl Default for Quirks {
    fn default() -> (q: Quirks)
        ensures
            !q.shift_uses_vy,
            !q.load_store_increments_i,
    {
        Quirks { shift_uses_vy: false, load_store_increments_i: false }
    }
}

} // verus!
