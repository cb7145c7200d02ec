//! Hardware DCA buses of the console: the validated bus identifier.

use vstd::prelude::*;

use crate::wing::id::WingId;

verus! {

/// A hardware DCA bus address, in the closed range 1 to 16.
#[derive(Copy, Clone, Debug, PartialEq, Eq, Structural, PartialOrd, Ord, Hash)]
pub struct WingDcaId(u8);

impl WingId for WingDcaId {
    open spec fn min_spec() -> u8 {
        1
    }

    open spec fn max_spec() -> u8 {
        16
    }

    closed spec fn id_spec(&self) -> u8 {
        self.0
    }

    fn min_id() -> u8 {
        1
    }

    fn max_id() -> u8 {
        16
    }

    fn unchecked_new(id: u8) -> Self {
        WingDcaId(id)
    }

    fn value(&self) -> u8 {
        self.0
    }
}

/// DCA identifiers with one raw value are the same identifier.
pub proof fn lemma_dca_id_injective(a: WingDcaId, b: WingDcaId)
    requires
        a.id_spec() == b.id_spec(),
    ensures
        a == b,
{
}

impl WingDcaId {
    /// The raw bus number.
    pub fn to_u8(&self) -> (r: u8)
        ensures
            r == self.id_spec(),
    {
        self.0
    }
}

} // verus!
