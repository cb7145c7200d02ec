//! The validated-identifier pattern: an integer identifier kind with a closed
//! raw range, checked once at construction.

use vstd::prelude::*;

use crate::wing::error::WingError;

verus! {

/// A console identifier kind with a closed range of raw values.
///
/// Checked construction through [`WingId::new`] is the single gate that keeps
/// an invalid device address from ever being formed: every verified
/// constructor either validates the raw value or already holds a proof that
/// it is in range.
pub trait WingId: Sized {
    /// The lowest raw value this identifier kind accepts.
    spec fn min_spec() -> u8;

    /// The highest raw value this identifier kind accepts.
    spec fn max_spec() -> u8;

    /// The raw device address this identifier holds.
    spec fn id_spec(&self) -> u8;

    /// Whether the held raw value lies in the kind's range. Constructors
    /// establish this and nothing ever changes a formed identifier.
    open spec fn is_valid(&self) -> bool {
        Self::min_spec() <= self.id_spec() && self.id_spec() <= Self::max_spec()
    }

    fn min_id() -> (r: u8)
        ensures
            r == Self::min_spec(),
    ;

    fn max_id() -> (r: u8)
        ensures
            r == Self::max_spec(),
    ;

    /// Forms the identifier from a raw value already known to be in range.
    fn unchecked_new(id: u8) -> (r: Self)
        requires
            Self::min_spec() <= id <= Self::max_spec(),
        ensures
            r.id_spec() == id,
    ;

    /// The raw device address.
    fn value(&self) -> (r: u8)
        ensures
            r == self.id_spec(),
    ;

    /// Validated construction: succeeds exactly on raw values inside the
    /// kind's range, and otherwise reports the offending value together with
    /// the exact bounds.
    fn new(id: u8) -> (r: Result<Self, WingError>)
        ensures
            Self::min_spec() <= id <= Self::max_spec() ==> (r matches Ok(v) && v.id_spec()
                == id),
            !(Self::min_spec() <= id <= Self::max_spec()) ==> r == Err::<Self, WingError>(
                WingError::IdOutOfBounds {
                    id: id as u32,
                    min: Self::min_spec() as u32,
                    max: Self::max_spec() as u32,
                },
            ),
    {
        let min = Self::min_id();
        let max = Self::max_id();
        if min <= id && id <= max {
            Ok(Self::unchecked_new(id))
        } else {
            Err(WingError::id_out_of_bounds(id as u32, min as u32, max as u32))
        }
    }
}

} // verus!
