//! Positions: stored stereo pan settings.

use vstd::prelude::*;

use crate::clamped::{clamp_unit, ClampedValue, HALF_UNIT};
use crate::wing::action::WingAction;
use crate::wing::channel::WingChannelId;

verus! {

/// An opaque handle into the show's position registry; handles grow
/// monotonically and are never reused.
#[derive(Copy, Clone, Debug, Default, PartialEq, Eq, Structural, PartialOrd, Ord, Hash)]
pub struct PositionId(pub u32);

impl PositionId {
    /// The next handle after this one.
    pub fn next(&self) -> (r: Self)
        requires
            self.0 < u32::MAX,
        ensures
            r.0 == self.0 + 1,
    {
        PositionId(self.0 + 1)
    }
}

/// A pan setting: a clamped unit-interval value where zero is hard left,
/// the center of the range is center, and one unit is hard right.
#[derive(Copy, Clone, Debug, PartialEq, Eq, Structural, PartialOrd, Ord, Hash)]
pub struct Position {
    pan: ClampedValue,
}

impl Position {
    /// The stored pan.
    pub closed spec fn pan_spec(&self) -> ClampedValue {
        self.pan
    }

    /// The stored pan lies in the valid range.
    pub open spec fn wf(&self) -> bool {
        self.pan_spec().wf()
    }

    /// A position at the given pan.
    pub fn new(pan: ClampedValue) -> (r: Self)
        ensures
            r.pan_spec() == pan,
    {
        Position { pan }
    }

    /// The stored pan, exactly as clamped at construction.
    pub fn pan(&self) -> (r: ClampedValue)
        ensures
            r == self.pan_spec(),
    {
        self.pan
    }

    /// The console mutation that applies this pan to one channel.
    pub fn apply(&self, channel: WingChannelId) -> (a: WingAction)
        ensures
            a == WingAction::SetPan(channel, self.pan_spec()),
    {
        WingAction::SetPan(channel, self.pan)
    }
}

impl Default for Position {
    /// The center pan.
    fn default() -> (r: Self)
        ensures
            r.pan_spec().value_spec() == HALF_UNIT,
            r.wf(),
    {
        let r = Position { pan: ClampedValue::new(HALF_UNIT as i64) };
        proof {
            assert(clamp_unit(HALF_UNIT as int) == HALF_UNIT);
        }
        r
    }
}

} // verus!
