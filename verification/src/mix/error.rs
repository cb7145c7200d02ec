//! Errors of the mix domain.

use vstd::prelude::*;
use vstd::string::*;

use crate::decimal::{dec_digits, u32_to_decimal};

use crate::mix::actor::ActorId;
use crate::mix::group::GroupId;
use crate::mix::position::PositionId;
use crate::wing::error::WingError;

verus! {

/// A failure in the mix domain: either a console-layer failure carried
/// through, or a reference to a registry entry that does not exist. The
/// reference errors are recoverable conditions, not faults: an operator may
/// refer to something that was since removed.
#[derive(Debug)]
pub enum MixError {
    WingError(WingError),
    ActorNotFound(ActorId),
    GroupNotFound(GroupId),
    PositionNotFound(PositionId),
}

/// The human-readable text of a mix-domain failure.
pub open spec fn mix_error_message(e: MixError) -> Seq<char> {
    match e {
        MixError::WingError(err) => "Wing error: "@ + crate::wing::error::wing_error_message(err),
        MixError::ActorNotFound(id) => "Actor not found: "@ + dec_digits(id.0 as nat),
        MixError::GroupNotFound(id) => "Group not found: "@ + dec_digits(id.0 as nat),
        MixError::PositionNotFound(id) => "Position not found: "@ + dec_digits(id.0 as nat),
    }
}

impl MixError {
    /// The failure as a human-readable message; no structured code crosses
    /// this boundary.
    pub fn message(&self) -> (r: String)
        ensures
            r@ == mix_error_message(*self),
    {
        match self {
            MixError::WingError(err) => {
                let mut s = "Wing error: ".to_owned();
                s.append(err.message().as_str());
                proof {
                    assert(s@ =~= mix_error_message(*self));
                }
                s
            },
            MixError::ActorNotFound(id) => {
                let mut s = "Actor not found: ".to_owned();
                s.append(u32_to_decimal(id.0).as_str());
                proof {
                    assert(s@ =~= mix_error_message(*self));
                }
                s
            },
            MixError::GroupNotFound(id) => {
                let mut s = "Group not found: ".to_owned();
                s.append(u32_to_decimal(id.0).as_str());
                proof {
                    assert(s@ =~= mix_error_message(*self));
                }
                s
            },
            MixError::PositionNotFound(id) => {
                let mut s = "Position not found: ".to_owned();
                s.append(u32_to_decimal(id.0).as_str());
                proof {
                    assert(s@ =~= mix_error_message(*self));
                }
                s
            },
        }
    }
}

impl From<WingError> for MixError {
    fn from(value: WingError) -> (r: Self) {
        MixError::WingError(value)
    }
}

impl vstd::std_specs::convert::FromSpecImpl<WingError> for MixError {
    open spec fn obeys_from_spec() -> bool {
        true
    }

    open spec fn from_spec(t: WingError) -> Self {
        MixError::WingError(t)
    }
}

} // verus!
