//! Errors of the console layer.

use vstd::prelude::*;
use vstd::string::*;

use crate::decimal::{dec_digits, u32_to_decimal};

verus! {

/// `libwing::Error` is the error type of the device-protocol crate; values of
/// it pass through this crate unexamined.
#[verifier::external_type_specification]
#[verifier::external_body]
pub struct ExLibWingError(libwing::Error);

/// A failure in the console layer.
#[derive(Debug)]
pub enum WingError {
    /// A raw identifier fell outside the closed range an identifier kind
    /// accepts; carries the offending value and the valid bounds.
    IdOutOfBounds { id: u32, min: u32, max: u32 },
    /// The underlying connection failed; surfaced verbatim.
    LibWing(libwing::Error),
    /// No data frame for this node address arrived in time.
    NodeDataRequestTimeout(i32),
}

/// The human-readable text of a console-layer failure.
pub open spec fn wing_error_message(e: WingError) -> Seq<char> {
    match e {
        WingError::IdOutOfBounds { id, min, max } => "Wing ID "@ + dec_digits(id as nat)
            + " is out of bounds. Allowed values from "@ + dec_digits(min as nat) + " to "@
            + dec_digits(max as nat),
        WingError::LibWing(_) => "libwing error"@,
        WingError::NodeDataRequestTimeout(node_id) => {
            if node_id >= 0 {
                "Node data request timed out for node ID "@ + dec_digits(node_id as nat)
            } else {
                "Node data request timed out"@
            }
        },
    }
}

impl WingError {
    /// Builds the out-of-bounds error for an identifier and its valid range.
    pub fn id_out_of_bounds(id: u32, from: u32, to: u32) -> (r: Self)
        ensures
            r == (WingError::IdOutOfBounds { id, min: from, max: to }),
    {
        WingError::IdOutOfBounds { id, min: from, max: to }
    }

    /// The failure as a human-readable message; no structured code crosses
    /// this boundary.
    pub fn message(&self) -> (r: String)
        ensures
            r@ == wing_error_message(*self),
    {
        match self {
            WingError::IdOutOfBounds { id, min, max } => {
                let mut s = "Wing ID ".to_owned();
                s.append(u32_to_decimal(*id).as_str());
                s.append(" is out of bounds. Allowed values from ");
                s.append(u32_to_decimal(*min).as_str());
                s.append(" to ");
                s.append(u32_to_decimal(*max).as_str());
                proof {
                    assert(s@ =~= wing_error_message(*self));
                }
                s
            },
            WingError::LibWing(_) => "libwing error".to_owned(),
            WingError::NodeDataRequestTimeout(node_id) => {
                if *node_id >= 0 {
                    let mut s = "Node data request timed out for node ID ".to_owned();
                    s.append(u32_to_decimal(*node_id as u32).as_str());
                    proof {
                        assert(s@ =~= wing_error_message(*self));
                    }
                    s
                } else {
                    "Node data request timed out".to_owned()
                }
            },
        }
    }
}

} // verus!
