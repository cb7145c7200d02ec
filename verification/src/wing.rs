//! Types and logic for the mixing console itself: validated channel and DCA
//! identifiers, the color palette, membership tags, property addressing,
//! device writes, and the correlation table that pairs response frames with
//! pending read requests.

pub mod action;
pub mod channel;
pub mod color;
pub mod console;
pub mod dca;
pub mod error;
pub mod id;
pub mod state;
