//! A cue-driven control layer for a digital mixing console.
//!
//! The library models a live show as a sorted list of cues, each holding a
//! DCA assignment (which performers are grouped on which hardware DCA bus)
//! and a position assignment (per-performer stereo pan). Activating a cue
//! computes the exact sequence of device writes that re-programs the console,
//! muting and clearing every controlled channel the cue does not use.
//! The wire-level transport is driven by the surrounding application; this
//! crate contains the verified decision logic and encodings.

pub mod clamped;
pub mod cue;
pub mod decimal;
pub mod mix;
pub mod registry;
pub mod show;
pub mod wing;
