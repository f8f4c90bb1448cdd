//! The count cue emitter: maps each newly reached count to the cue
//! index handed to the presentation layer.
//!
//! A cue index is the 1-based count itself, always in `[1, 20]` for a
//! valid session, so an external lookup of audio clip or limb position
//! by index can never fail.

use vstd::prelude::*;
use crate::machine::LIMB_LIMIT;

verus! {

/// The cue index for reaching `count` out of `total`: the count
/// itself, 1-based.
pub fn cue_for(count: u8, total: u8) -> (cue: u8)
    requires
        1 <= count <= total <= LIMB_LIMIT,
    ensures
        cue == count,
        1 <= cue <= LIMB_LIMIT,
{
    count
}

} // verus!
