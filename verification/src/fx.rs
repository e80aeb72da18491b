//! The decidable face of the effects engine.
//!
//! The engine itself — distortion, synthetic noise, band filtering, and the
//! sample synthesis of the squelch tail — is floating-point signal work and
//! lives outside the library, at the audio boundary. What is decided here,
//! and verified, is the burst policy: how many blocks one squelch tail
//! holds. The session machine (see [`crate::session`]) decides *when* a
//! burst is played; this decides *how much* static it holds.

use vstd::prelude::*;

verus! {

/// How many blocks of static one squelch tail holds when effects are on.
pub const SQUELCH_BURST_BLOCKS: usize = 8;

/// The number of blocks a squelch burst produces: the fixed burst length
/// when effects are enabled, and none at all when they are disabled —
/// whatever state the engine is in.
pub fn squelch_block_count(effects_enabled: bool) -> (r: usize)
    ensures
        effects_enabled ==> r == SQUELCH_BURST_BLOCKS,
        !effects_enabled ==> r == 0,
{
    if effects_enabled {
        SQUELCH_BURST_BLOCKS
    } else {
        0
    }
}

} // verus!
