//! The interface a bot presents to the game protocol.

use vstd::prelude::*;

use crate::types::{Move, Setting};

verus! {

/// A turn-taking engine driven by the line protocol: it is fed board
/// snapshots, round numbers and settings, and asked for one move per turn
/// within a time budget given in milliseconds.
pub trait Bot {
    /// The internal consistency every protocol call preserves.
    spec fn inv(&self) -> bool;

    /// Choose the move to play this turn within the given budget.
    fn get_move(&mut self, time_to_move_ms: u64) -> (m: Move)
        requires
            old(self).inv(),
        ensures
            final(self).inv(),
    ;

    /// Record the round number the protocol announced.
    fn update_round(&mut self, round: u8)
        requires
            old(self).inv(),
        ensures
            final(self).inv(),
    ;

    /// Replace the board from a textual snapshot; false when the text does
    /// not parse, leaving the previous board in place.
    fn update_board(&mut self, text: &[u8]) -> (ok: bool)
        requires
            old(self).inv(),
        ensures
            final(self).inv(),
    ;

    /// Take over a configuration item.
    fn set_setting(&mut self, setting: Setting)
        requires
            old(self).inv(),
        ensures
            final(self).inv(),
    ;
}

} // verus!
