//! Shared vocabulary of the engine: moves and protocol settings.

use vstd::prelude::*;

verus! {

/// A single step of a player, or `Pass` when no step is possible.
#[derive(Clone, Copy, Debug, PartialEq, Eq, Structural)]
pub enum Move {
    Up,
    Down,
    Left,
    Right,
    Pass,
}

impl Move {
    /// The lowercase wire name of the move, as the protocol expects it.
    pub fn name(&self) -> (r: &'static str)
        ensures
            r@ == match *self {
                Move::Up => "up"@,
                Move::Down => "down"@,
                Move::Left => "left"@,
                Move::Right => "right"@,
                Move::Pass => "pass"@,
            },
    {
        match *self {
            Move::Up => "up",
            Move::Down => "down",
            Move::Left => "left",
            Move::Right => "right",
            Move::Pass => "pass",
        }
    }
}

/// How transposition cache keys are composed: the raw grid alone (under
/// which two grids reached with different players to move collide), or the
/// grid extended with the side to move.
#[derive(Clone, Copy, Debug, PartialEq, Eq, Structural)]
pub enum CacheKeying {
    GridOnly,
    GridAndPlayer,
}

/// A configuration item delivered by the game protocol.
///
/// Durations are carried as whole milliseconds.
#[derive(Clone, Debug)]
pub enum Setting {
    Timebank(u64),
    TimePerMove(u64),
    BotName(String),
    BotId(u8),
    FieldWidth(u8),
    FieldHeight(u8),
    PlayerNames { player1: String, player2: String },
}

} // verus!
