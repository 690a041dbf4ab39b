//! A minimal sample bot: it plays a pseudo-random legal move, drawn from a
//! linear congruential generator seeded by the caller.

use vstd::prelude::*;

use crate::board::{legal_seq, Board};
use crate::bot::Bot;
use crate::types::{Move, Setting};

verus! {

/// One step of the linear congruential generator, on 32-bit state.
pub open spec fn lcg_next(s: u64) -> u64 {
    (((1664525 * ((s as int) % 4294967296)) + 1013904223) % 4294967296) as u64
}

/// The sample bot: generator state, the last board snapshot, identity and
/// round counter.
pub struct StarterBot {
    pub rng_state: u64,
    pub board: Option<Board>,
    pub id: u8,
    pub round: u8,
}

impl StarterBot {
    /// Internal consistency: any held board is well-formed, and the
    /// identity names a player.
    pub open spec fn wf(self) -> bool {
        &&& (self.board is Some ==> self.board->0.wf())
        &&& self.id < 2
    }

    /// A fresh sample bot around a generator seed.
    pub fn new(seed: u64) -> (r: StarterBot)
        ensures
            r.wf(),
            r.rng_state == seed,
            r.board is None,
            r.id == 0,
            r.round == 0,
    {
        StarterBot { rng_state: seed, board: None, id: 0, round: 0 }
    }

    /// Advance the generator and pick the legal move it indexes; `Up` when
    /// there is no board or no legal move.
    pub fn random_move(&mut self) -> (r: Move)
        requires
            old(self).wf(),
        ensures
            final(self).wf(),
            final(self).rng_state == lcg_next(old(self).rng_state),
            final(self).board == old(self).board,
            final(self).id == old(self).id,
            final(self).round == old(self).round,
            ({
                let moves = if old(self).board is Some {
                    legal_seq(old(self).board->0@, old(self).id as int)
                } else {
                    Seq::<Move>::empty()
                };
                if moves.len() == 0 {
                    r == Move::Up
                } else {
                    r == moves[(final(self).rng_state as int) % (moves.len() as int)]
                }
            }),
    {
        let s = self.rng_state % 4294967296;
        self.rng_state = (1664525 * s + 1013904223) % 4294967296;
        let moves: Vec<Move> = match &self.board {
            Some(b) => b.legal_moves(self.id),
            None => Vec::new(),
        };
        if moves.len() > 0 {
            let k = (self.rng_state % (moves.len() as u64)) as usize;
            moves[k]
        } else {
            Move::Up
        }
    }
}

impl Bot for StarterBot {
    open spec fn inv(&self) -> bool {
        self.wf()
    }

    fn get_move(&mut self, time_to_move_ms: u64) -> (m: Move) {
        self.random_move()
    }

    fn update_round(&mut self, round: u8) {
        self.round = round;
    }

    fn update_board(&mut self, text: &[u8]) -> (ok: bool) {
        match Board::rebuild(text) {
            Ok(b) => {
                self.board = Some(b);
                true
            },
            Err(_) => false,
        }
    }

    fn set_setting(&mut self, setting: Setting) {
        match setting {
            Setting::BotId(id) => {
                if id < 2 {
                    self.id = id;
                }
            },
            _ => {},
        }
    }
}

} // verus!
