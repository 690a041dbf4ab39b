//! The engine bot: greedy centering for the first two rounds, negamax
//! search afterwards, and a reactive depth controller that sizes the next
//! turn's search from the last turn's wall-clock cost.
//!
//! The controller is post-hoc: it bounds future turns, never the current
//! one. Measuring the wall clock is the caller's business; the elapsed
//! milliseconds are handed in to `record_search_time`.

use vstd::prelude::*;

use crate::board::{legal_seq, move_legal, step_rc, Board, GameState};
use crate::bot::Bot;
use crate::search::spec_best_move;
use crate::territory::spec_can_meet;
use crate::types::{Move, Setting};

verus! {

/// Manhattan distance from a coordinate to the board center `(8, 8)`.
pub open spec fn center_dist(r: int, c: int) -> int {
    (if r >= 8 {
        r - 8
    } else {
        8 - r
    }) + (if c >= 8 {
        c - 8
    } else {
        8 - c
    })
}

/// Distance to the center after playing a move.
pub open spec fn move_center_dist(s: GameState, player: int, m: Move) -> int {
    let t = step_rc(s.pos(player).0, s.pos(player).1, m, false);
    center_dist(t.0, t.1)
}

/// Index of the first legal move among the first `n` whose target is
/// nearest the center; -1 when there is none.
pub open spec fn opening_index(s: GameState, player: int, n: int) -> int
    decreases n,
{
    if n <= 0 {
        -1
    } else {
        let prev = opening_index(s, player, n - 1);
        if prev == -1 {
            n - 1
        } else if move_center_dist(s, player, legal_seq(s, player)[n - 1]) < move_center_dist(
            s,
            player,
            legal_seq(s, player)[prev],
        ) {
            n - 1
        } else {
            prev
        }
    }
}

/// The opening move: the first legal move whose target is nearest the
/// center, or `Pass` when the player cannot move.
pub open spec fn opening_choice(s: GameState, player: int) -> Move {
    let legal = legal_seq(s, player);
    if legal.len() == 0 {
        Move::Pass
    } else {
        legal[opening_index(s, player, legal.len() as int)]
    }
}

/// The opening choice is optimal: among the legal moves it is first to
/// reach the least center distance, so no legal move comes strictly
/// closer to the center.
pub proof fn lemma_opening_choice_minimal(s: GameState, player: int, n: int)
    requires
        1 <= n,
    ensures
        0 <= opening_index(s, player, n) < n,
        forall|j: int|
            0 <= j < n ==> move_center_dist(
                s,
                player,
                legal_seq(s, player)[opening_index(s, player, n)],
            ) <= move_center_dist(s, player, #[trigger] legal_seq(s, player)[j]),
    decreases n,
{
    if n > 1 {
        lemma_opening_choice_minimal(s, player, n - 1);
    } else {
        assert(opening_index(s, player, 0) == -1);
    }
}

/// The depth the controller picks for the next search: one deeper after a
/// fast turn with a comfortable timebank, shallower otherwise while above
/// the minimum — by four (saturating at zero) after a severe overrun, by
/// one after a mild one.
pub open spec fn spec_next_depth(cur: u8, min_d: u8, max_d: u8, elapsed_ms: u64, timebank_ms: u64) -> u8 {
    if elapsed_ms < 300 && timebank_ms > 6000 {
        if cur < max_d {
            (cur + 1) as u8
        } else {
            cur
        }
    } else {
        if cur > min_d {
            if elapsed_ms > 1000 {
                if cur >= 4 {
                    (cur - 4) as u8
                } else {
                    0u8
                }
            } else {
                (cur - 1) as u8
            }
        } else {
            cur
        }
    }
}

/// The move the engine plays in a round: greedy centering before the third
/// round, the search's best move afterwards, `Pass` when it cannot move.
pub open spec fn spec_engine_move(s: GameState, player: int, round: int, depth: nat) -> Move {
    if round < 3 {
        opening_choice(s, player)
    } else {
        let endgame = !spec_can_meet(s);
        if legal_seq(s, player).len() == 0 || depth == 0 {
            Move::Pass
        } else {
            spec_best_move(s, player, depth, depth, endgame)
        }
    }
}

/// The engine bot.
pub struct RichardBot {
    pub board: Board,
    pub id: u8,
    pub round: u8,
    pub min_depth: u8,
    pub current_depth: u8,
    pub max_depth: u8,
    pub timebank_ms: u64,
}

impl RichardBot {
    /// Internal consistency: a well-formed board and a player identity.
    pub open spec fn wf(self) -> bool {
        &&& self.board.wf()
        &&& self.id < 2
    }

    /// A fresh engine: default board, depth window 5..=20 starting at 8.
    pub fn new() -> (r: RichardBot)
        ensures
            r.wf(),
            r.id == 0,
            r.round == 0,
            r.min_depth == 5,
            r.current_depth == 8,
            r.max_depth == 20,
            r.timebank_ms == 0,
    {
        RichardBot {
            board: Board::new(),
            id: 0,
            round: 0,
            min_depth: 5,
            current_depth: 8,
            max_depth: 20,
            timebank_ms: 0,
        }
    }

    /// The greedy opening move: the first legal move whose target is
    /// nearest the board center, `Pass` when walled in.
    #[verifier::rlimit(60)]
    pub fn make_move_to_middle(&mut self) -> (r: Move)
        requires
            old(self).wf(),
        ensures
            *final(self) == *old(self),
            r == opening_choice(old(self).board@, old(self).id as int),
    {
        let ghost s = self.board@;
        let ghost pl = self.id as int;
        let legal_moves = self.board.legal_moves(self.id);
        if legal_moves.len() == 0 {
            return Move::Pass;
        }
        let ghost moves = legal_moves@;
        let mut best: Move = legal_moves[0];
        let first = self.board.move_to_position(best, self.id, false);
        let mut best_dist: u8 = dist_to_center(first.0, first.1);
        proof {
            assert(opening_index(s, pl, 0) == -1);
            assert(opening_index(s, pl, 1) == 0);
        }
        let mut i: usize = 1;
        while i < legal_moves.len()
            invariant
                self.wf(),
                s == self.board@,
                pl == self.id as int,
                moves == legal_seq(s, pl),
                legal_moves@ == moves,
                0 < moves.len(),
                1 <= i <= moves.len(),
                0 <= opening_index(s, pl, i as int) < i as int,
                best == moves[opening_index(s, pl, i as int)],
                best_dist as int == move_center_dist(s, pl, best),
            decreases moves.len() - i as int,
        {
            proof {
                crate::board::lemma_legal_seq_elements(s.grid, s.pos(pl).0, s.pos(pl).1);
                assert(move_legal(s, pl, moves[i as int]));
            }
            let m = legal_moves[i];
            let t = self.board.move_to_position(m, self.id, false);
            let d = dist_to_center(t.0, t.1);
            if d < best_dist {
                best = m;
                best_dist = d;
            }
            i = i + 1;
            proof {
                let j = i as int;
                assert(opening_index(s, pl, j) == {
                    let prev = opening_index(s, pl, j - 1);
                    if prev == -1 {
                        j - 1
                    } else if move_center_dist(s, pl, moves[j - 1]) < move_center_dist(
                        s,
                        pl,
                        moves[prev],
                    ) {
                        j - 1
                    } else {
                        prev
                    }
                });
            }
        }
        best
    }

    /// Feed the controller the wall-clock cost of the last search; it sets
    /// the depth of the next one.
    pub fn record_search_time(&mut self, elapsed_ms: u64)
        ensures
            *final(self) == (RichardBot {
                current_depth: spec_next_depth(
                    old(self).current_depth,
                    old(self).min_depth,
                    old(self).max_depth,
                    elapsed_ms,
                    old(self).timebank_ms,
                ),
                ..*old(self)
            }),
    {
        if elapsed_ms < 300 && self.timebank_ms > 6000 {
            if self.current_depth < self.max_depth {
                self.current_depth = self.current_depth + 1;
            }
        } else {
            if self.current_depth > self.min_depth {
                if elapsed_ms > 1000 {
                    if self.current_depth >= 4 {
                        self.current_depth = self.current_depth - 4;
                    } else {
                        self.current_depth = 0;
                    }
                } else {
                    self.current_depth = self.current_depth - 1;
                }
            }
        }
    }

    /// Play one round: bank the budget, advance the round counter, and
    /// choose the move — greedy centering in the first two rounds, negamax
    /// search at the current depth afterwards, `Pass` when walled in.
    pub fn choose_move(&mut self, time_to_move_ms: u64) -> (r: Move)
        requires
            old(self).wf(),
        ensures
            final(self).wf(),
            final(self).id == old(self).id,
            final(self).round == (if old(self).round == 255 {
                255u8
            } else {
                (old(self).round + 1) as u8
            }),
            final(self).timebank_ms == time_to_move_ms,
            final(self).current_depth == old(self).current_depth,
            final(self).min_depth == old(self).min_depth,
            final(self).max_depth == old(self).max_depth,
            final(self).board@ == old(self).board@,
            r == spec_engine_move(
                old(self).board@,
                old(self).id as int,
                final(self).round as int,
                old(self).current_depth as nat,
            ),
    {
        self.timebank_ms = time_to_move_ms;
        if self.round < 255 {
            self.round = self.round + 1;
        }
        if self.round < 3 {
            self.make_move_to_middle()
        } else {
            self.board.reset_score_options();
            self.board.set_best_turn(Move::Pass);
            let (_territory, can_meet) = self.board.get_territory(self.id);
            self.board.set_desired_depth(self.current_depth);
            let _value = self.board.mini_max(self.id, self.current_depth, !can_meet);
            self.board.get_best_turn()
        }
    }
}

impl Bot for RichardBot {
    open spec fn inv(&self) -> bool {
        self.wf()
    }

    fn get_move(&mut self, time_to_move_ms: u64) -> (m: Move) {
        self.choose_move(time_to_move_ms)
    }

    fn update_round(&mut self, round: u8) {
        self.round = round;
    }

    fn update_board(&mut self, text: &[u8]) -> (ok: bool) {
        self.board.update(text)
    }

    fn set_setting(&mut self, setting: Setting) {
        match setting {
            Setting::BotId(id) => {
                if id < 2 {
                    self.id = id;
                }
            },
            _ => {},
        }
    }
}

/// Manhattan distance from a coordinate to the board center `(8, 8)`.
pub fn dist_to_center(r: u8, c: u8) -> (d: u8)
    requires
        r < 16,
        c < 16,
    ensures
        d as int == center_dist(r as int, c as int),
{
    let dr = if r >= 8 {
        r - 8
    } else {
        8 - r
    };
    let dc = if c >= 8 {
        c - 8
    } else {
        8 - c
    };
    dr + dc
}

} // verus!
