//! Territory evaluator: a zero-sum positional score from both players'
//! flood-fill distances, a "players can still meet" flag, and the
//! single-agent area score used once the players are separated.
//!
//! Scores are integers in tenths of a point: a plain cell weighs 10, a
//! junction cell (more than two open neighbors) or a contested cell (one
//! the other flood never reaches) weighs one tenth more each.

use vstd::prelude::*;

use crate::board::{adj_count_rc, idx, Board, Cell, GameState};
use crate::board_distance::{bfs_distances, lemma_idx_divmod, spec_dists};

verus! {

/// Weight of a cell, in tenths: 1.0, plus 0.1 near a junction, plus 0.1
/// when either player's flood is blocked from it.
pub open spec fn cell_weight(g: Seq<Cell>, d0: Seq<u8>, d1: Seq<u8>, i: int) -> int {
    10 + (if adj_count_rc(g, i / 16, i % 16) > 2 {
        1int
    } else {
        0
    }) + (if d0[i] == 255 || d1[i] == 255 {
        1int
    } else {
        0
    })
}

/// Signed contribution of a cell to a player's score: its weight where the
/// player's flood arrives strictly first, the negated weight where it
/// arrives strictly last, nothing on a tie.
pub open spec fn cell_score(g: Seq<Cell>, d0: Seq<u8>, d1: Seq<u8>, player: int, i: int) -> int {
    let dm = if player == 0 {
        d0[i]
    } else {
        d1[i]
    };
    let de = if player == 0 {
        d1[i]
    } else {
        d0[i]
    };
    if dm < de {
        cell_weight(g, d0, d1, i)
    } else if dm > de {
        -cell_weight(g, d0, d1, i)
    } else {
        0
    }
}

/// Sum of the signed contributions of the first `n` cells.
pub open spec fn territory_sum(
    g: Seq<Cell>,
    d0: Seq<u8>,
    d1: Seq<u8>,
    player: int,
    n: int,
) -> int
    decreases n,
{
    if n <= 0 {
        0
    } else {
        territory_sum(g, d0, d1, player, n - 1) + cell_score(g, d0, d1, player, n - 1)
    }
}

/// The territory score of a player: the signed weights summed over the
/// whole grid, from that player's perspective.
pub open spec fn spec_territory(s: GameState, player: int) -> int {
    territory_sum(
        s.grid,
        spec_dists(s.grid, idx(s.pos0.0, s.pos0.1)),
        spec_dists(s.grid, idx(s.pos1.0, s.pos1.1)),
        player,
        256,
    )
}

/// Whether some cell is reachable by both players' floods.
pub open spec fn meet_cell(d0: Seq<u8>, d1: Seq<u8>, i: int) -> bool {
    d0[i] != 255 && d1[i] != 255
}

/// Whether the players can still meet: some cell is reachable by both.
pub open spec fn spec_can_meet(s: GameState) -> bool {
    exists|i: int|
        0 <= i < 256 && #[trigger] meet_cell(
            spec_dists(s.grid, idx(s.pos0.0, s.pos0.1)),
            spec_dists(s.grid, idx(s.pos1.0, s.pos1.1)),
            i,
        )
}

/// Mobility weight of a reached cell in the single-agent count, in tenths.
pub open spec fn area_cell(g: Seq<Cell>, d: Seq<u8>, i: int) -> int {
    if d[i] != 255 {
        10 * (adj_count_rc(g, i / 16, i % 16) / 2 + 1)
    } else {
        0
    }
}

/// Sum of the mobility weights of the first `n` cells.
pub open spec fn area_sum(g: Seq<Cell>, d: Seq<u8>, n: int) -> int
    decreases n,
{
    if n <= 0 {
        0
    } else {
        area_sum(g, d, n - 1) + area_cell(g, d, n - 1)
    }
}

/// Single-agent area score of a player: mobility weights summed over the
/// cells its own flood reaches.
pub open spec fn spec_area(s: GameState, player: int) -> int {
    area_sum(
        s.grid,
        spec_dists(s.grid, idx(s.pos(player).0, s.pos(player).1)),
        256,
    )
}

/// Static evaluation of a board for a player: the territory score while
/// the players can meet, the single-agent area score in endgame mode.
pub open spec fn spec_eval(s: GameState, player: int, endgame: bool) -> int {
    if endgame {
        spec_area(s, player)
    } else {
        spec_territory(s, player)
    }
}

/// A territory sum over `n` cells lies in `[-12n, 12n]`.
pub proof fn lemma_territory_sum_bound(g: Seq<Cell>, d0: Seq<u8>, d1: Seq<u8>, player: int, n: int)
    requires
        n >= 0,
    ensures
        -12 * n <= territory_sum(g, d0, d1, player, n) <= 12 * n,
    decreases n,
{
    if n > 0 {
        lemma_territory_sum_bound(g, d0, d1, player, n - 1);
    }
}

/// An area sum over `n` cells lies in `[0, 30n]`.
pub proof fn lemma_area_sum_bound(g: Seq<Cell>, d: Seq<u8>, n: int)
    requires
        n >= 0,
    ensures
        0 <= area_sum(g, d, n) <= 30 * n,
    decreases n,
{
    if n > 0 {
        lemma_area_sum_bound(g, d, n - 1);
    }
}

/// A static evaluation lies in `[-3072, 7680]`: a territory score is at
/// most 12 tenths per cell in magnitude, an area score at most 30 tenths
/// per cell and never negative.
pub proof fn lemma_eval_bounds(s: GameState, player: int, endgame: bool)
    ensures
        -3072 <= spec_eval(s, player, endgame) <= 7680,
{
    if endgame {
        lemma_area_sum_bound(
            s.grid,
            spec_dists(s.grid, idx(s.pos(player).0, s.pos(player).1)),
            256,
        );
    } else {
        lemma_territory_sum_bound(
            s.grid,
            spec_dists(s.grid, idx(s.pos0.0, s.pos0.1)),
            spec_dists(s.grid, idx(s.pos1.0, s.pos1.1)),
            player,
            256,
        );
    }
}

/// The two players' territory sums are exact negations of each other.
pub proof fn lemma_territory_sum_antisymmetric(
    g: Seq<Cell>,
    d0: Seq<u8>,
    d1: Seq<u8>,
    n: int,
)
    requires
        n >= 0,
    ensures
        territory_sum(g, d0, d1, 0, n) == -territory_sum(g, d0, d1, 1, n),
    decreases n,
{
    if n > 0 {
        lemma_territory_sum_antisymmetric(g, d0, d1, n - 1);
    }
}

/// Territory antisymmetry: on any well-formed board where the players can
/// still meet, player 0's territory score is the exact negation of
/// player 1's.
pub proof fn lemma_territory_antisymmetric(s: GameState)
    requires
        s.wf(),
        spec_can_meet(s),
    ensures
        spec_territory(s, 0) == -spec_territory(s, 1),
{
    lemma_territory_sum_antisymmetric(
        s.grid,
        spec_dists(s.grid, idx(s.pos0.0, s.pos0.1)),
        spec_dists(s.grid, idx(s.pos1.0, s.pos1.1)),
        256,
    );
}

impl Board {
    /// The territory score of a player and whether the players can still
    /// meet, from a simultaneous flood fill of both players.
    pub fn get_territory(&self, player_id: u8) -> (r: (i64, bool))
        requires
            self.wf(),
            player_id < 2,
        ensures
            r.0 as int == spec_territory(self@, player_id as int),
            r.1 == spec_can_meet(self@),
    {
        let d0 = bfs_distances(&self.grid, self.pos0.0, self.pos0.1);
        let d1 = bfs_distances(&self.grid, self.pos1.0, self.pos1.1);
        let ghost player = player_id as int;
        let mut score: i64 = 0;
        let mut can_meet = false;
        let mut r: u8 = 0;
        while r < 16
            invariant
                self.wf(),
                player == player_id as int,
                d0@ == spec_dists(self@.grid, idx(self@.pos0.0, self@.pos0.1)),
                d1@ == spec_dists(self@.grid, idx(self@.pos1.0, self@.pos1.1)),
                d0@.len() == 256,
                d1@.len() == 256,
                r <= 16,
                score as int == territory_sum(self@.grid, d0@, d1@, player, r as int * 16),
                -12 * (r as int * 16) <= score as int <= 12 * (r as int * 16),
                can_meet == exists|j: int|
                    0 <= j < r as int * 16 && #[trigger] meet_cell(d0@, d1@, j),
            decreases 16 - r as int,
        {
            let mut c: u8 = 0;
            while c < 16
                invariant
                    self.wf(),
                    player == player_id as int,
                    d0@ == spec_dists(self@.grid, idx(self@.pos0.0, self@.pos0.1)),
                    d1@ == spec_dists(self@.grid, idx(self@.pos1.0, self@.pos1.1)),
                    d0@.len() == 256,
                    d1@.len() == 256,
                    r < 16,
                    c <= 16,
                    score as int == territory_sum(
                        self@.grid,
                        d0@,
                        d1@,
                        player,
                        r as int * 16 + c as int,
                    ),
                    -12 * (r as int * 16 + c as int) <= score as int <= 12 * (r as int * 16
                        + c as int),
                    can_meet == exists|j: int|
                        0 <= j < r as int * 16 + c as int && #[trigger] meet_cell(d0@, d1@, j),
                decreases 16 - c as int,
            {
                let i = r as usize * 16 + c as usize;
                proof {
                    lemma_idx_divmod(r as int, c as int);
                }
                let mut w: i64 = 10;
                if self.adjacents[i] > 2 {
                    w = w + 1;
                }
                if d0[i] == 255 || d1[i] == 255 {
                    w = w + 1;
                }
                proof {
                    assert(w as int == cell_weight(self@.grid, d0@, d1@, i as int));
                }
                let dm = if player_id == 0 {
                    d0[i]
                } else {
                    d1[i]
                };
                let de = if player_id == 0 {
                    d1[i]
                } else {
                    d0[i]
                };
                if dm < de {
                    score = score + w;
                } else if dm > de {
                    score = score - w;
                }
                if d0[i] != 255 && d1[i] != 255 {
                    can_meet = true;
                    proof {
                        assert(meet_cell(d0@, d1@, i as int));
                    }
                }
                c = c + 1;
            }
            r = r + 1;
        }
        (score, can_meet)
    }

    /// The single-agent area score of a player: the sum of the mobility
    /// weights of the cells its flood reaches.
    pub fn area_score(&self, player_id: u8) -> (r: i64)
        requires
            self.wf(),
            player_id < 2,
        ensures
            r as int == spec_area(self@, player_id as int),
    {
        let seed = if player_id == 0 {
            self.pos0
        } else {
            self.pos1
        };
        let d = bfs_distances(&self.grid, seed.0, seed.1);
        let ghost player = player_id as int;
        let mut score: i64 = 0;
        let mut r: u8 = 0;
        while r < 16
            invariant
                self.wf(),
                player == player_id as int,
                d@ == spec_dists(self@.grid, idx(self@.pos(player).0, self@.pos(player).1)),
                d@.len() == 256,
                r <= 16,
                score as int == area_sum(self@.grid, d@, r as int * 16),
                0 <= score as int <= 30 * (r as int * 16),
            decreases 16 - r as int,
        {
            let mut c: u8 = 0;
            while c < 16
                invariant
                    self.wf(),
                    player == player_id as int,
                    d@ == spec_dists(self@.grid, idx(self@.pos(player).0, self@.pos(player).1)),
                    d@.len() == 256,
                    r < 16,
                    c <= 16,
                    score as int == area_sum(self@.grid, d@, r as int * 16 + c as int),
                    0 <= score as int <= 30 * (r as int * 16 + c as int),
                decreases 16 - c as int,
            {
                let i = r as usize * 16 + c as usize;
                proof {
                    lemma_idx_divmod(r as int, c as int);
                }
                if d[i] != 255 {
                    let w: i64 = 10 * (self.adjacents[i] as i64 / 2 + 1);
                    proof {
                        assert(w as int == area_cell(self@.grid, d@, i as int));
                    }
                    score = score + w;
                }
                c = c + 1;
            }
            r = r + 1;
        }
        score
    }

    /// Static evaluation of the board for a player: territory score in
    /// adversarial play, single-agent area score in endgame mode.
    pub fn get_score(&self, player_id: u8, endgame: bool) -> (r: i64)
        requires
            self.wf(),
            player_id < 2,
        ensures
            r as int == spec_eval(self@, player_id as int, endgame),
    {
        if endgame {
            self.area_score(player_id)
        } else {
            let (score, _) = self.get_territory(player_id);
            score
        }
    }
}

} // verus!
