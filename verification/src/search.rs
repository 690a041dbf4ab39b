//! Adversarial search: negamax over the move executor with the territory
//! evaluator as leaf heuristic.
//!
//! `mini_max` walks the full game tree by in-place mutation with explicit
//! undo, so every recursive call pairs its forward move with a reverse
//! move. Its value is pinned to the recursive specification
//! `negamax_spec`. In adversarial mode each ply hands the turn to the
//! other player and negates the child value; in endgame mode (players
//! separated) the same player keeps moving and values are maximized
//! without negation.

use vstd::prelude::*;

use crate::board::{
    apply_state, lemma_apply_round_trip, lemma_apply_wf, lemma_legal_seq_elements, legal_seq,
    marker, move_legal, Board, Cell, GameState,
};
use crate::territory::{lemma_eval_bounds, spec_eval};
use crate::types::{CacheKeying, Move};

verus! {

/// The sentinel below every reachable search value.
pub open spec fn neg_inf() -> int {
    -100000
}

/// The penalty a player with no legal move incurs, in tenths.
pub open spec fn loss_penalty() -> int {
    10000
}

/// Whose turn follows: the opponent's in adversarial mode, the same
/// player's once the board halves are independent.
pub open spec fn next_player(player: int, endgame: bool) -> int {
    if endgame {
        player
    } else {
        1 - player
    }
}

/// The negamax value of a position for the player to move.
///
/// At a terminal node (depth exhausted or no legal move) the value is the
/// static evaluation, less the loss penalty when the player cannot move,
/// plus a depth-normalization term that prefers values reached sooner.
/// At an internal node it is the maximum over the legal moves of the
/// (negated, in adversarial mode) value of the child position.
pub open spec fn negamax_spec(
    s: GameState,
    player: int,
    depth: nat,
    desired: nat,
    endgame: bool,
) -> int
    decreases depth, 1nat, 0nat,
{
    let legal = legal_seq(s, player);
    if depth == 0 || legal.len() == 0 {
        spec_eval(s, player, endgame) - (if legal.len() == 0 {
            loss_penalty()
        } else {
            0int
        }) + 10 * (desired - depth)
    } else {
        prefix_best(s, player, depth, desired, endgame, legal.len() as int)
    }
}

/// The maximum of the sentinel and the values of the first `n` legal
/// moves.
pub open spec fn prefix_best(
    s: GameState,
    player: int,
    depth: nat,
    desired: nat,
    endgame: bool,
    n: int,
) -> int
    decreases depth, 0nat, n,
{
    if n <= 0 || depth == 0 {
        neg_inf()
    } else {
        let prev = prefix_best(s, player, depth, desired, endgame, n - 1);
        let m = legal_seq(s, player)[n - 1];
        let s2 = apply_state(s, m, player, false);
        let v = if endgame {
            negamax_spec(s2, player, (depth - 1) as nat, desired, endgame)
        } else {
            -negamax_spec(s2, 1 - player, (depth - 1) as nat, desired, endgame)
        };
        if v > prev {
            v
        } else {
            prev
        }
    }
}

/// The value a move hands back to its parent node.
pub open spec fn child_value(
    s: GameState,
    m: Move,
    player: int,
    depth: nat,
    desired: nat,
    endgame: bool,
) -> int
    recommends
        depth >= 1,
{
    let s2 = apply_state(s, m, player, false);
    if endgame {
        negamax_spec(s2, player, (depth - 1) as nat, desired, endgame)
    } else {
        -negamax_spec(s2, 1 - player, (depth - 1) as nat, desired, endgame)
    }
}

/// Index of the first legal move attaining the running maximum over the
/// first `n` moves; -1 while no move beat the sentinel.
pub open spec fn best_index(
    s: GameState,
    player: int,
    depth: nat,
    desired: nat,
    endgame: bool,
    n: int,
) -> int
    decreases n,
{
    if n <= 0 {
        -1
    } else if child_value(s, legal_seq(s, player)[n - 1], player, depth, desired, endgame)
        > prefix_best(s, player, depth, desired, endgame, n - 1) {
        n - 1
    } else {
        best_index(s, player, depth, desired, endgame, n - 1)
    }
}

/// The move the search records as best at the root.
pub open spec fn spec_best_move(
    s: GameState,
    player: int,
    depth: nat,
    desired: nat,
    endgame: bool,
) -> Move {
    let legal = legal_seq(s, player);
    legal[best_index(s, player, depth, desired, endgame, legal.len() as int)]
}

/// The diagnostic `(move, value)` pairs of the first `n` legal moves, in
/// enumeration order.
pub open spec fn root_scores_prefix(
    s: GameState,
    player: int,
    depth: nat,
    desired: nat,
    endgame: bool,
    n: int,
) -> Seq<(Move, i64)>
    decreases n,
{
    if n <= 0 {
        Seq::<(Move, i64)>::empty()
    } else {
        root_scores_prefix(s, player, depth, desired, endgame, n - 1).push(
            (
                legal_seq(s, player)[n - 1],
                child_value(s, legal_seq(s, player)[n - 1], player, depth, desired, endgame) as i64,
            ),
        )
    }
}

/// The key a position is cached under: the raw grid, extended with the
/// side to move when the keying says so.
pub open spec fn spec_cache_key(s: GameState, player: int, keying: CacheKeying) -> Seq<Cell> {
    if keying == CacheKeying::GridAndPlayer {
        s.grid.push(marker(player))
    } else {
        s.grid
    }
}

/// A sound cache entry: the key names a position and a side to move
/// whose search value, at some remaining depth, is the stored score. The
/// key pins neither the depth nor (in grid-only keying) the side, so this
/// is all a reader of the cache may assume of an entry.
pub open spec fn cached_entry_sound(
    k: Seq<Cell>,
    v: int,
    desired: nat,
    endgame: bool,
    keying: CacheKeying,
) -> bool {
    exists|s2: GameState, p2: int, d2: nat|
        s2.wf() && 0 <= p2 < 2 && d2 <= desired && k == spec_cache_key(s2, p2, keying) && v
            == negamax_spec(s2, p2, d2, desired, endgame)
}

/// Every search value lies in `[-25000, 25000]`: an evaluation is at most
/// 7680 tenths in magnitude, the loss penalty 10000, and the depth term at
/// most 2550.
pub proof fn lemma_negamax_bounds(
    s: GameState,
    player: int,
    depth: nat,
    desired: nat,
    endgame: bool,
)
    requires
        s.wf(),
        0 <= player < 2,
        depth <= desired,
        desired <= 255,
    ensures
        -25000 <= negamax_spec(s, player, depth, desired, endgame) <= 25000,
    decreases depth, 1nat, 0nat,
{
    let legal = legal_seq(s, player);
    if depth == 0 || legal.len() == 0 {
        lemma_eval_bounds(s, player, endgame);
    } else {
        lemma_prefix_bounds(s, player, depth, desired, endgame, legal.len() as int);
    }
}

/// A running maximum over at least one legal move lies in
/// `[-25000, 25000]`.
pub proof fn lemma_prefix_bounds(
    s: GameState,
    player: int,
    depth: nat,
    desired: nat,
    endgame: bool,
    n: int,
)
    requires
        s.wf(),
        0 <= player < 2,
        1 <= depth <= desired,
        desired <= 255,
        1 <= n <= legal_seq(s, player).len(),
    ensures
        -25000 <= prefix_best(s, player, depth, desired, endgame, n) <= 25000,
        -25000 <= child_value(s, legal_seq(s, player)[n - 1], player, depth, desired, endgame)
            <= 25000,
    decreases depth, 0nat, n,
{
    let legal = legal_seq(s, player);
    let m = legal[n - 1];
    lemma_legal_seq_elements(s.grid, s.pos(player).0, s.pos(player).1);
    assert(move_legal(s, player, m));
    lemma_apply_wf(s, m, player, false);
    let s2 = apply_state(s, m, player, false);
    lemma_negamax_bounds(s2, next_player(player, endgame), (depth - 1) as nat, desired, endgame);
    let prev = prefix_best(s, player, depth, desired, endgame, n - 1);
    let v = child_value(s, m, player, depth, desired, endgame);
    assert(prefix_best(s, player, depth, desired, endgame, n) == if v > prev {
        v
    } else {
        prev
    });
    if n > 1 {
        lemma_prefix_bounds(s, player, depth, desired, endgame, n - 1);
    } else {
        assert(prev == neg_inf());
    }
}

/// Once one legal move was scored, the best-move index names a real move.
pub proof fn lemma_best_index_nonneg(
    s: GameState,
    player: int,
    depth: nat,
    desired: nat,
    endgame: bool,
    n: int,
)
    requires
        s.wf(),
        0 <= player < 2,
        1 <= depth <= desired,
        desired <= 255,
        1 <= n <= legal_seq(s, player).len(),
    ensures
        0 <= best_index(s, player, depth, desired, endgame, n) < n,
    decreases n,
{
    lemma_prefix_bounds(s, player, depth, desired, endgame, n);
    if n == 1 {
        assert(prefix_best(s, player, depth, desired, endgame, 0) == neg_inf());
    } else {
        lemma_best_index_nonneg(s, player, depth, desired, endgame, n - 1);
    }
}

impl Board {
    /// The transposition key of the current position for the player to
    /// move, per the board's keying configuration.
    pub fn cache_key(&self, player_id: u8) -> (k: Vec<Cell>)
        requires
            self.wf(),
            player_id < 2,
        ensures
            k@ == spec_cache_key(self@, player_id as int, self.keying),
    {
        let mut k: Vec<Cell> = Vec::new();
        let mut i: usize = 0;
        while i < 256
            invariant
                self@.grid.len() == 256,
                i <= 256,
                k@ == self@.grid.subrange(0, i as int),
            decreases 256 - i as int,
        {
            k.push(self.grid[i]);
            i = i + 1;
        }
        proof {
            assert(k@ =~= self@.grid);
        }
        if self.keying == CacheKeying::GridAndPlayer {
            if player_id == 0 {
                k.push(Cell::Player0);
            } else {
                k.push(Cell::Player1);
            }
        }
        k
    }

    /// The cached score of the current position for the player to move, if
    /// a bit-identical key was stored.
    pub fn probe_position(&self, player_id: u8) -> (r: Option<i64>)
        requires
            self.wf(),
            player_id < 2,
        ensures
            r == {
                let key = spec_cache_key(self@, player_id as int, self.keying);
                if self.transposition_table@.contains_key(key) {
                    Some(self.transposition_table@[key])
                } else {
                    None::<i64>
                }
            },
    {
        let key = self.cache_key(player_id);
        self.transposition_table.lookup(&key)
    }

    /// Negamax without pruning: the exact search value of the position for
    /// the player to move, walking every branch.
    ///
    /// At the root ply (`depth` equal to the desired depth) the search
    /// records the first move attaining the maximum as the best turn and
    /// appends every `(move, value)` pair to the diagnostic score list;
    /// deeper plies leave the diagnostics alone. Every node stores its
    /// value in the transposition table under the key of its own position,
    /// so each entry the call adds is sound in the sense of
    /// `cached_entry_sound`; the entry of this call's own position is the
    /// returned value. The board itself is returned to its exact prior
    /// state.
    #[verifier::rlimit(100)]
    pub fn mini_max(&mut self, player_id: u8, depth: u8, endgame: bool) -> (r: i64)
        requires
            old(self).wf(),
            player_id < 2,
            depth <= old(self).desired_depth,
        ensures
            final(self).wf(),
            final(self)@ == old(self)@,
            final(self).desired_depth == old(self).desired_depth,
            final(self).keying == old(self).keying,
            r as int == negamax_spec(
                old(self)@,
                player_id as int,
                depth as nat,
                old(self).desired_depth as nat,
                endgame,
            ),
            -100000 <= r <= 25000,
            (depth == old(self).desired_depth && depth > 0 && legal_seq(
                old(self)@,
                player_id as int,
            ).len() > 0) ==> {
                let s0 = old(self)@;
                let pl = player_id as int;
                let dep = depth as nat;
                let des = old(self).desired_depth as nat;
                let len = legal_seq(s0, pl).len() as int;
                &&& final(self).best_turn == spec_best_move(s0, pl, dep, des, endgame)
                &&& final(self).score_options@ == old(self).score_options@ + root_scores_prefix(
                    s0,
                    pl,
                    dep,
                    des,
                    endgame,
                    len,
                )
            },
            !(depth == old(self).desired_depth && depth > 0 && legal_seq(
                old(self)@,
                player_id as int,
            ).len() > 0) ==> {
                &&& final(self).best_turn == old(self).best_turn
                &&& final(self).score_options@ == old(self).score_options@
            },
            final(self).transposition_table@[spec_cache_key(
                old(self)@,
                player_id as int,
                old(self).keying,
            )] == r,
            final(self).transposition_table@.contains_key(
                spec_cache_key(old(self)@, player_id as int, old(self).keying),
            ),
            forall|k: Seq<Cell>|
                final(self).transposition_table@.contains_key(k) ==> ((old(
                    self,
                ).transposition_table@.contains_key(k) && final(self).transposition_table@[k]
                    == old(self).transposition_table@[k]) || cached_entry_sound(
                    k,
                    final(self).transposition_table@[k] as int,
                    old(self).desired_depth as nat,
                    endgame,
                    old(self).keying,
                )),
        decreases depth,
    {
        let ghost s0 = old(self)@;
        let ghost pl = player_id as int;
        let ghost des = old(self).desired_depth as nat;
        let legal_moves = self.legal_moves(player_id);
        if depth == 0 || legal_moves.len() == 0 {
            proof {
                lemma_eval_bounds(s0, pl, endgame);
            }
            let mut score = self.get_score(player_id, endgame);
            if legal_moves.len() == 0 {
                score = score - 10000;
            }
            let return_score = score + 10 * ((self.desired_depth - depth) as i64);
            let key = self.cache_key(player_id);
            self.transposition_table.insert(key, return_score);
            proof {
                assert(cached_entry_sound(
                    spec_cache_key(s0, pl, self.keying),
                    return_score as int,
                    self.desired_depth as nat,
                    endgame,
                    self.keying,
                )) by {
                    assert(s0.wf() && 0 <= pl < 2 && depth as nat <= self.desired_depth as nat
                        && spec_cache_key(s0, pl, self.keying) == spec_cache_key(
                        s0,
                        pl,
                        self.keying,
                    ) && return_score as int == negamax_spec(
                        s0,
                        pl,
                        depth as nat,
                        self.desired_depth as nat,
                        endgame,
                    ));
                }
            }
            return return_score;
        }
        let ghost dep = depth as nat;
        let ghost moves = legal_moves@;
        let ghost old_options = old(self).score_options@;
        let ghost old_best = old(self).best_turn;
        let mut max_value: i64 = -100000;
        let mut i: usize = 0;
        while i < legal_moves.len()
            invariant
                self.wf(),
                self@ == s0,
                s0.wf(),
                pl == player_id as int,
                player_id < 2,
                dep == depth as nat,
                0 < depth <= self.desired_depth,
                des == self.desired_depth as nat,
                des <= 255,
                moves == legal_seq(s0, pl),
                legal_moves@ == moves,
                0 < moves.len(),
                i <= moves.len(),
                max_value as int == prefix_best(s0, pl, dep, des, endgame, i as int),
                -100000 <= max_value <= 25000,
                self.keying == old(self).keying,
                forall|k: Seq<Cell>|
                    self.transposition_table@.contains_key(k) ==> ((old(
                        self,
                    ).transposition_table@.contains_key(k) && self.transposition_table@[k] == old(
                        self,
                    ).transposition_table@[k]) || cached_entry_sound(
                        k,
                        self.transposition_table@[k] as int,
                        des,
                        endgame,
                        self.keying,
                    )),
                depth == self.desired_depth ==> {
                    &&& (best_index(s0, pl, dep, des, endgame, i as int) == -1 ==> self.best_turn
                        == old_best)
                    &&& (best_index(s0, pl, dep, des, endgame, i as int) >= 0 ==> self.best_turn
                        == moves[best_index(s0, pl, dep, des, endgame, i as int)])
                    &&& self.score_options@ == old_options + root_scores_prefix(
                        s0,
                        pl,
                        dep,
                        des,
                        endgame,
                        i as int,
                    )
                },
                depth < self.desired_depth ==> {
                    &&& self.best_turn == old_best
                    &&& self.score_options@ == old_options
                },
                old_options == old(self).score_options@,
                old_best == old(self).best_turn,
            decreases moves.len() - i as int,
        {
            let chosen_move = legal_moves[i];
            proof {
                lemma_legal_seq_elements(s0.grid, s0.pos(pl).0, s0.pos(pl).1);
                assert(move_legal(s0, pl, chosen_move));
                lemma_apply_wf(s0, chosen_move, pl, false);
                lemma_apply_round_trip(s0, chosen_move, pl);
                lemma_prefix_bounds(s0, pl, dep, des, endgame, i as int + 1);
            }
            self.execute_move(chosen_move, player_id, false);
            let value: i64 = if endgame {
                self.mini_max(player_id, depth - 1, true)
            } else {
                let v = self.mini_max((player_id + 1) % 2, depth - 1, false);
                proof {
                    lemma_negamax_bounds(
                        apply_state(s0, chosen_move, pl, false),
                        1 - pl,
                        (dep - 1) as nat,
                        des,
                        endgame,
                    );
                }
                -v
            };
            proof {
                assert(value as int == child_value(s0, chosen_move, pl, dep, des, endgame));
            }
            self.execute_move(chosen_move, player_id, true);
            proof {
                assert(self@ == s0);
            }
            if value > max_value {
                max_value = value;
                if depth == self.desired_depth {
                    self.best_turn = chosen_move;
                }
            }
            if depth == self.desired_depth {
                self.score_options.push((chosen_move, value));
            }
            i = i + 1;
            proof {
                assert(prefix_best(s0, pl, dep, des, endgame, i as int) == if child_value(
                    s0,
                    moves[i as int - 1],
                    pl,
                    dep,
                    des,
                    endgame,
                ) > prefix_best(s0, pl, dep, des, endgame, i as int - 1) {
                    child_value(s0, moves[i as int - 1], pl, dep, des, endgame)
                } else {
                    prefix_best(s0, pl, dep, des, endgame, i as int - 1)
                });
            }
        }
        proof {
            if depth == self.desired_depth {
                lemma_best_index_nonneg(s0, pl, dep, des, endgame, moves.len() as int);
            }
        }
        let key = self.cache_key(player_id);
        self.transposition_table.insert(key, max_value);
        proof {
            assert(cached_entry_sound(
                spec_cache_key(s0, pl, self.keying),
                max_value as int,
                des,
                endgame,
                self.keying,
            )) by {
                assert(s0.wf() && 0 <= pl < 2 && dep <= des && spec_cache_key(s0, pl, self.keying)
                    == spec_cache_key(s0, pl, self.keying) && max_value as int == negamax_spec(
                    s0,
                    pl,
                    dep,
                    des,
                    endgame,
                ));
            }
        }
        max_value
    }
}

} // verus!

verus! {

/// Unfolding step of the running maximum.
pub proof fn lemma_prefix_step(
    s: GameState,
    player: int,
    depth: nat,
    desired: nat,
    endgame: bool,
    n: int,
)
    requires
        depth >= 1,
        n >= 1,
    ensures
        prefix_best(s, player, depth, desired, endgame, n) == {
            let prev = prefix_best(s, player, depth, desired, endgame, n - 1);
            let v = child_value(s, legal_seq(s, player)[n - 1], player, depth, desired, endgame);
            if v > prev {
                v
            } else {
                prev
            }
        },
{
}

/// The running maximum never falls as more moves are scored.
pub proof fn lemma_prefix_ge(
    s: GameState,
    player: int,
    depth: nat,
    desired: nat,
    endgame: bool,
    j: int,
    n: int,
)
    requires
        depth >= 1,
        0 <= j <= n,
    ensures
        prefix_best(s, player, depth, desired, endgame, n) >= prefix_best(
            s,
            player,
            depth,
            desired,
            endgame,
            j,
        ),
    decreases n,
{
    if n > j {
        lemma_prefix_ge(s, player, depth, desired, endgame, j, n - 1);
        lemma_prefix_step(s, player, depth, desired, endgame, n);
    }
}

impl Board {
    /// Negamax with alpha-beta pruning, fail-soft: branches provably worse
    /// than an already-found alternative are cut.
    ///
    /// The returned value relates to the plain negamax value `v` of the
    /// position as the window says: inside the window it equals `v`
    /// exactly; at or below `alpha` it is an upper bound on `v`; at or
    /// above `beta` a lower bound. The board and the whole search session
    /// are returned unchanged.
    #[verifier::rlimit(100)]
    pub fn alpha_beta(&mut self, player_id: u8, depth: u8, alpha: i64, beta: i64, endgame: bool) -> (r: i64)
        requires
            old(self).wf(),
            player_id < 2,
            depth <= old(self).desired_depth,
            -100000 <= alpha,
            alpha < beta,
            beta <= 100000,
        ensures
            final(self).wf(),
            final(self)@ == old(self)@,
            final(self).session_is(*old(self)),
            -100000 <= r <= 100000,
            ({
                let v = negamax_spec(
                    old(self)@,
                    player_id as int,
                    depth as nat,
                    old(self).desired_depth as nat,
                    endgame,
                );
                &&& (r <= alpha ==> v <= r)
                &&& (r >= beta ==> v >= r)
                &&& (alpha < r < beta ==> r == v)
            }),
        decreases depth,
    {
        let ghost s0 = old(self)@;
        let ghost pl = player_id as int;
        let ghost des = old(self).desired_depth as nat;
        let legal_moves = self.legal_moves(player_id);
        if depth == 0 || legal_moves.len() == 0 {
            proof {
                lemma_eval_bounds(s0, pl, endgame);
            }
            let mut score = self.get_score(player_id, endgame);
            if legal_moves.len() == 0 {
                score = score - 10000;
            }
            let return_score = score + 10 * ((self.desired_depth - depth) as i64);
            return return_score;
        }
        let ghost dep = depth as nat;
        let ghost moves = legal_moves@;
        let mut best: i64 = -100000;
        let mut a: i64 = alpha;
        let mut i: usize = 0;
        while i < legal_moves.len()
            invariant
                self.wf(),
                old(self).wf(),
                self@ == s0,
                s0 == old(self)@,
                s0.wf(),
                self.session_is(*old(self)),
                pl == player_id as int,
                player_id < 2,
                dep == depth as nat,
                0 < depth <= self.desired_depth,
                des == self.desired_depth as nat,
                des == old(self).desired_depth as nat,
                des <= 255,
                moves == legal_seq(s0, pl),
                legal_moves@ == moves,
                0 < moves.len(),
                i <= moves.len(),
                -100000 <= alpha,
                alpha < beta,
                beta <= 100000,
                -100000 <= best <= 100000,
                a == if best > alpha {
                    best
                } else {
                    alpha
                },
                a < beta,
                prefix_best(s0, pl, dep, des, endgame, i as int) <= best as int,
                best <= alpha || best as int <= prefix_best(s0, pl, dep, des, endgame, i as int),
            decreases moves.len() - i as int,
        {
            let chosen_move = legal_moves[i];
            proof {
                lemma_legal_seq_elements(s0.grid, s0.pos(pl).0, s0.pos(pl).1);
                assert(move_legal(s0, pl, chosen_move));
                lemma_apply_wf(s0, chosen_move, pl, false);
                lemma_apply_round_trip(s0, chosen_move, pl);
            }
            let ghost c = child_value(s0, chosen_move, pl, dep, des, endgame);
            self.execute_move(chosen_move, player_id, false);
            let value: i64 = if endgame {
                self.alpha_beta(player_id, depth - 1, a, beta, true)
            } else {
                let v = self.alpha_beta((player_id + 1) % 2, depth - 1, -beta, -a, false);
                -v
            };
            proof {
                // the child's fail-soft bounds, read at this node: a value
                // inside the window is the child's exact value, one at or
                // below `a` an upper bound on it, one at or above `beta` a
                // lower bound
                assert(value <= a ==> c <= value as int);
                assert(a < value < beta ==> c == value as int);
                assert(value >= beta ==> c >= value as int);
            }
            self.execute_move(chosen_move, player_id, true);
            proof {
                lemma_prefix_step(s0, pl, dep, des, endgame, i as int + 1);
            }
            if value > best {
                best = value;
            }
            if best > a {
                a = best;
            }
            if a >= beta {
                proof {
                    lemma_prefix_ge(s0, pl, dep, des, endgame, i as int + 1, moves.len() as int);
                }
                return best;
            }
            i = i + 1;
        }
        best
    }

    /// The alpha-beta search run over the full window: its value equals
    /// the plain (unpruned) negamax value of the same position and depth.
    pub fn search_value(&mut self, player_id: u8, depth: u8, endgame: bool) -> (r: i64)
        requires
            old(self).wf(),
            player_id < 2,
            depth <= old(self).desired_depth,
        ensures
            final(self).wf(),
            final(self)@ == old(self)@,
            final(self).session_is(*old(self)),
            r as int == negamax_spec(
                old(self)@,
                player_id as int,
                depth as nat,
                old(self).desired_depth as nat,
                endgame,
            ),
    {
        proof {
            lemma_negamax_bounds(
                old(self)@,
                player_id as int,
                depth as nat,
                old(self).desired_depth as nat,
                endgame,
            );
        }
        self.alpha_beta(player_id, depth, -100000, 100000, endgame)
    }
}

} // verus!
