//! Multi-source flood-fill distances: for each player, the minimum number
//! of steps through empty cells from the player's position to every cell.
//!
//! The distance map is defined by level iteration: ring `k + 1` is the set
//! of empty cells adjacent to a cell of ring `k`. Cells no ring reaches
//! keep the sentinel distance 255 ("blocked"). A 16x16 grid holds two
//! non-empty player cells, so a true distance never exceeds 254 and the
//! sentinel is unambiguous.

use vstd::prelude::*;

use crate::board::{
    adj_count_rc, idx, in_bounds_rc, Board, Cell, GameState,
};

verus! {

/// The sentinel distance of an unreached cell.
pub open spec fn blocked() -> u8 {
    255u8
}

/// Distances before the first ring: the seed at 0, all else blocked.
pub open spec fn bfs_init(seed: int) -> Seq<u8> {
    Seq::new(
        256,
        |i: int|
            if i == seed {
                0u8
            } else {
                255u8
            },
    )
}

/// Whether `(r, c)` is on the grid and carries distance `k`.
pub open spec fn at_level(d: Seq<u8>, r: int, c: int, k: u8) -> bool {
    in_bounds_rc(r, c) && d[idx(r, c)] == k
}

/// Distance of `(r, c)` after expanding ring `k` by one step: a settled
/// distance stays; an empty cell adjacent to ring `k` joins ring `k + 1`;
/// all else stays blocked.
pub open spec fn bfs_cell(g: Seq<Cell>, d: Seq<u8>, k: u8, r: int, c: int) -> u8
    recommends
        k < 255,
{
    let i = idx(r, c);
    if d[i] != 255 {
        d[i]
    } else if g[i] == Cell::Empty && (at_level(d, r - 1, c, k) || at_level(d, r + 1, c, k)
        || at_level(d, r, c - 1, k) || at_level(d, r, c + 1, k)) {
        (k + 1) as u8
    } else {
        255u8
    }
}

/// One whole ring expansion.
pub open spec fn bfs_step(g: Seq<Cell>, d: Seq<u8>, k: u8) -> Seq<u8> {
    Seq::new(256, |i: int| bfs_cell(g, d, k, i / 16, i % 16))
}

/// Distances after the first `k` ring expansions.
pub open spec fn bfs_upto(g: Seq<Cell>, seed: int, k: int) -> Seq<u8>
    decreases k,
{
    if k <= 0 {
        bfs_init(seed)
    } else {
        bfs_step(g, bfs_upto(g, seed, k - 1), (k - 1) as u8)
    }
}

/// The flood-fill distance map from one seed: every ring expanded.
pub open spec fn spec_dists(g: Seq<Cell>, seed: int) -> Seq<u8> {
    bfs_upto(g, seed, 254)
}

/// A flat index names the row and column it encodes.
pub proof fn lemma_idx_divmod(r: int, c: int)
    requires
        in_bounds_rc(r, c),
    ensures
        idx(r, c) / 16 == r,
        idx(r, c) % 16 == c,
{
}

/// Basic shape of every ring iteration: 256 entries, the seed at distance
/// 0, and no distance on a non-empty cell other than the seed.
pub proof fn lemma_bfs_upto_basic(g: Seq<Cell>, seed: int, k: int)
    requires
        g.len() == 256,
        0 <= seed < 256,
        k >= 0,
    ensures
        bfs_upto(g, seed, k).len() == 256,
        bfs_upto(g, seed, k)[seed] == 0,
        forall|i: int|
            0 <= i < 256 && i != seed && g[i] != Cell::Empty ==> bfs_upto(g, seed, k)[i] == 255,
        forall|i: int|
            0 <= i < 256 && #[trigger] bfs_upto(g, seed, k)[i] != 255 ==> (i == seed || g[i]
                == Cell::Empty),
    decreases k,
{
    if k > 0 {
        lemma_bfs_upto_basic(g, seed, k - 1);
        let prev = bfs_upto(g, seed, k - 1);
        let cur = bfs_upto(g, seed, k);
        assert forall|i: int| 0 <= i < 256 implies {
            &&& (i == seed ==> cur[i] == 0)
            &&& (i != seed && g[i] != Cell::Empty ==> cur[i] == 255)
            &&& (cur[i] != 255 ==> (i == seed || g[i] == Cell::Empty))
        } by {
            lemma_idx_divmod(i / 16, i % 16);
            assert(cur[i] == bfs_cell(g, prev, (k - 1) as u8, i / 16, i % 16));
            assert(idx(i / 16, i % 16) == i);
        }
    }
}

/// Shape of the final distance map, as `lemma_bfs_upto_basic`.
pub proof fn lemma_dists_basic(g: Seq<Cell>, seed: int)
    requires
        g.len() == 256,
        0 <= seed < 256,
    ensures
        spec_dists(g, seed).len() == 256,
        spec_dists(g, seed)[seed] == 0,
        forall|i: int|
            0 <= i < 256 && i != seed && g[i] != Cell::Empty ==> spec_dists(g, seed)[i] == 255,
        forall|i: int|
            0 <= i < 256 && #[trigger] spec_dists(g, seed)[i] != 255 ==> (i == seed || g[i]
                == Cell::Empty),
{
    lemma_bfs_upto_basic(g, seed, 254);
}

/// Compute the flood-fill distance map from one seed by level iteration.
pub fn bfs_distances(grid: &Vec<Cell>, seed_r: u8, seed_c: u8) -> (d: Vec<u8>)
    requires
        grid@.len() == 256,
        in_bounds_rc(seed_r as int, seed_c as int),
    ensures
        d@ == spec_dists(grid@, idx(seed_r as int, seed_c as int)),
        d@.len() == 256,
{
    let ghost seed = idx(seed_r as int, seed_c as int);
    let mut d: Vec<u8> = Vec::new();
    let mut i: usize = 0;
    while i < 256
        invariant
            i <= 256,
            d@.len() == i as int,
            forall|j: int| 0 <= j < i as int ==> d@[j] == 255u8,
        decreases 256 - i as int,
    {
        d.push(255);
        i = i + 1;
    }
    d.set(seed_r as usize * 16 + seed_c as usize, 0);
    proof {
        assert(d@ =~= bfs_init(seed));
    }
    let mut k: u8 = 0;
    while k < 254
        invariant
            grid@.len() == 256,
            k <= 254,
            d@.len() == 256,
            d@ == bfs_upto(grid@, seed, k as int),
        decreases 254 - k as int,
    {
        let ghost dpre = d@;
        let mut r: u8 = 0;
        while r < 16
            invariant
                grid@.len() == 256,
                k < 254,
                r <= 16,
                d@.len() == 256,
                dpre.len() == 256,
                forall|j: int| r as int * 16 <= j < 256 ==> d@[j] == dpre[j],
                forall|j: int|
                    0 <= j < r as int * 16 ==> d@[j] == bfs_step(grid@, dpre, k)[j],
            decreases 16 - r as int,
        {
            let mut c: u8 = 0;
            while c < 16
                invariant
                    grid@.len() == 256,
                    k < 254,
                    r < 16,
                    c <= 16,
                    d@.len() == 256,
                    dpre.len() == 256,
                    forall|j: int| r as int * 16 + c as int <= j < 256 ==> d@[j] == dpre[j],
                    forall|j: int|
                        0 <= j < r as int * 16 + c as int ==> d@[j] == bfs_step(grid@, dpre, k)[j],
                decreases 16 - c as int,
            {
                let i = r as usize * 16 + c as usize;
                proof {
                    lemma_idx_divmod(r as int, c as int);
                    assert(bfs_step(grid@, dpre, k)[i as int] == bfs_cell(
                        grid@,
                        dpre,
                        k,
                        r as int,
                        c as int,
                    ));
                    // a cell written in this pass took the value k + 1, so
                    // reading "is the distance k" is the same on the
                    // current array and on the pass-start snapshot
                    assert forall|j: int| 0 <= j < 256 implies ((d@[j] == k) <==> (dpre[j]
                        == k)) by {
                        if j < r as int * 16 + c as int {
                            assert(d@[j] == bfs_step(grid@, dpre, k)[j]);
                            lemma_idx_divmod(j / 16, j % 16);
                            assert(d@[j] == bfs_cell(grid@, dpre, k, j / 16, j % 16));
                        }
                    }
                }
                if d[i] == 255 && grid[i] == Cell::Empty {
                    let mut found = false;
                    if r > 0 && d[i - 16] == k {
                        found = true;
                        proof {
                            assert(idx(r as int - 1, c as int) == i as int - 16);
                        }
                    }
                    if r < 15 && d[i + 16] == k {
                        found = true;
                        proof {
                            assert(idx(r as int + 1, c as int) == i as int + 16);
                        }
                    }
                    if c > 0 && d[i - 1] == k {
                        found = true;
                        proof {
                            assert(idx(r as int, c as int - 1) == i as int - 1);
                        }
                    }
                    if c < 15 && d[i + 1] == k {
                        found = true;
                        proof {
                            assert(idx(r as int, c as int + 1) == i as int + 1);
                        }
                    }
                    proof {
                        assert(found == (at_level(dpre, r as int - 1, c as int, k) || at_level(
                            dpre,
                            r as int + 1,
                            c as int,
                            k,
                        ) || at_level(dpre, r as int, c as int - 1, k) || at_level(
                            dpre,
                            r as int,
                            c as int + 1,
                            k,
                        )));
                    }
                    if found {
                        d.set(i, k + 1);
                    }
                }
                c = c + 1;
            }
            r = r + 1;
        }
        proof {
            assert(d@ =~= bfs_step(grid@, dpre, k));
        }
        k = k + 1;
    }
    d
}

/// Per-player flood-fill distance maps of a board.
#[derive(Clone, Debug)]
pub struct BoardDistance {
    pub player0: Vec<u8>,
    pub player1: Vec<u8>,
}

impl BoardDistance {
    /// The maps are the flood-fill distances of the two players of `s`.
    pub open spec fn wf_for(self, s: GameState) -> bool {
        &&& self.player0@ == spec_dists(s.grid, idx(s.pos0.0, s.pos0.1))
        &&& self.player1@ == spec_dists(s.grid, idx(s.pos1.0, s.pos1.1))
    }

    /// The maps belong to some well-formed board.
    pub open spec fn wf(self) -> bool {
        exists|s: GameState| s.wf() && self.wf_for(s)
    }

    /// Both players' distance maps of a board.
    pub fn from_board(board: &Board) -> (r: BoardDistance)
        requires
            board.wf(),
        ensures
            r.wf_for(board@),
            r.wf(),
    {
        let player0 = bfs_distances(&board.grid, board.pos0.0, board.pos0.1);
        let player1 = bfs_distances(&board.grid, board.pos1.0, board.pos1.1);
        let r = BoardDistance { player0, player1 };
        proof {
            assert(r.wf_for(board@));
        }
        r
    }
}

/// Cells each player reaches strictly sooner than the other, over the
/// first `n` cells.
pub open spec fn controlled_counts(d0: Seq<u8>, d1: Seq<u8>, n: int) -> (int, int)
    decreases n,
{
    if n <= 0 {
        (0int, 0int)
    } else {
        let prev = controlled_counts(d0, d1, n - 1);
        if d0[n - 1] < d1[n - 1] {
            (prev.0 + 1, prev.1)
        } else if d0[n - 1] > d1[n - 1] {
            (prev.0, prev.1 + 1)
        } else {
            prev
        }
    }
}

/// The two counts are nonnegative and together at most `n`.
pub proof fn lemma_controlled_counts_bound(d0: Seq<u8>, d1: Seq<u8>, n: int)
    requires
        n >= 0,
    ensures
        controlled_counts(d0, d1, n).0 >= 0,
        controlled_counts(d0, d1, n).1 >= 0,
        controlled_counts(d0, d1, n).0 + controlled_counts(d0, d1, n).1 <= n,
    decreases n,
{
    if n > 0 {
        lemma_controlled_counts_bound(d0, d1, n - 1);
    }
}

/// A cell one player reaches sooner makes that player's count positive.
pub proof fn lemma_controlled_counts_witness(d0: Seq<u8>, d1: Seq<u8>, j: int, n: int)
    requires
        0 <= j < n,
    ensures
        d0[j] < d1[j] ==> controlled_counts(d0, d1, n).0 >= 1,
        d0[j] > d1[j] ==> controlled_counts(d0, d1, n).1 >= 1,
    decreases n,
{
    lemma_controlled_counts_bound(d0, d1, n - 1);
    if j < n - 1 {
        lemma_controlled_counts_witness(d0, d1, j, n - 1);
    }
}

impl BoardDistance {
    /// The number of cells each player reaches strictly sooner than the
    /// other: the cells player 0 controls, then the cells player 1
    /// controls.
    pub fn controlled_area(&self) -> (r: (u8, u8))
        requires
            self.wf(),
        ensures
            r.0 as int == controlled_counts(self.player0@, self.player1@, 256).0,
            r.1 as int == controlled_counts(self.player0@, self.player1@, 256).1,
    {
        proof {
            let s = choose|s: GameState| s.wf() && self.wf_for(s);
            let i0 = idx(s.pos0.0, s.pos0.1);
            let i1 = idx(s.pos1.0, s.pos1.1);
            lemma_dists_basic(s.grid, i0);
            lemma_dists_basic(s.grid, i1);
            // each player's own cell is counted for that player, so both
            // counts stay within a byte
            assert(s.grid[i0] == Cell::Player0 && s.grid[i1] == Cell::Player1);
            assert(i0 != i1);
            assert(self.player0@[i0] == 0 && self.player1@[i0] == 255);
            assert(self.player0@[i1] == 255 && self.player1@[i1] == 0);
            lemma_controlled_counts_witness(self.player0@, self.player1@, i0, 256);
            lemma_controlled_counts_witness(self.player0@, self.player1@, i1, 256);
            lemma_controlled_counts_bound(self.player0@, self.player1@, 256);
        }
        let mut p0: u16 = 0;
        let mut p1: u16 = 0;
        let mut i: usize = 0;
        while i < 256
            invariant
                self.player0@.len() == 256,
                self.player1@.len() == 256,
                i <= 256,
                p0 as int == controlled_counts(self.player0@, self.player1@, i as int).0,
                p1 as int == controlled_counts(self.player0@, self.player1@, i as int).1,
                p0 + p1 <= i,
            decreases 256 - i as int,
        {
            proof {
                lemma_controlled_counts_bound(self.player0@, self.player1@, i as int);
            }
            let a = self.player0[i];
            let b = self.player1[i];
            if a < b {
                p0 = p0 + 1;
            } else if a > b {
                p1 = p1 + 1;
            }
            i = i + 1;
        }
        (p0 as u8, p1 as u8)
    }
}

} // verus!
