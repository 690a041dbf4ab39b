//! Board state: the 16x16 grid of cells, both player positions, and the
//! memoized per-cell count of empty orthogonal neighbors.
//!
//! The grid is stored row-major in a vector of 256 cells. The struct
//! invariant `wf` ties the cached neighbor counts to a fresh recomputation
//! from the grid, so a stale cache entry can never be read.

use vstd::prelude::*;

use crate::transposition::TranspositionTable;
use crate::types::{CacheKeying, Move};

verus! {

/// One cell of the grid.
#[derive(Clone, Copy, Debug, PartialEq, Eq, Structural)]
pub enum Cell {
    Empty,
    Player0,
    Player1,
    Wall,
}

/// Why a board snapshot was rejected.
#[derive(Clone, Copy, Debug, PartialEq, Eq, Structural)]
pub enum ParseError {
    /// The text is not exactly 256 single-byte tokens joined by commas.
    WrongLength,
    /// A token byte is outside the alphabet `. x 0 1`, or a separator is
    /// not a comma.
    BadToken,
    /// The tokens do not mark exactly one cell per player.
    BadPlayerCount,
}

/// Row-major index of a coordinate.
pub open spec fn idx(r: int, c: int) -> int {
    r * 16 + c
}

/// Whether a coordinate lies on the 16x16 grid.
pub open spec fn in_bounds_rc(r: int, c: int) -> bool {
    0 <= r < 16 && 0 <= c < 16
}

/// The cell marker of a player.
pub open spec fn marker(player: int) -> Cell {
    if player == 0 {
        Cell::Player0
    } else {
        Cell::Player1
    }
}

/// Target coordinate of a move from `(r, c)`; a reverse move steps in the
/// opposite direction. `Pass` is mapped to the dummy coordinate `(0, 0)`.
pub open spec fn step_rc(r: int, c: int, m: Move, reverse: bool) -> (int, int) {
    match m {
        Move::Up => if !reverse { (r - 1, c) } else { (r + 1, c) },
        Move::Down => if !reverse { (r + 1, c) } else { (r - 1, c) },
        Move::Left => if !reverse { (r, c - 1) } else { (r, c + 1) },
        Move::Right => if !reverse { (r, c + 1) } else { (r, c - 1) },
        Move::Pass => (0, 0),
    }
}

/// Whether the coordinate is on the grid and currently empty.
pub open spec fn cell_empty_at(g: Seq<Cell>, r: int, c: int) -> bool {
    in_bounds_rc(r, c) && g[idx(r, c)] == Cell::Empty
}

/// Number of empty orthogonal neighbors of `(r, c)`.
pub open spec fn adj_count_rc(g: Seq<Cell>, r: int, c: int) -> int {
    (if cell_empty_at(g, r - 1, c) { 1int } else { 0 })
        + (if cell_empty_at(g, r + 1, c) { 1int } else { 0 })
        + (if cell_empty_at(g, r, c - 1) { 1int } else { 0 })
        + (if cell_empty_at(g, r, c + 1) { 1int } else { 0 })
}

/// Mathematical model of a board: the grid contents and both positions.
#[verifier::ext_equal]
pub struct GameState {
    pub grid: Seq<Cell>,
    pub pos0: (int, int),
    pub pos1: (int, int),
}

impl GameState {
    /// Position of a player.
    pub open spec fn pos(self, player: int) -> (int, int) {
        if player == 0 {
            self.pos0
        } else {
            self.pos1
        }
    }

    /// Well-formedness: 256 cells, both positions on the grid, and each
    /// player's marker on exactly the cell its position records.
    pub open spec fn wf(self) -> bool {
        &&& self.grid.len() == 256
        &&& in_bounds_rc(self.pos0.0, self.pos0.1)
        &&& in_bounds_rc(self.pos1.0, self.pos1.1)
        &&& forall|i: int|
            0 <= i < 256 ==> ((self.grid[i] == Cell::Player0) <==> i == idx(
                self.pos0.0,
                self.pos0.1,
            ))
        &&& forall|i: int|
            0 <= i < 256 ==> ((self.grid[i] == Cell::Player1) <==> i == idx(
                self.pos1.0,
                self.pos1.1,
            ))
    }
}

/// The board a search works on: grid, positions, the adjacency cache, and
/// the per-turn search session state.
pub struct Board {
    pub grid: Vec<Cell>,
    pub pos0: (u8, u8),
    pub pos1: (u8, u8),
    /// Cached count of empty orthogonal neighbors per cell.
    pub adjacents: Vec<u8>,
    pub best_turn: Move,
    pub desired_depth: u8,
    pub score_options: Vec<(Move, i64)>,
    pub transposition_table: TranspositionTable,
    pub keying: CacheKeying,
}

impl View for Board {
    type V = GameState;

    open spec fn view(&self) -> GameState {
        GameState {
            grid: self.grid@,
            pos0: (self.pos0.0 as int, self.pos0.1 as int),
            pos1: (self.pos1.0 as int, self.pos1.1 as int),
        }
    }
}

impl Board {
    /// Well-formedness: the model is well-formed and every adjacency cache
    /// entry equals a fresh recomputation from the grid.
    pub open spec fn wf(self) -> bool {
        &&& self@.wf()
        &&& self.transposition_table.wf()
        &&& self.adjacents@.len() == 256
        &&& forall|r: int, c: int|
            in_bounds_rc(r, c) ==> #[trigger] self.adjacents@[idx(r, c)] as int == adj_count_rc(
                self@.grid,
                r,
                c,
            )
    }

    /// The search session fields that a board mutation leaves alone.
    pub open spec fn session_is(self, other: Board) -> bool {
        &&& self.best_turn == other.best_turn
        &&& self.desired_depth == other.desired_depth
        &&& self.score_options@ == other.score_options@
        &&& self.transposition_table@ == other.transposition_table@
        &&& self.keying == other.keying
    }
}

/// Valid token bytes: `.` `x` `0` `1`.
pub open spec fn valid_token(b: u8) -> bool {
    b == 46 || b == 120 || b == 48 || b == 49
}

/// Cell denoted by a token byte.
pub open spec fn token_cell(b: u8) -> Cell {
    if b == 46 {
        Cell::Empty
    } else if b == 120 {
        Cell::Wall
    } else if b == 48 {
        Cell::Player0
    } else {
        Cell::Player1
    }
}

/// The text is 256 tokens joined by single commas, every token in the
/// alphabet.
pub open spec fn text_shape_ok(t: Seq<u8>) -> bool {
    &&& t.len() == 511
    &&& forall|k: int| 0 <= k < 256 ==> valid_token(#[trigger] t[2 * k])
    &&& forall|k: int| 0 <= k < 255 ==> #[trigger] t[2 * k + 1] == 44u8
}

/// Exactly one of the 256 tokens is the byte `b`.
pub open spec fn token_count_one(t: Seq<u8>, b: u8) -> bool {
    exists|k: int|
        0 <= k < 256 && #[trigger] t[2 * k] == b && (forall|j: int|
            0 <= j < 256 && #[trigger] t[2 * j] == b ==> j == k)
}

/// A parsable snapshot: well-shaped and marking one cell per player.
pub open spec fn valid_text(t: Seq<u8>) -> bool {
    &&& text_shape_ok(t)
    &&& token_count_one(t, 48)
    &&& token_count_one(t, 49)
}

/// Grid denoted by a well-shaped snapshot.
pub open spec fn parsed_grid(t: Seq<u8>) -> Seq<Cell> {
    Seq::new(256, |k: int| token_cell(t[2 * k]))
}

/// Count of empty orthogonal neighbors of `(r, c)`, recomputed from the
/// grid.
pub(crate) fn count_empty_neighbors(grid: &Vec<Cell>, r: u8, c: u8) -> (n: u8)
    requires
        grid@.len() == 256,
        in_bounds_rc(r as int, c as int),
    ensures
        n as int == adj_count_rc(grid@, r as int, c as int),
{
    let mut n: u8 = 0;
    if r > 0 && grid[(r as usize - 1) * 16 + c as usize] == Cell::Empty {
        n = n + 1;
    }
    if r < 15 && grid[(r as usize + 1) * 16 + c as usize] == Cell::Empty {
        n = n + 1;
    }
    if c > 0 && grid[r as usize * 16 + (c as usize - 1)] == Cell::Empty {
        n = n + 1;
    }
    if c < 15 && grid[r as usize * 16 + (c as usize + 1)] == Cell::Empty {
        n = n + 1;
    }
    n
}

/// Recompute the whole adjacency cache from a grid.
pub(crate) fn all_adjacent_counts(grid: &Vec<Cell>) -> (adj: Vec<u8>)
    requires
        grid@.len() == 256,
    ensures
        adj@.len() == 256,
        forall|r: int, c: int|
            in_bounds_rc(r, c) ==> #[trigger] adj@[idx(r, c)] as int == adj_count_rc(grid@, r, c),
{
    let mut adj: Vec<u8> = Vec::new();
    let mut r: u8 = 0;
    while r < 16
        invariant
            grid@.len() == 256,
            r <= 16,
            adj@.len() == r as int * 16,
            forall|r2: int, c2: int|
                in_bounds_rc(r2, c2) && idx(r2, c2) < adj@.len() ==> #[trigger] adj@[idx(
                    r2,
                    c2,
                )] as int == adj_count_rc(grid@, r2, c2),
        decreases 16 - r as int,
    {
        let mut c: u8 = 0;
        while c < 16
            invariant
                grid@.len() == 256,
                r < 16,
                c <= 16,
                adj@.len() == r as int * 16 + c as int,
                forall|r2: int, c2: int|
                    in_bounds_rc(r2, c2) && idx(r2, c2) < adj@.len() ==> adj@[idx(r2, c2)] as int
                        == adj_count_rc(grid@, r2, c2),
            decreases 16 - c as int,
        {
            let n = count_empty_neighbors(grid, r, c);
            adj.push(n);
            c = c + 1;
        }
        r = r + 1;
    }
    adj
}

impl Board {
    /// Whether a coordinate lies on the grid.
    pub fn in_bounds(row: u8, col: u8) -> (r: bool)
        ensures
            r == in_bounds_rc(row as int, col as int),
    {
        row < 16 && col < 16
    }

    /// The cell at a coordinate.
    pub fn cell_at(&self, row: u8, col: u8) -> (r: Cell)
        requires
            self.wf(),
            in_bounds_rc(row as int, col as int),
        ensures
            r == self@.grid[idx(row as int, col as int)],
    {
        self.grid[row as usize * 16 + col as usize]
    }

    /// Current position of a player.
    pub fn get_player_position(&self, player_id: u8) -> (r: (u8, u8))
        requires
            player_id < 2,
        ensures
            (r.0 as int, r.1 as int) == self@.pos(player_id as int),
    {
        if player_id == 0 {
            self.pos0
        } else {
            self.pos1
        }
    }

    /// The move recorded as best by the last search.
    pub fn get_best_turn(&self) -> (r: Move)
        ensures
            r == self.best_turn,
    {
        self.best_turn
    }

    /// Record a best move.
    pub fn set_best_turn(&mut self, turn: Move)
        ensures
            *final(self) == (Board { best_turn: turn, ..*old(self) }),
    {
        self.best_turn = turn;
    }

    /// Set the depth the next search runs at.
    pub fn set_desired_depth(&mut self, new_depth: u8)
        ensures
            *final(self) == (Board { desired_depth: new_depth, ..*old(self) }),
    {
        self.desired_depth = new_depth;
    }

    /// The diagnostic `(move, score)` pairs appended at the root of the last
    /// search.
    pub fn get_score_options(&self) -> (r: Vec<(Move, i64)>)
        ensures
            r@ == self.score_options@,
    {
        let mut out: Vec<(Move, i64)> = Vec::new();
        let mut i: usize = 0;
        while i < self.score_options.len()
            invariant
                i <= self.score_options@.len(),
                out@ == self.score_options@.subrange(0, i as int),
            decreases self.score_options@.len() - i as int,
        {
            out.push(self.score_options[i]);
            i = i + 1;
        }
        proof {
            assert(out@ =~= self.score_options@);
        }
        out
    }

    /// The transposition cache carried by this board.
    pub fn get_transpositions(&self) -> (r: &TranspositionTable)
        ensures
            r == &self.transposition_table,
    {
        &self.transposition_table
    }

    /// Replace the transposition cache.
    pub fn set_transpositions(&mut self, trans: TranspositionTable)
        requires
            trans.wf(),
        ensures
            *final(self) == (Board { transposition_table: trans, ..*old(self) }),
            old(self).wf() ==> final(self).wf(),
    {
        self.transposition_table = trans;
    }

    /// Clear the diagnostic score list.
    pub fn reset_score_options(&mut self)
        ensures
            final(self).score_options@.len() == 0,
            final(self).grid@ == old(self).grid@,
            final(self).pos0 == old(self).pos0,
            final(self).pos1 == old(self).pos1,
            final(self).adjacents@ == old(self).adjacents@,
            final(self).best_turn == old(self).best_turn,
            final(self).desired_depth == old(self).desired_depth,
            final(self).transposition_table == old(self).transposition_table,
            final(self).keying == old(self).keying,
    {
        self.score_options.clear();
    }

    /// A fresh default board: all cells empty, the players in opposite
    /// corners.
    pub fn new() -> (r: Board)
        ensures
            r.wf(),
            r@.pos0 == (0int, 0int),
            r@.pos1 == (15int, 15int),
            forall|i: int|
                0 <= i < 256 && i != 0 && i != 255 ==> r@.grid[i] == Cell::Empty,
            r.best_turn == Move::Up,
            r.desired_depth == 8,
            r.score_options@.len() == 0,
            r.transposition_table@ == Map::<Seq<Cell>, i64>::empty(),
            r.keying == CacheKeying::GridOnly,
    {
        let mut grid: Vec<Cell> = Vec::new();
        let mut i: usize = 0;
        while i < 256
            invariant
                i <= 256,
                grid@.len() == i as int,
                forall|j: int| 0 <= j < i as int ==> grid@[j] == Cell::Empty,
            decreases 256 - i as int,
        {
            grid.push(Cell::Empty);
            i = i + 1;
        }
        grid.set(0, Cell::Player0);
        grid.set(255, Cell::Player1);
        let adjacents = all_adjacent_counts(&grid);
        Board {
            grid,
            pos0: (0, 0),
            pos1: (15, 15),
            adjacents,
            best_turn: Move::Up,
            desired_depth: 8,
            score_options: Vec::new(),
            transposition_table: TranspositionTable::new(),
            keying: CacheKeying::GridOnly,
        }
    }
}

} // verus!

verus! {

impl Board {
    /// Full reconstruction of a board from a snapshot: a flat, comma
    /// separated, row-major sequence of exactly 256 tokens over the
    /// alphabet `. x 0 1` (empty, wall, player 0, player 1).
    ///
    /// Returns the board exactly denoted by the text, or the first
    /// applicable error; no partial board is ever built.
    #[verifier::rlimit(100)]
    pub fn rebuild(text: &[u8]) -> (r: Result<Board, ParseError>)
        ensures
            r is Ok <==> valid_text(text@),
            r is Ok ==> {
                let b = r->Ok_0;
                &&& b.wf()
                &&& b@.grid == parsed_grid(text@)
                &&& b.best_turn == Move::Up
                &&& b.desired_depth == 8
                &&& b.score_options@.len() == 0
                &&& b.transposition_table@ == Map::<Seq<Cell>, i64>::empty()
                &&& b.keying == CacheKeying::GridOnly
            },
            r == Err::<Board, ParseError>(ParseError::WrongLength) <==> text@.len() != 511,
            r == Err::<Board, ParseError>(ParseError::BadToken) <==> (text@.len() == 511
                && !text_shape_ok(text@)),
            r == Err::<Board, ParseError>(ParseError::BadPlayerCount) <==> (text_shape_ok(text@)
                && !(token_count_one(text@, 48) && token_count_one(text@, 49))),
    {
        if text.len() != 511 {
            return Err(ParseError::WrongLength);
        }
        let mut grid: Vec<Cell> = Vec::new();
        let mut row: u8 = 0;
        let mut col: u8 = 0;
        let mut count0: u16 = 0;
        let mut count1: u16 = 0;
        let mut p0: (u8, u8) = (0, 0);
        let mut p1: (u8, u8) = (0, 0);
        let ghost mut snd0: int = 0;
        let ghost mut snd1: int = 0;
        let mut k: usize = 0;
        while k < 256
            invariant
                text@.len() == 511,
                k <= 256,
                col < 16,
                row <= 16,
                k as int == idx(row as int, col as int),
                grid@.len() == k as int,
                forall|j: int| 0 <= j < k as int ==> grid@[j] == token_cell(text@[2 * j]),
                forall|j: int| 0 <= j < k as int ==> valid_token(#[trigger] text@[2 * j]),
                forall|j: int|
                    0 <= j < k as int && j < 255 ==> #[trigger] text@[2 * j + 1] == 44u8,
                count0 <= k,
                count1 <= k,
                count0 == 0 ==> forall|j: int| 0 <= j < k as int ==> #[trigger] text@[2 * j] != 48,
                count0 == 1 ==> {
                    let p = idx(p0.0 as int, p0.1 as int);
                    &&& in_bounds_rc(p0.0 as int, p0.1 as int)
                    &&& 0 <= p < k as int
                    &&& text@[2 * p] == 48
                    &&& forall|j: int| 0 <= j < k as int && #[trigger] text@[2 * j] == 48 ==> j == p
                },
                count0 >= 2 ==> {
                    let p = idx(p0.0 as int, p0.1 as int);
                    &&& 0 <= p < k as int
                    &&& 0 <= snd0 < k as int
                    &&& snd0 != p
                    &&& text@[2 * p] == 48
                    &&& text@[2 * snd0] == 48
                },
                count1 == 0 ==> forall|j: int| 0 <= j < k as int ==> #[trigger] text@[2 * j] != 49,
                count1 == 1 ==> {
                    let p = idx(p1.0 as int, p1.1 as int);
                    &&& in_bounds_rc(p1.0 as int, p1.1 as int)
                    &&& 0 <= p < k as int
                    &&& text@[2 * p] == 49
                    &&& forall|j: int| 0 <= j < k as int && #[trigger] text@[2 * j] == 49 ==> j == p
                },
                count1 >= 2 ==> {
                    let p = idx(p1.0 as int, p1.1 as int);
                    &&& 0 <= p < k as int
                    &&& 0 <= snd1 < k as int
                    &&& snd1 != p
                    &&& text@[2 * p] == 49
                    &&& text@[2 * snd1] == 49
                },
            decreases 256 - k as int,
        {
            let b = text[2 * k];
            if b == 46 {
                grid.push(Cell::Empty);
            } else if b == 120 {
                grid.push(Cell::Wall);
            } else if b == 48 {
                grid.push(Cell::Player0);
                if count0 == 0 {
                    p0 = (row, col);
                } else {
                    proof {
                        snd0 = k as int;
                    }
                }
                count0 = count0 + 1;
            } else if b == 49 {
                grid.push(Cell::Player1);
                if count1 == 0 {
                    p1 = (row, col);
                } else {
                    proof {
                        snd1 = k as int;
                    }
                }
                count1 = count1 + 1;
            } else {
                return Err(ParseError::BadToken);
            }
            if k < 255 && text[2 * k + 1] != 44 {
                return Err(ParseError::BadToken);
            }
            col = (col + 1) % 16;
            if col == 0 {
                row = row + 1;
            }
            k = k + 1;
        }
        if count0 != 1 || count1 != 1 {
            return Err(ParseError::BadPlayerCount);
        }
        let adjacents = all_adjacent_counts(&grid);
        let board = Board {
            grid,
            pos0: p0,
            pos1: p1,
            adjacents,
            best_turn: Move::Up,
            desired_depth: 8,
            score_options: Vec::new(),
            transposition_table: TranspositionTable::new(),
            keying: CacheKeying::GridOnly,
        };
        proof {
            assert(board@.grid =~= parsed_grid(text@));
        }
        Ok(board)
    }

    /// Replace the grid and positions from a snapshot, keeping the search
    /// session fields. Returns whether the text parsed; on failure the
    /// board is unchanged.
    pub fn update(&mut self, text: &[u8]) -> (ok: bool)
        requires
            old(self).wf(),
        ensures
            ok <==> valid_text(text@),
            final(self).wf(),
            ok ==> final(self)@.grid == parsed_grid(text@),
            !ok ==> final(self)@ == old(self)@,
            final(self).session_is(*old(self)),
    {
        match Board::rebuild(text) {
            Ok(b) => {
                self.grid = b.grid;
                self.pos0 = b.pos0;
                self.pos1 = b.pos1;
                self.adjacents = b.adjacents;
                true
            },
            Err(_) => false,
        }
    }
}

} // verus!

verus! {

/// A legal step from `(r, c)`: a non-`Pass` move whose target cell is on
/// the grid and empty.
pub open spec fn move_legal_rc(g: Seq<Cell>, r: int, c: int, m: Move) -> bool {
    &&& m != Move::Pass
    &&& cell_empty_at(g, step_rc(r, c, m, false).0, step_rc(r, c, m, false).1)
}

/// A legal step of a player.
pub open spec fn move_legal(s: GameState, player: int, m: Move) -> bool {
    move_legal_rc(s.grid, s.pos(player).0, s.pos(player).1, m)
}

/// The legal steps from `(r, c)`, in enumeration order Left, Right, Up,
/// Down; empty off the grid.
pub open spec fn legal_seq_rc(g: Seq<Cell>, r: int, c: int) -> Seq<Move> {
    if !in_bounds_rc(r, c) {
        Seq::<Move>::empty()
    } else {
        (if move_legal_rc(g, r, c, Move::Left) {
            seq![Move::Left]
        } else {
            Seq::<Move>::empty()
        }) + (if move_legal_rc(g, r, c, Move::Right) {
            seq![Move::Right]
        } else {
            Seq::<Move>::empty()
        }) + (if move_legal_rc(g, r, c, Move::Up) {
            seq![Move::Up]
        } else {
            Seq::<Move>::empty()
        }) + (if move_legal_rc(g, r, c, Move::Down) {
            seq![Move::Down]
        } else {
            Seq::<Move>::empty()
        })
    }
}

/// The legal moves of a player, in enumeration order.
pub open spec fn legal_seq(s: GameState, player: int) -> Seq<Move> {
    legal_seq_rc(s.grid, s.pos(player).0, s.pos(player).1)
}

/// Every element of the legal-move sequence is a legal step.
pub proof fn lemma_legal_seq_elements(g: Seq<Cell>, r: int, c: int)
    ensures
        forall|i: int|
            0 <= i < legal_seq_rc(g, r, c).len() ==> move_legal_rc(
                g,
                r,
                c,
                #[trigger] legal_seq_rc(g, r, c)[i],
            ),
{
    if in_bounds_rc(r, c) {
        let s = legal_seq_rc(g, r, c);
        let eL = move_legal_rc(g, r, c, Move::Left);
        let eR = move_legal_rc(g, r, c, Move::Right);
        let eU = move_legal_rc(g, r, c, Move::Up);
        let eD = move_legal_rc(g, r, c, Move::Down);
        let iR: int = if eL {
            1
        } else {
            0
        };
        let iU: int = iR + if eR {
            1int
        } else {
            0
        };
        let iD: int = iU + if eU {
            1int
        } else {
            0
        };
        assert forall|i: int| 0 <= i < s.len() implies move_legal_rc(g, r, c, #[trigger] s[i]) by {
            if eL && i == 0 {
                assert(s[i] == Move::Left);
            } else if eR && i == iR {
                assert(s[i] == Move::Right);
            } else if eU && i == iU {
                assert(s[i] == Move::Up);
            } else {
                assert(s[i] == Move::Down);
            }
        }
    }
}

/// Whether `(r2, c2)` is `(r, c)` itself or one of its orthogonal
/// neighbors.
pub open spec fn near1(r: int, c: int, r2: int, c2: int) -> bool {
    ||| (r2 == r && c2 == c)
    ||| (r2 == r - 1 && c2 == c)
    ||| (r2 == r + 1 && c2 == c)
    ||| (r2 == r && c2 == c - 1)
    ||| (r2 == r && c2 == c + 1)
}

/// A reversible step of a player: the reverse target is on the grid and
/// holds the wall laid by the forward step being undone.
pub open spec fn reverse_target_ok(s: GameState, player: int, m: Move) -> bool {
    &&& m != Move::Pass
    &&& {
        let t = step_rc(s.pos(player).0, s.pos(player).1, m, true);
        in_bounds_rc(t.0, t.1) && s.grid[idx(t.0, t.1)] == Cell::Wall
    }
}

/// The board model after a player executes a move.
///
/// Forward: the vacated cell becomes a wall, the target cell the player's
/// marker. Reverse: the vacated cell becomes empty again, the target cell
/// (the origin of the forward step being undone) the player's marker.
pub open spec fn apply_state(s: GameState, m: Move, player: int, reverse: bool) -> GameState {
    let from = s.pos(player);
    let to = step_rc(from.0, from.1, m, reverse);
    GameState {
        grid: s.grid.update(
            idx(from.0, from.1),
            if reverse {
                Cell::Empty
            } else {
                Cell::Wall
            },
        ).update(idx(to.0, to.1), marker(player)),
        pos0: if player == 0 {
            to
        } else {
            s.pos0
        },
        pos1: if player == 1 {
            to
        } else {
            s.pos1
        },
    }
}

/// Executing a move preserves well-formedness of the model.
pub proof fn lemma_apply_wf(s: GameState, m: Move, player: int, reverse: bool)
    requires
        s.wf(),
        0 <= player < 2,
        !reverse ==> move_legal(s, player, m),
        reverse ==> reverse_target_ok(s, player, m),
    ensures
        apply_state(s, m, player, reverse).wf(),
{
    let from = s.pos(player);
    let to = step_rc(from.0, from.1, m, reverse);
    let s2 = apply_state(s, m, player, reverse);
    assert(s.grid[idx(from.0, from.1)] == marker(player));
    assert(idx(from.0, from.1) != idx(to.0, to.1));
    assert forall|i: int| 0 <= i < 256 implies ((s2.grid[i] == Cell::Player0) <==> i == idx(
        s2.pos0.0,
        s2.pos0.1,
    )) by {
        assert(s2.grid[idx(to.0, to.1)] == marker(player));
    }
    assert forall|i: int| 0 <= i < 256 implies ((s2.grid[i] == Cell::Player1) <==> i == idx(
        s2.pos1.0,
        s2.pos1.1,
    )) by {
        assert(s2.grid[idx(to.0, to.1)] == marker(player));
    }
}

/// Round trip: executing a legal move forward and then reversing the same
/// move restores the exact prior model (grid and both positions); the
/// adjacency cache is a function of the grid, so it is restored with it.
pub proof fn lemma_apply_round_trip(s: GameState, m: Move, player: int)
    requires
        s.wf(),
        0 <= player < 2,
        move_legal(s, player, m),
    ensures
        reverse_target_ok(apply_state(s, m, player, false), player, m),
        apply_state(apply_state(s, m, player, false), m, player, true) == s,
{
    let from = s.pos(player);
    let to = step_rc(from.0, from.1, m, false);
    let s2 = apply_state(s, m, player, false);
    assert(s.grid[idx(from.0, from.1)] == marker(player));
    assert(idx(from.0, from.1) != idx(to.0, to.1));
    assert(s2.pos(player) == to);
    assert(step_rc(to.0, to.1, m, true) == from);
    assert(s2.grid[idx(from.0, from.1)] == Cell::Wall);
    let s3 = apply_state(s2, m, player, true);
    assert(s3.grid =~= s.grid);
    assert(s3 =~= s);
}

/// The adjacency cache is determined by the grid: two well-formed boards
/// with the same model carry the same cache.
pub proof fn lemma_cache_determined(a: Board, b: Board)
    requires
        a.wf(),
        b.wf(),
        a@ == b@,
    ensures
        a.adjacents@ == b.adjacents@,
{
    assert forall|j: int| 0 <= j < 256 implies a.adjacents@[j] == b.adjacents@[j] by {
        let r = j / 16;
        let c = j % 16;
        assert(in_bounds_rc(r, c));
        assert(idx(r, c) == j);
    }
    assert(a.adjacents@ =~= b.adjacents@);
}

/// Refresh one adjacency cache entry from the grid.
pub(crate) fn refresh_cell(grid: &Vec<Cell>, adj: &mut Vec<u8>, r: u8, c: u8)
    requires
        grid@.len() == 256,
        old(adj)@.len() == 256,
        in_bounds_rc(r as int, c as int),
    ensures
        final(adj)@.len() == 256,
        final(adj)@[idx(r as int, c as int)] as int == adj_count_rc(grid@, r as int, c as int),
        forall|j: int|
            0 <= j < 256 && j != idx(r as int, c as int) ==> final(adj)@[j] == old(adj)@[j],
{
    let n = count_empty_neighbors(grid, r, c);
    adj.set(r as usize * 16 + c as usize, n);
}

/// Refresh the cache entries of `(r, c)` and its on-grid neighbors.
pub(crate) fn refresh_neighborhood(grid: &Vec<Cell>, adj: &mut Vec<u8>, r: u8, c: u8)
    requires
        grid@.len() == 256,
        old(adj)@.len() == 256,
        in_bounds_rc(r as int, c as int),
    ensures
        final(adj)@.len() == 256,
        forall|r2: int, c2: int|
            in_bounds_rc(r2, c2) && near1(r as int, c as int, r2, c2) ==> #[trigger] final(adj)@[idx(r2, c2)] as int == adj_count_rc(grid@, r2, c2),
        forall|r2: int, c2: int|
            in_bounds_rc(r2, c2) && !near1(r as int, c as int, r2, c2) ==> #[trigger] final(adj)@[idx(r2, c2)] == old(adj)@[idx(r2, c2)],
{
    refresh_cell(grid, adj, r, c);
    if r > 0 {
        refresh_cell(grid, adj, r - 1, c);
    }
    if r < 15 {
        refresh_cell(grid, adj, r + 1, c);
    }
    if c > 0 {
        refresh_cell(grid, adj, r, c - 1);
    }
    if c < 15 {
        refresh_cell(grid, adj, r, c + 1);
    }
}

impl Board {
    /// Target coordinate of a move from the player's current position; the
    /// reverse flag steps in the opposite direction. The caller guarantees
    /// the target is on the grid (it got the move from `legal_moves`, or is
    /// reversing into a just-vacated cell). `Pass` yields `(0, 0)`.
    pub fn move_to_position(&self, chosen_move: Move, player_id: u8, reverse: bool) -> (r: (
        u8,
        u8,
    ))
        requires
            self.wf(),
            player_id < 2,
            chosen_move != Move::Pass ==> in_bounds_rc(
                step_rc(
                    self@.pos(player_id as int).0,
                    self@.pos(player_id as int).1,
                    chosen_move,
                    reverse,
                ).0,
                step_rc(
                    self@.pos(player_id as int).0,
                    self@.pos(player_id as int).1,
                    chosen_move,
                    reverse,
                ).1,
            ),
        ensures
            chosen_move != Move::Pass ==> (r.0 as int, r.1 as int) == step_rc(
                self@.pos(player_id as int).0,
                self@.pos(player_id as int).1,
                chosen_move,
                reverse,
            ),
            chosen_move == Move::Pass ==> r == (0u8, 0u8),
    {
        let player = if player_id == 0 {
            self.pos0
        } else {
            self.pos1
        };
        match chosen_move {
            Move::Up => if !reverse {
                (player.0 - 1, player.1)
            } else {
                (player.0 + 1, player.1)
            },
            Move::Down => if !reverse {
                (player.0 + 1, player.1)
            } else {
                (player.0 - 1, player.1)
            },
            Move::Left => if !reverse {
                (player.0, player.1 - 1)
            } else {
                (player.0, player.1 + 1)
            },
            Move::Right => if !reverse {
                (player.0, player.1 + 1)
            } else {
                (player.0, player.1 - 1)
            },
            Move::Pass => (0, 0),
        }
    }

    /// The legal steps out of a coordinate: exactly the moves into an
    /// on-grid, empty orthogonal neighbor, in enumeration order Left,
    /// Right, Up, Down. Empty when the coordinate is off the grid.
    #[verifier::rlimit(100)]
    pub fn legal_moves_point(&self, row: u8, col: u8) -> (r: Vec<Move>)
        requires
            self.wf(),
        ensures
            r@ == legal_seq_rc(self@.grid, row as int, col as int),
            forall|m: Move|
                r@.contains(m) <==> move_legal_rc(self@.grid, row as int, col as int, m)
                    && in_bounds_rc(row as int, col as int),
    {
        let mut moves: Vec<Move> = Vec::new();
        if !(Board::in_bounds(row, col)) {
            assert(moves@ =~= legal_seq_rc(self@.grid, row as int, col as int));
            return moves;
        }
        if col > 0 && self.grid[row as usize * 16 + (col as usize - 1)] == Cell::Empty {
            moves.push(Move::Left);
        }
        if col < 15 && self.grid[row as usize * 16 + (col as usize + 1)] == Cell::Empty {
            moves.push(Move::Right);
        }
        if row > 0 && self.grid[(row as usize - 1) * 16 + col as usize] == Cell::Empty {
            moves.push(Move::Up);
        }
        if row < 15 && self.grid[(row as usize + 1) * 16 + col as usize] == Cell::Empty {
            moves.push(Move::Down);
        }
        proof {
            assert(moves@ =~= legal_seq_rc(self@.grid, row as int, col as int));
            let g = self@.grid;
            let r0 = row as int;
            let c0 = col as int;
            let s = moves@;
            let eL = move_legal_rc(g, r0, c0, Move::Left);
            let eR = move_legal_rc(g, r0, c0, Move::Right);
            let eU = move_legal_rc(g, r0, c0, Move::Up);
            let eD = move_legal_rc(g, r0, c0, Move::Down);
            let iR: int = if eL {
                1
            } else {
                0
            };
            let iU: int = iR + if eR {
                1int
            } else {
                0
            };
            let iD: int = iU + if eU {
                1int
            } else {
                0
            };
            if eL {
                assert(s[0] == Move::Left);
            }
            if eR {
                assert(s[iR] == Move::Right);
            }
            if eU {
                assert(s[iU] == Move::Up);
            }
            if eD {
                assert(s[iD] == Move::Down);
            }
            assert forall|i: int| 0 <= i < s.len() implies move_legal_rc(
                g,
                r0,
                c0,
                #[trigger] s[i],
            ) by {
                if eL && i == 0 {
                    assert(s[i] == Move::Left);
                } else if eR && i == iR {
                    assert(s[i] == Move::Right);
                } else if eU && i == iU {
                    assert(s[i] == Move::Up);
                } else {
                    assert(s[i] == Move::Down);
                }
            }
        }
        moves
    }

    /// The legal moves of a player: exactly the set of in-bounds, empty
    /// orthogonal neighbors of the player's position, in enumeration order.
    pub fn legal_moves(&self, player: u8) -> (r: Vec<Move>)
        requires
            self.wf(),
            player < 2,
        ensures
            r@ == legal_seq(self@, player as int),
            forall|m: Move| r@.contains(m) <==> move_legal(self@, player as int, m),
    {
        let (row, col) = if player == 0 {
            self.pos0
        } else {
            self.pos1
        };
        self.legal_moves_point(row, col)
    }

    /// The on-grid, empty orthogonal neighbors of a coordinate; the number
    /// of them is exactly the cached adjacency count. Empty off the grid.
    #[verifier::rlimit(100)]
    pub fn get_adjacent(&self, point: (u8, u8)) -> (r: Vec<(u8, u8)>)
        requires
            self.wf(),
        ensures
            in_bounds_rc(point.0 as int, point.1 as int) ==> r@.len() == adj_count_rc(
                self@.grid,
                point.0 as int,
                point.1 as int,
            ),
            !in_bounds_rc(point.0 as int, point.1 as int) ==> r@.len() == 0,
            forall|q: (u8, u8)|
                r@.contains(q) <==> (in_bounds_rc(point.0 as int, point.1 as int)
                    && cell_empty_at(self@.grid, q.0 as int, q.1 as int) && near1(
                    point.0 as int,
                    point.1 as int,
                    q.0 as int,
                    q.1 as int,
                ) && !(q.0 == point.0 && q.1 == point.1)),
    {
        let mut r: Vec<(u8, u8)> = Vec::new();
        if !(Board::in_bounds(point.0, point.1)) {
            return r;
        }
        let row = point.0;
        let col = point.1;
        if col > 0 && self.grid[row as usize * 16 + (col as usize - 1)] == Cell::Empty {
            r.push((row, col - 1));
        }
        if col < 15 && self.grid[row as usize * 16 + (col as usize + 1)] == Cell::Empty {
            r.push((row, col + 1));
        }
        if row > 0 && self.grid[(row as usize - 1) * 16 + col as usize] == Cell::Empty {
            r.push((row - 1, col));
        }
        if row < 15 && self.grid[(row as usize + 1) * 16 + col as usize] == Cell::Empty {
            r.push((row + 1, col));
        }
        proof {
            let g = self@.grid;
            let r0 = point.0 as int;
            let c0 = point.1 as int;
            let s = r@;
            let eL = cell_empty_at(g, r0, c0 - 1);
            let eR = cell_empty_at(g, r0, c0 + 1);
            let eU = cell_empty_at(g, r0 - 1, c0);
            let eD = cell_empty_at(g, r0 + 1, c0);
            let iR: int = if eL {
                1
            } else {
                0
            };
            let iU: int = iR + if eR {
                1int
            } else {
                0
            };
            let iD: int = iU + if eU {
                1int
            } else {
                0
            };
            if eL {
                assert(s[0] == (point.0, (point.1 - 1) as u8));
            }
            if eR {
                assert(s[iR] == (point.0, (point.1 + 1) as u8));
            }
            if eU {
                assert(s[iU] == ((point.0 - 1) as u8, point.1));
            }
            if eD {
                assert(s[iD] == ((point.0 + 1) as u8, point.1));
            }
            assert forall|i: int| 0 <= i < s.len() implies (cell_empty_at(
                g,
                (#[trigger] s[i]).0 as int,
                s[i].1 as int,
            ) && near1(r0, c0, s[i].0 as int, s[i].1 as int) && !(s[i].0 == point.0 && s[i].1
                == point.1)) by {
                if eL && i == 0 {
                    assert(s[i] == (point.0, (point.1 - 1) as u8));
                } else if eR && i == iR {
                    assert(s[i] == (point.0, (point.1 + 1) as u8));
                } else if eU && i == iU {
                    assert(s[i] == ((point.0 - 1) as u8, point.1));
                } else {
                    assert(s[i] == ((point.0 + 1) as u8, point.1));
                }
            }
            assert forall|q: (u8, u8)| (cell_empty_at(g, q.0 as int, q.1 as int) && near1(
                r0,
                c0,
                q.0 as int,
                q.1 as int,
            ) && !(q.0 == point.0 && q.1 == point.1)) implies s.contains(q) by {
                if q.0 as int == r0 && q.1 as int == c0 - 1 {
                    assert(q == (point.0, (point.1 - 1) as u8));
                    assert(s[0] == q);
                } else if q.0 as int == r0 && q.1 as int == c0 + 1 {
                    assert(q == (point.0, (point.1 + 1) as u8));
                    assert(s[iR] == q);
                } else if q.0 as int == r0 - 1 && q.1 as int == c0 {
                    assert(q == ((point.0 - 1) as u8, point.1));
                    assert(s[iU] == q);
                } else {
                    assert(q == ((point.0 + 1) as u8, point.1));
                    assert(s[iD] == q);
                }
            }
        }
        r
    }

    /// Execute a move of a player against the board, forward or in
    /// reverse, and refresh the adjacency cache around both endpoints.
    #[verifier::rlimit(100)]
    pub fn execute_move(&mut self, next_move: Move, player_id: u8, reverse: bool)
        requires
            old(self).wf(),
            player_id < 2,
            !reverse ==> move_legal(old(self)@, player_id as int, next_move),
            reverse ==> reverse_target_ok(old(self)@, player_id as int, next_move),
        ensures
            final(self).wf(),
            final(self)@ == apply_state(old(self)@, next_move, player_id as int, reverse),
            final(self).session_is(*old(self)),
    {
        proof {
            lemma_apply_wf(old(self)@, next_move, player_id as int, reverse);
        }
        let from = if player_id == 0 {
            self.pos0
        } else {
            self.pos1
        };
        let to = self.move_to_position(next_move, player_id, reverse);
        let from_i = from.0 as usize * 16 + from.1 as usize;
        let to_i = to.0 as usize * 16 + to.1 as usize;
        if reverse {
            self.grid.set(from_i, Cell::Empty);
        } else {
            self.grid.set(from_i, Cell::Wall);
        }
        if player_id == 0 {
            self.grid.set(to_i, Cell::Player0);
            self.pos0 = to;
        } else {
            self.grid.set(to_i, Cell::Player1);
            self.pos1 = to;
        }
        refresh_neighborhood(&self.grid, &mut self.adjacents, from.0, from.1);
        refresh_neighborhood(&self.grid, &mut self.adjacents, to.0, to.1);
        proof {
            let s2 = apply_state(old(self)@, next_move, player_id as int, reverse);
            assert(self@ =~= s2);
            assert forall|r2: int, c2: int| in_bounds_rc(r2, c2) implies #[trigger] self.adjacents@[idx(
                r2,
                c2,
            )] as int == adj_count_rc(self@.grid, r2, c2) by {
                if !near1(from.0 as int, from.1 as int, r2, c2) && !near1(
                    to.0 as int,
                    to.1 as int,
                    r2,
                    c2,
                ) {
                    assert(adj_count_rc(self@.grid, r2, c2) == adj_count_rc(
                        old(self)@.grid,
                        r2,
                        c2,
                    )) by {
                        assert(cell_empty_at(self@.grid, r2 - 1, c2) == cell_empty_at(
                            old(self)@.grid,
                            r2 - 1,
                            c2,
                        ));
                        assert(cell_empty_at(self@.grid, r2 + 1, c2) == cell_empty_at(
                            old(self)@.grid,
                            r2 + 1,
                            c2,
                        ));
                        assert(cell_empty_at(self@.grid, r2, c2 - 1) == cell_empty_at(
                            old(self)@.grid,
                            r2,
                            c2 - 1,
                        ));
                        assert(cell_empty_at(self@.grid, r2, c2 + 1) == cell_empty_at(
                            old(self)@.grid,
                            r2,
                            c2 + 1,
                        ));
                    }
                }
            }
        }
    }
}

} // verus!
