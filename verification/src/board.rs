//! The 3x3 board engine: cells, move legality, win and draw detection.
use vstd::prelude::*;

use crate::encoding::enc;

verus! {

broadcast use vstd::array::group_array_axioms;

/// One cell of the 3x3 grid.
#[derive(Clone, Copy, PartialEq, Eq, Structural, Debug)]
pub enum Cell {
    Empty,
    PlayerA,
    PlayerB,
}

/// Which player moves next. `PlayerA` starts; a win by `PlayerA` is
/// rewarded `+100` and a win by `PlayerB` is rewarded `-100`.
#[derive(Clone, Copy, PartialEq, Eq, Structural, Debug)]
pub enum Player {
    PlayerA,
    PlayerB,
}

impl Player {
    /// The mark this player leaves on the grid.
    pub open spec fn mark_spec(self) -> Cell {
        match self {
            Player::PlayerA => Cell::PlayerA,
            Player::PlayerB => Cell::PlayerB,
        }
    }

    /// The mark this player leaves on the grid.
    pub fn mark(self) -> (c: Cell)
        ensures
            c == self.mark_spec(),
    {
        match self {
            Player::PlayerA => Cell::PlayerA,
            Player::PlayerB => Cell::PlayerB,
        }
    }

    /// The opponent.
    pub open spec fn other_spec(self) -> Player {
        match self {
            Player::PlayerA => Player::PlayerB,
            Player::PlayerB => Player::PlayerA,
        }
    }

    /// The opponent.
    pub fn other(self) -> (p: Player)
        ensures
            p == self.other_spec(),
    {
        match self {
            Player::PlayerA => Player::PlayerB,
            Player::PlayerB => Player::PlayerA,
        }
    }
}

/// A grid with every cell empty, as a fresh or reset board has it.
pub open spec fn all_empty() -> Seq<Cell> {
    Seq::new(9, |i: int| Cell::Empty)
}

/// How many of the first `n` cells of `g` are empty.
pub open spec fn count_empty_to(g: Seq<Cell>, n: int) -> int
    decreases n,
{
    if n <= 0 {
        0
    } else {
        count_empty_to(g, n - 1) + if g[n - 1] == Cell::Empty {
            1int
        } else {
            0int
        }
    }
}

/// How many cells of a grid are empty.
pub open spec fn count_empty(g: Seq<Cell>) -> int {
    count_empty_to(g, g.len() as int)
}

/// Player `p` holds the line of cells `a`, `b`, `c`.
pub open spec fn line_of(g: Seq<Cell>, p: Player, a: int, b: int, c: int) -> bool {
    g[a] == p.mark_spec() && g[b] == p.mark_spec() && g[c] == p.mark_spec()
}

/// Player `p` holds three in a row on one of the 8 lines: 3 rows,
/// 3 columns, 2 diagonals.
pub open spec fn wins(g: Seq<Cell>, p: Player) -> bool {
    ||| line_of(g, p, 0, 1, 2)
    ||| line_of(g, p, 3, 4, 5)
    ||| line_of(g, p, 6, 7, 8)
    ||| line_of(g, p, 0, 3, 6)
    ||| line_of(g, p, 1, 4, 7)
    ||| line_of(g, p, 2, 5, 8)
    ||| line_of(g, p, 0, 4, 8)
    ||| line_of(g, p, 2, 4, 6)
}

/// The abstract state of a board.
#[verifier::ext_equal]
pub ghost struct BoardView {
    pub grid: Seq<Cell>,
    pub joueur: Player,
    pub finished: bool,
}

/// The board engine: 9 cells, the player to move, and a finished flag
/// that becomes true on a win or a full-board draw and stays true
/// until `reset`.
pub struct Morpion {
    pub(crate) joueur: Player,
    pub(crate) grid: [Cell; 9],
    pub(crate) finished: bool,
}

impl View for Morpion {
    type V = BoardView;

    closed spec fn view(&self) -> BoardView {
        BoardView { grid: self.grid@, joueur: self.joueur, finished: self.finished }
    }
}

/// Counting empty cells one position at a time agrees with updating one
/// cell: marking an empty cell lowers the count of every prefix that
/// covers it by exactly one.
proof fn lemma_count_empty_update(g: Seq<Cell>, i: int, m: Cell, n: int)
    requires
        0 <= i < g.len(),
        g[i] == Cell::Empty,
        m != Cell::Empty,
        n <= g.len(),
    ensures
        count_empty_to(g.update(i, m), n) == count_empty_to(g, n) - if i < n {
            1int
        } else {
            0int
        },
    decreases n,
{
    if n > 0 {
        lemma_count_empty_update(g, i, m, n - 1);
    }
}

/// A board is well formed when a board that is not finished still has
/// an empty cell; every constructor establishes this and every method
/// preserves it.
pub open spec fn board_wf(b: BoardView) -> bool {
    !b.finished ==> count_empty(b.grid) > 0
}

impl Morpion {
    /// A board is well formed when a board that is not finished still
    /// has an empty cell; every constructor establishes this and every
    /// method preserves it.
    pub open spec fn wf(self) -> bool {
        board_wf(self@)
    }

    /// Whether `spot` may be played: the cell is still empty.
    pub fn check_valid_move(&mut self, spot: &usize) -> (r: bool)
        requires
            *spot < 9,
        ensures
            *final(self) == *old(self),
            r == (old(self)@.grid[*spot as int] == Cell::Empty),
    {
        self.grid[*spot] == Cell::Empty
    }

    /// Whether the game is over: someone has won or the board is full.
    pub fn is_finished(&self) -> (r: bool)
        ensures
            r == self@.finished,
    {
        self.finished
    }

    /// All cells that may still be played: exactly the empty ones, in
    /// increasing index order.
    pub fn get_valid_moves(&mut self) -> (moves: Vec<usize>)
        ensures
            *final(self) == *old(self),
            moves@.len() == count_empty(old(self)@.grid),
            forall|j: int|
                0 <= j < moves@.len() ==> moves@[j] < 9 && old(self)@.grid[moves@[j] as int]
                    == Cell::Empty,
            forall|i: int|
                0 <= i < 9 && old(self)@.grid[i] == Cell::Empty ==> moves@.contains(i as usize),
            forall|j: int, k: int| 0 <= j < k < moves@.len() ==> moves@[j] < moves@[k],
    {
        let mut moves: Vec<usize> = Vec::new();
        let mut i: usize = 0;
        while i < 9
            invariant
                i <= 9,
                moves@.len() == count_empty_to(self@.grid, i as int),
                forall|j: int|
                    0 <= j < moves@.len() ==> moves@[j] < i && self@.grid[moves@[j] as int]
                        == Cell::Empty,
                forall|k: int|
                    0 <= k < i && self@.grid[k] == Cell::Empty ==> moves@.contains(k as usize),
                forall|j: int, k: int| 0 <= j < k < moves@.len() ==> moves@[j] < moves@[k],
            decreases 9 - i,
        {
            let ghost prev = moves@;
            if self.grid[i] == Cell::Empty {
                moves.push(i);
            }
            proof {
                assert forall|k: int|
                    0 <= k < i + 1 && self@.grid[k] == Cell::Empty implies moves@.contains(
                    k as usize,
                ) by {
                    if k == i {
                        assert(moves@[moves@.len() - 1] == (k as usize));
                    } else {
                        assert(prev.contains(k as usize));
                        let j = choose|j: int| 0 <= j < prev.len() && prev[j] == (k as usize);
                        assert(moves@[j] == (k as usize));
                    }
                }
            }
            i = i + 1;
        }
        moves
    }

    /// The mover holds a full line: three of the current player's marks
    /// in a row, a column or a diagonal.
    pub fn check_win(&mut self) -> (r: bool)
        ensures
            *final(self) == *old(self),
            r == wins(old(self)@.grid, old(self)@.joueur),
    {
        let m = self.joueur.mark();
        let g = &self.grid;
        (g[0] == m && g[1] == m && g[2] == m) || (g[3] == m && g[4] == m && g[5] == m) || (g[6] == m
            && g[7] == m && g[8] == m) || (g[0] == m && g[3] == m && g[6] == m) || (g[1] == m
            && g[4] == m && g[7] == m) || (g[2] == m && g[5] == m && g[8] == m) || (g[0] == m
            && g[4] == m && g[8] == m) || (g[2] == m && g[4] == m && g[6] == m)
    }

    /// Play the current player's mark on cell `value`, which must be
    /// empty. If the move completes a line the game finishes and the
    /// reward is `+100` for `PlayerA`, `-100` for `PlayerB`, and the
    /// turn does not pass; if it fills the last empty cell without a
    /// line the game finishes as a draw with reward `0` and the turn
    /// does not pass either; otherwise the reward is `0` and the turn
    /// passes to the opponent. Exactly the played cell changes.
    pub fn make_move(&mut self, value: &usize) -> (reward: i64)
        requires
            old(self).wf(),
            *value < 9,
            old(self)@.grid[*value as int] == Cell::Empty,
        ensures
            final(self).wf(),
            final(self)@.grid == old(self)@.grid.update(
                *value as int,
                old(self)@.joueur.mark_spec(),
            ),
            count_empty(final(self)@.grid) == count_empty(old(self)@.grid) - 1,
            ({
                let mover = old(self)@.joueur;
                if wins(final(self)@.grid, mover) {
                    &&& final(self)@.finished
                    &&& final(self)@.joueur == mover
                    &&& reward == if mover == Player::PlayerA {
                        100int
                    } else {
                        -100int
                    }
                } else if count_empty(final(self)@.grid) == 0 {
                    &&& final(self)@.finished
                    &&& final(self)@.joueur == mover
                    &&& reward == 0
                } else {
                    &&& final(self)@.finished == old(self)@.finished
                    &&& final(self)@.joueur == mover.other_spec()
                    &&& reward == 0
                }
            }),
    {
        proof {
            lemma_count_empty_update(
                self@.grid,
                *value as int,
                self@.joueur.mark_spec(),
                9,
            );
        }
        let mover = self.joueur;
        self.grid[*value] = mover.mark();
        if self.check_win() {
            self.finished = true;
            if mover == Player::PlayerA {
                return 100;
            }
            return -100;
        }
        if self.get_valid_moves().len() == 0 {
            self.finished = true;
            return 0;
        }
        self.joueur = self.joueur.other();
        0
    }

    /// Clear every cell, hand the move back to `PlayerA` and clear the
    /// finished flag, restoring the board a fresh construction gives.
    pub fn reset(&mut self)
        ensures
            final(self)@.grid == all_empty(),
            final(self)@.joueur == Player::PlayerA,
            !final(self)@.finished,
            final(self).wf(),
    {
        self.joueur = Player::PlayerA;
        let fresh: [Cell; 9] = vstd::array::array_fill_for_copy_types(Cell::Empty);
        proof {
            assert(forall|i: int| 0 <= i < 9 ==> fresh@[i] == Cell::Empty);
        }
        self.grid = fresh;
        self.finished = false;
        proof {
            assert(self@.grid =~= all_empty());
            lemma_all_empty_count();
        }
    }

    /// The player to move.
    pub fn joueur(&self) -> (p: Player)
        ensures
            p == self@.joueur,
    {
        self.joueur
    }

    /// The grid as a value, for rendering outside the library.
    pub fn cells(&self) -> (g: [Cell; 9])
        ensures
            g@ == self@.grid,
    {
        self.grid
    }
}

/// An empty grid has 9 empty cells; more generally every prefix of it
/// is all empty.
proof fn lemma_all_empty_count_to(n: int)
    requires
        0 <= n <= 9,
    ensures
        count_empty_to(all_empty(), n) == n,
    decreases n,
{
    if n > 0 {
        lemma_all_empty_count_to(n - 1);
    }
}

/// An empty grid has 9 empty cells.
pub proof fn lemma_all_empty_count()
    ensures
        count_empty(all_empty()) == 9,
{
    lemma_all_empty_count_to(9);
}

/// Prefix counts of empty cells are nonnegative.
pub proof fn lemma_count_empty_nonneg(g: Seq<Cell>, n: int)
    ensures
        count_empty_to(g, n) >= 0,
    decreases n,
{
    if n > 0 {
        lemma_count_empty_nonneg(g, n - 1);
    }
}

/// A prefix that covers an empty cell counts at least one empty cell.
pub proof fn lemma_count_empty_from_witness(g: Seq<Cell>, i: int, n: int)
    requires
        0 <= i < n <= g.len(),
        g[i] == Cell::Empty,
    ensures
        count_empty_to(g, n) > 0,
    decreases n,
{
    if i == n - 1 {
        lemma_count_empty_nonneg(g, n - 1);
    } else {
        lemma_count_empty_from_witness(g, i, n - 1);
    }
}

impl Morpion {
    /// A board holding the given position, with `to_move` to play and
    /// the game not finished; for probing or replaying mid-game
    /// positions. The position must keep at least one empty cell.
    pub fn from_cells(grid: [Cell; 9], to_move: Player) -> (b: Morpion)
        requires
            exists|i: int| 0 <= i < 9 && grid@[i] == Cell::Empty,
        ensures
            b@.grid == grid@,
            b@.joueur == to_move,
            !b@.finished,
            b.wf(),
    {
        let b = Morpion { joueur: to_move, grid, finished: false };
        proof {
            let i = choose|i: int| 0 <= i < 9 && grid@[i] == Cell::Empty;
            lemma_count_empty_from_witness(grid@, i, 9);
        }
        b
    }
}

impl Default for Morpion {
    /// A fresh board: all cells empty, `PlayerA` to move, not finished.
    fn default() -> (b: Morpion)
        ensures
            b@.grid == all_empty(),
            b@.joueur == Player::PlayerA,
            !b@.finished,
            b.wf(),
    {
        let mut b = Morpion { joueur: Player::PlayerA, grid: [Cell::Empty; 9], finished: false };
        b.reset();
        b
    }
}

/// Law: a reset board is indistinguishable by `enc` from a freshly
/// constructed board, since both grids are all empty.
pub proof fn lemma_reset_encode_indistinguishable(g1: Seq<Cell>, g2: Seq<Cell>)
    requires
        g1 == all_empty(),
        g2 == all_empty(),
    ensures
        enc(g1) == enc(g2),
{
}

/// Law: playing a mark on an empty cell shrinks the set of legal moves
/// by exactly that cell: the count of empty cells drops by one, the
/// played cell stops being empty, and every other cell keeps its
/// legality.
pub proof fn lemma_move_shrinks_legal_moves(g: Seq<Cell>, i: int, m: Cell)
    requires
        g.len() == 9,
        0 <= i < 9,
        g[i] == Cell::Empty,
        m != Cell::Empty,
    ensures
        count_empty(g.update(i, m)) == count_empty(g) - 1,
        g.update(i, m)[i] != Cell::Empty,
        forall|j: int|
            0 <= j < 9 && j != i ==> (g.update(i, m)[j] == Cell::Empty <==> g[j] == Cell::Empty),
{
    lemma_count_empty_update(g, i, m, 9);
}

} // verus!
