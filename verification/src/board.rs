//! The 4x4 board: a row-major grid of sixteen cells, each empty (0) or holding
//! a card magnitude, with the clockwise and counter-clockwise quarter-turn
//! transforms that canonicalize the vertical move directions.

use vstd::prelude::*;

use crate::card::is_ladder;
use crate::rng::pick_uniform;

verus! {

/// A cell sequence of full board length: the grid has sixteen cells,
/// row-major, cell `[r][c]` at index `4*r + c`.
pub open spec fn spec_grid(b: Seq<usize>) -> bool {
    b.len() == 16
}

/// Every cell is empty or holds a ladder card, as the data model demands.
pub open spec fn all_cards(b: Seq<usize>) -> bool {
    forall|i: int| 0 <= i < 16 ==> b[i] == 0 || is_ladder(#[trigger] b[i])
}

/// The clockwise quarter turn: the new cell `[r][c]` takes the old `[3-c][r]`.
pub open spec fn spec_rotate_cw(b: Seq<usize>) -> Seq<usize> {
    Seq::new(16, |i: int| b[4 * (3 - (i % 4)) + i / 4])
}

/// The counter-clockwise quarter turn: the new cell `[r][c]` takes the old
/// `[c][3-r]`.
pub open spec fn spec_rotate_ccw(b: Seq<usize>) -> Seq<usize> {
    Seq::new(16, |i: int| b[4 * (i % 4) + (3 - i / 4)])
}

pub struct Board {
    cells: Vec<usize>,
}

impl View for Board {
    type V = Seq<usize>;

    closed spec fn view(&self) -> Seq<usize> {
        self.cells@
    }
}

impl Board {
    pub open spec fn wf(self) -> bool {
        spec_grid(self@)
    }

    /// An empty board: sixteen empty cells.
    pub fn new() -> (r: Board)
        ensures
            r.wf(),
            forall|i: int| 0 <= i < 16 ==> r@[i] == 0,
    {
        let mut cells: Vec<usize> = Vec::new();
        let mut i: usize = 0;
        while i < 16
            invariant
                i <= 16,
                cells@.len() == i,
                forall|j: int| 0 <= j < i ==> cells@[j] == 0,
            decreases 16 - i,
        {
            cells.push(0);
            i = i + 1;
        }
        Board { cells }
    }

    /// A board holding the given sixteen cells, row-major.
    pub fn from_cells(cells: Vec<usize>) -> (r: Board)
        requires
            cells@.len() == 16,
        ensures
            r.wf(),
            r@ == cells@,
    {
        Board { cells }
    }

    /// A copy of the sixteen cells, row-major.
    pub fn to_vec(&self) -> (r: Vec<usize>)
        requires
            self.wf(),
        ensures
            r@ == self@,
    {
        let mut r: Vec<usize> = Vec::new();
        let mut i: usize = 0;
        while i < 16
            invariant
                self.wf(),
                i <= 16,
                r@ =~= self@.take(i as int),
            decreases 16 - i,
        {
            r.push(self.cells[i]);
            proof {
                assert(r@ =~= self@.take(i + 1));
            }
            i = i + 1;
        }
        proof {
            assert(r@ =~= self@);
        }
        r
    }

    /// The cell at the given row and column.
    pub fn get(&self, row: usize, col: usize) -> (r: usize)
        requires
            self.wf(),
            row < 4,
            col < 4,
        ensures
            r == self@[4 * row + col],
    {
        self.cells[4 * row + col]
    }

    /// Writes the cell at the given row and column.
    pub fn set_cell(&mut self, row: usize, col: usize, value: usize)
        requires
            old(self).wf(),
            row < 4,
            col < 4,
        ensures
            final(self).wf(),
            final(self)@ == old(self)@.update(4 * row + col, value),
    {
        self.cells.set(4 * row + col, value);
    }

    /// Places a card in an empty cell chosen uniformly among the board's empty
    /// cells; every other cell is left as it was.
    pub fn set_random_empty_cell(&mut self, rng: &mut rand::rngs::ThreadRng, card: usize)
        requires
            old(self).wf(),
            exists|i: int| 0 <= i < 16 && old(self)@[i] == 0,
        ensures
            final(self).wf(),
            exists|i: int|
                0 <= i < 16 && old(self)@[i] == 0 && final(self)@ == old(self)@.update(i, card),
    {
        let mut empties: Vec<usize> = Vec::new();
        let mut i: usize = 0;
        while i < 16
            invariant
                self.wf(),
                i <= 16,
                forall|t: int|
                    0 <= t < empties@.len() ==> #[trigger] empties@[t] < 16 && self@[empties@[t] as int]
                        == 0,
                forall|j: int| 0 <= j < i && self@[j] == 0 ==> empties@.contains(j as usize),
            decreases 16 - i,
        {
            let ghost pre = empties@;
            if self.cells[i] == 0 {
                empties.push(i);
                proof {
                    assert forall|j: int| 0 <= j < i + 1 && self@[j] == 0 implies empties@.contains(
                        j as usize,
                    ) by {
                        if j < i {
                            let t = choose|t: int| 0 <= t < pre.len() && pre[t] == j as usize;
                            assert(empties@[t] == j as usize);
                        } else {
                            assert(empties@[pre.len() as int] == i as usize);
                        }
                    }
                }
            }
            i = i + 1;
        }
        proof {
            let w = choose|w: int| 0 <= w < 16 && self@[w] == 0;
            assert(empties@.contains(w as usize));
        }
        let slot = pick_uniform(&empties, rng);
        match slot {
            Some(cell) => {
                proof {
                    let t = choose|t: int| 0 <= t < empties@.len() && empties@[t] == cell;
                    assert(self@[cell as int] == 0);
                }
                self.cells.set(cell, card);
            },
            None => {
                proof {
                    assert(false);
                }
            },
        }
    }
}

/// Rotates the grid a quarter turn clockwise.
pub fn rotate_90_clockwise(board: &Board) -> (r: Board)
    requires
        board.wf(),
    ensures
        r.wf(),
        r@ == spec_rotate_cw(board@),
{
    let mut cells: Vec<usize> = Vec::new();
    cells.push(board.get(3, 0));
    cells.push(board.get(2, 0));
    cells.push(board.get(1, 0));
    cells.push(board.get(0, 0));
    cells.push(board.get(3, 1));
    cells.push(board.get(2, 1));
    cells.push(board.get(1, 1));
    cells.push(board.get(0, 1));
    cells.push(board.get(3, 2));
    cells.push(board.get(2, 2));
    cells.push(board.get(1, 2));
    cells.push(board.get(0, 2));
    cells.push(board.get(3, 3));
    cells.push(board.get(2, 3));
    cells.push(board.get(1, 3));
    cells.push(board.get(0, 3));
    proof {
        assert(cells@ =~= spec_rotate_cw(board@));
    }
    Board { cells }
}

/// Rotates the grid a quarter turn counter-clockwise; the inverse of the
/// clockwise turn.
pub fn rotate_90_counter_clockwise(board: &Board) -> (r: Board)
    requires
        board.wf(),
    ensures
        r.wf(),
        r@ == spec_rotate_ccw(board@),
{
    let mut cells: Vec<usize> = Vec::new();
    cells.push(board.get(0, 3));
    cells.push(board.get(1, 3));
    cells.push(board.get(2, 3));
    cells.push(board.get(3, 3));
    cells.push(board.get(0, 2));
    cells.push(board.get(1, 2));
    cells.push(board.get(2, 2));
    cells.push(board.get(3, 2));
    cells.push(board.get(0, 1));
    cells.push(board.get(1, 1));
    cells.push(board.get(2, 1));
    cells.push(board.get(3, 1));
    cells.push(board.get(0, 0));
    cells.push(board.get(1, 0));
    cells.push(board.get(2, 0));
    cells.push(board.get(3, 0));
    proof {
        assert(cells@ =~= spec_rotate_ccw(board@));
    }
    Board { cells }
}

/// Law: the two quarter turns are inverses, in both orders.
pub proof fn lemma_rotations_inverse(b: Seq<usize>)
    requires
        spec_grid(b),
    ensures
        spec_rotate_ccw(spec_rotate_cw(b)) =~= b,
        spec_rotate_cw(spec_rotate_ccw(b)) =~= b,
{
    assert forall|i: int| 0 <= i < 16 implies spec_rotate_ccw(spec_rotate_cw(b))[i] == b[i]
        && spec_rotate_cw(spec_rotate_ccw(b))[i] == b[i] by {
        let q = i / 4;
        let m = i % 4;
        lemma_grid_index(i);
        let j = 4 * m + (3 - q);
        lemma_grid_index(j);
        assert(j / 4 == m && j % 4 == 3 - q) by (nonlinear_arith)
            requires
                0 <= m < 4,
                0 <= q < 4,
                j == 4 * m + (3 - q),
        ;
        let k = 4 * (3 - m) + q;
        lemma_grid_index(k);
        assert(k / 4 == 3 - m && k % 4 == q) by (nonlinear_arith)
            requires
                0 <= m < 4,
                0 <= q < 4,
                k == 4 * (3 - m) + q,
        ;
        assert(spec_rotate_ccw(spec_rotate_cw(b))[i] == spec_rotate_cw(b)[j]);
        assert(spec_rotate_cw(b)[j] == b[4 * (3 - (j % 4)) + j / 4]);
        assert(spec_rotate_cw(spec_rotate_ccw(b))[i] == spec_rotate_ccw(b)[k]);
        assert(spec_rotate_ccw(b)[k] == b[4 * (k % 4) + (3 - k / 4)]);
    }
}

/// For a grid index, the quotient and remainder by 4 are the row and column,
/// both below 4.
proof fn lemma_grid_index(i: int)
    requires
        0 <= i < 16,
    ensures
        0 <= i / 4 < 4,
        0 <= i % 4 < 4,
        i == 4 * (i / 4) + i % 4,
{
    assert(0 <= i / 4 < 4 && 0 <= i % 4 < 4 && i == 4 * (i / 4) + i % 4) by (nonlinear_arith)
        requires
            0 <= i < 16,
    ;
}

/// A quarter turn permutes the cells, so it keeps every card and every empty
/// cell; in particular it preserves the card-or-empty shape of the grid.
pub proof fn lemma_rotate_all_cards(b: Seq<usize>)
    requires
        spec_grid(b),
        all_cards(b),
    ensures
        all_cards(spec_rotate_cw(b)),
        all_cards(spec_rotate_ccw(b)),
{
    assert forall|i: int| 0 <= i < 16 implies (spec_rotate_cw(b)[i] == 0 || is_ladder(
        #[trigger] spec_rotate_cw(b)[i],
    )) && (spec_rotate_ccw(b)[i] == 0 || is_ladder(#[trigger] spec_rotate_ccw(b)[i])) by {
        lemma_grid_index(i);
        assert(b[4 * (3 - (i % 4)) + i / 4] == 0 || is_ladder(b[4 * (3 - (i % 4)) + i / 4]));
        assert(b[4 * (i % 4) + (3 - i / 4)] == 0 || is_ladder(b[4 * (i % 4) + (3 - i / 4)]));
    }
}

} // verus!
