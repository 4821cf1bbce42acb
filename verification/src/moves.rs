//! Move resolution: the canonical collapse sweep, defined once per horizontal
//! direction and reused for the vertical directions through rotation, together
//! with the laws that every legal move obeys.

use vstd::prelude::*;

use crate::board::{
    all_cards, spec_grid, spec_rotate_ccw, spec_rotate_cw, Board, rotate_90_clockwise,
    rotate_90_counter_clockwise,
};
use crate::card::is_ladder;
use crate::rng::pick_uniform;

verus! {

/// What one examined cell pair yields: a card slides into an empty trailing
/// cell, two empty cells stay put, two 1s or two 2s stay apart, the pair
/// {1, 2} merges to 3, and equal values otherwise merge to their sum. A pair
/// yields a result exactly when acting on it changes a cell, so the fired
/// flags track genuine change.
pub open spec fn cell_merge(fst: usize, snd: usize) -> Option<usize> {
    if snd == 0 {
        if fst == 0 {
            None
        } else {
            Some(fst)
        }
    } else if (fst == 1 && snd == 1) || (fst == 2 && snd == 2) {
        None
    } else if (fst == 1 && snd == 2) || (fst == 2 && snd == 1) {
        Some(3usize)
    } else if fst == snd {
        Some(((fst + snd) as usize))
    } else {
        None
    }
}

/// Whether the rightward sweep fires on the pair at cells `k, k + 1`: the
/// leading cell is `k`, the trailing cell `k + 1`.
pub open spec fn pair_fires_right(b: Seq<usize>, k: int) -> bool {
    cell_merge(b[k], b[k + 1]) is Some
}

/// One rightward pair step: when the pair fires, the merge result lands in the
/// trailing cell and the leading cell is emptied.
pub open spec fn sweep_pair_right(b: Seq<usize>, k: int) -> Seq<usize> {
    match cell_merge(b[k], b[k + 1]) {
        Some(v) => b.update(k, 0).update(k + 1, v),
        None => b,
    }
}

/// The rightward sweep of one row: its three pairs examined from the trailing
/// edge toward the leading edge, each re-reading the cells the previous step
/// left behind.
pub open spec fn sweep_row_right(b: Seq<usize>, row: int) -> Seq<usize> {
    sweep_pair_right(sweep_pair_right(sweep_pair_right(b, 4 * row + 2), 4 * row + 1), 4 * row)
}

/// Whether the rightward sweep changes the given row: some pair fired.
pub open spec fn row_changed_right(b: Seq<usize>, row: int) -> bool {
    ||| pair_fires_right(b, 4 * row + 2)
    ||| pair_fires_right(sweep_pair_right(b, 4 * row + 2), 4 * row + 1)
    ||| pair_fires_right(
        sweep_pair_right(sweep_pair_right(b, 4 * row + 2), 4 * row + 1),
        4 * row,
    )
}

/// The rightward sweep of the first `n` rows, top to bottom.
pub open spec fn sweep_rows_right(b: Seq<usize>, n: int) -> Seq<usize>
    decreases n,
{
    if n <= 0 {
        b
    } else {
        sweep_row_right(sweep_rows_right(b, n - 1), n - 1)
    }
}

/// The rightward sweep of the whole board.
pub open spec fn sweep_board_right(b: Seq<usize>) -> Seq<usize> {
    sweep_rows_right(b, 4)
}

/// Whether the leftward sweep fires on the pair at cells `k, k + 1`: the
/// leading cell is `k + 1`, the trailing cell `k`.
pub open spec fn pair_fires_left(b: Seq<usize>, k: int) -> bool {
    cell_merge(b[k + 1], b[k]) is Some
}

/// One leftward pair step, the mirror image of the rightward one.
pub open spec fn sweep_pair_left(b: Seq<usize>, k: int) -> Seq<usize> {
    match cell_merge(b[k + 1], b[k]) {
        Some(v) => b.update(k + 1, 0).update(k, v),
        None => b,
    }
}

/// The leftward sweep of one row: its three pairs examined from the trailing
/// (left) edge toward the leading (right) edge.
pub open spec fn sweep_row_left(b: Seq<usize>, row: int) -> Seq<usize> {
    sweep_pair_left(sweep_pair_left(sweep_pair_left(b, 4 * row), 4 * row + 1), 4 * row + 2)
}

/// Whether the leftward sweep changes the given row.
pub open spec fn row_changed_left(b: Seq<usize>, row: int) -> bool {
    ||| pair_fires_left(b, 4 * row)
    ||| pair_fires_left(sweep_pair_left(b, 4 * row), 4 * row + 1)
    ||| pair_fires_left(sweep_pair_left(sweep_pair_left(b, 4 * row), 4 * row + 1), 4 * row + 2)
}

/// The leftward sweep of the first `n` rows.
pub open spec fn sweep_rows_left(b: Seq<usize>, n: int) -> Seq<usize>
    decreases n,
{
    if n <= 0 {
        b
    } else {
        sweep_row_left(sweep_rows_left(b, n - 1), n - 1)
    }
}

/// The leftward sweep of the whole board.
pub open spec fn sweep_board_left(b: Seq<usize>) -> Seq<usize> {
    sweep_rows_left(b, 4)
}

/// Merges one examined cell pair, `fst` leading and `snd` trailing: a card
/// slides into an empty trailing cell, the pair {1, 2} makes a 3, and equal
/// values other than two 1s or two 2s make their sum. Two empty cells yield
/// nothing: a pair merges only when doing so changes a cell.
pub fn merge(fst: usize, snd: usize) -> (r: Option<usize>)
    requires
        fst == snd ==> fst + fst <= usize::MAX,
    ensures
        r == cell_merge(fst, snd),
{
    if snd == 0 {
        if fst == 0 {
            None
        } else {
            Some(fst)
        }
    } else if (fst == 1 && snd == 1) || (fst == 2 && snd == 2) {
        None
    } else if (fst == 1 && snd == 2) || (fst == 2 && snd == 1) {
        Some(3)
    } else if fst == snd {
        Some(fst + snd)
    } else {
        None
    }
}

/// The rightward sweep of one row, in place; reports whether any pair fired.
fn sweep_row_right_exec(cells: &mut Vec<usize>, row: usize) -> (changed: bool)
    requires
        old(cells)@.len() == 16,
        row < 4,
        forall|c: int|
            0 <= c < 4 ==> old(cells)@[4 * row + c] == 0 || is_ladder(
                #[trigger] old(cells)@[4 * row + c],
            ),
    ensures
        final(cells)@ == sweep_row_right(old(cells)@, row as int),
        changed == row_changed_right(old(cells)@, row as int),
{
    let base = 4 * row;
    let mut changed = false;
    let m2 = merge(cells[base + 2], cells[base + 3]);
    if let Some(v) = m2 {
        cells.set(base + 2, 0);
        cells.set(base + 3, v);
        changed = true;
    }
    proof {
        assert(cells@ == sweep_pair_right(old(cells)@, base as int + 2));
    }
    let m1 = merge(cells[base + 1], cells[base + 2]);
    if let Some(v) = m1 {
        cells.set(base + 1, 0);
        cells.set(base + 2, v);
        changed = true;
    }
    proof {
        assert(cells@ == sweep_pair_right(
            sweep_pair_right(old(cells)@, base as int + 2),
            base as int + 1,
        ));
    }
    let m0 = merge(cells[base], cells[base + 1]);
    if let Some(v) = m0 {
        cells.set(base, 0);
        cells.set(base + 1, v);
        changed = true;
    }
    changed
}

/// The leftward sweep of one row, in place; reports whether any pair fired.
fn sweep_row_left_exec(cells: &mut Vec<usize>, row: usize) -> (changed: bool)
    requires
        old(cells)@.len() == 16,
        row < 4,
        forall|c: int|
            0 <= c < 4 ==> old(cells)@[4 * row + c] == 0 || is_ladder(
                #[trigger] old(cells)@[4 * row + c],
            ),
    ensures
        final(cells)@ == sweep_row_left(old(cells)@, row as int),
        changed == row_changed_left(old(cells)@, row as int),
{
    let base = 4 * row;
    let mut changed = false;
    let m0 = merge(cells[base + 1], cells[base]);
    if let Some(v) = m0 {
        cells.set(base + 1, 0);
        cells.set(base, v);
        changed = true;
    }
    proof {
        assert(cells@ == sweep_pair_left(old(cells)@, base as int));
    }
    let m1 = merge(cells[base + 2], cells[base + 1]);
    if let Some(v) = m1 {
        cells.set(base + 2, 0);
        cells.set(base + 1, v);
        changed = true;
    }
    proof {
        assert(cells@ == sweep_pair_left(
            sweep_pair_left(old(cells)@, base as int),
            base as int + 1,
        ));
    }
    let m2 = merge(cells[base + 3], cells[base + 2]);
    if let Some(v) = m2 {
        cells.set(base + 3, 0);
        cells.set(base + 2, v);
        changed = true;
    }
    changed
}

/// A row sweep leaves every cell outside its own row as it was.
pub(crate) proof fn lemma_sweep_row_right_frame(b: Seq<usize>, row: int)
    requires
        spec_grid(b),
        0 <= row < 4,
    ensures
        sweep_row_right(b, row).len() == 16,
        forall|i: int|
            0 <= i < 16 && !(4 * row <= i < 4 * row + 4) ==> #[trigger] sweep_row_right(b, row)[i]
                == b[i],
{
}

/// A row sweep leaves every cell outside its own row as it was.
pub(crate) proof fn lemma_sweep_row_left_frame(b: Seq<usize>, row: int)
    requires
        spec_grid(b),
        0 <= row < 4,
    ensures
        sweep_row_left(b, row).len() == 16,
        forall|i: int|
            0 <= i < 16 && !(4 * row <= i < 4 * row + 4) ==> #[trigger] sweep_row_left(b, row)[i]
                == b[i],
{
}

/// Whether a row changes under the rightward sweep depends only on that row's
/// own cells.
pub(crate) proof fn lemma_row_changed_right_local(b1: Seq<usize>, b2: Seq<usize>, row: int)
    requires
        spec_grid(b1),
        spec_grid(b2),
        0 <= row < 4,
        forall|i: int| 4 * row <= i < 4 * row + 4 ==> b1[i] == #[trigger] b2[i],
    ensures
        row_changed_right(b1, row) == row_changed_right(b2, row),
{
    let k0 = 4 * row;
    let k1 = 4 * row + 1;
    let k2 = 4 * row + 2;
    assert(b1[k0] == b2[k0] && b1[k1] == b2[k1] && b1[k2] == b2[k2] && b1[k2 + 1] == b2[k2 + 1]);
    let c1 = sweep_pair_right(b1, k2);
    let c2 = sweep_pair_right(b2, k2);
    assert(c1[k1] == c2[k1] && c1[k1 + 1] == c2[k1 + 1] && c1[k0] == c2[k0]);
    let d1 = sweep_pair_right(c1, k1);
    let d2 = sweep_pair_right(c2, k1);
    assert(d1[k0] == d2[k0] && d1[k0 + 1] == d2[k0 + 1]);
}

/// Whether a row changes under the leftward sweep depends only on that row's
/// own cells.
pub(crate) proof fn lemma_row_changed_left_local(b1: Seq<usize>, b2: Seq<usize>, row: int)
    requires
        spec_grid(b1),
        spec_grid(b2),
        0 <= row < 4,
        forall|i: int| 4 * row <= i < 4 * row + 4 ==> b1[i] == #[trigger] b2[i],
    ensures
        row_changed_left(b1, row) == row_changed_left(b2, row),
{
    let k0 = 4 * row;
    let k1 = 4 * row + 1;
    let k2 = 4 * row + 2;
    assert(b1[k0] == b2[k0] && b1[k1] == b2[k1] && b1[k2] == b2[k2] && b1[k2 + 1] == b2[k2 + 1]);
    let c1 = sweep_pair_left(b1, k0);
    let c2 = sweep_pair_left(b2, k0);
    assert(c1[k1] == c2[k1] && c1[k1 + 1] == c2[k1 + 1] && c1[k2 + 1] == c2[k2 + 1]);
    let d1 = sweep_pair_left(c1, k1);
    let d2 = sweep_pair_left(c2, k1);
    assert(d1[k2] == d2[k2] && d1[k2 + 1] == d2[k2 + 1]);
}

/// Resolves a rightward move: sweeps every row toward the right edge; when no
/// row changes the move is illegal and nothing is returned; otherwise one
/// changed row is chosen uniformly at random and the new card is placed in
/// that row's vacated leading (left-edge) cell.
pub fn resolve_right(board: &Board, rng: &mut rand::rngs::ThreadRng, new_card: usize) -> (r: Option<
    Board,
>)
    requires
        board.wf(),
        all_cards(board@),
        is_ladder(new_card),
    ensures
        r is None <==> (forall|row: int| 0 <= row < 4 ==> !row_changed_right(board@, row)),
        r is Some ==> r->0.wf() && (exists|row: int|
            0 <= row < 4 && #[trigger] row_changed_right(board@, row) && r->0@ == sweep_board_right(
                board@,
            ).update(4 * row, new_card)),
{
    let mut cells = board.to_vec();
    let mut changed_rows: Vec<usize> = Vec::new();
    let mut row: usize = 0;
    while row < 4
        invariant
            board.wf(),
            all_cards(board@),
            row <= 4,
            cells@.len() == 16,
            cells@ == sweep_rows_right(board@, row as int),
            forall|i: int| 4 * row <= i < 16 ==> cells@[i] == board@[i],
            forall|t: int|
                0 <= t < changed_rows@.len() ==> #[trigger] changed_rows@[t] < row
                    && row_changed_right(board@, changed_rows@[t] as int),
            forall|j: int|
                0 <= j < row && #[trigger] row_changed_right(board@, j) ==> changed_rows@.contains(
                    j as usize,
                ),
        decreases 4 - row,
    {
        let ghost pre = cells@;
        let changed = sweep_row_right_exec(&mut cells, row);
        proof {
            lemma_sweep_row_right_frame(pre, row as int);
            lemma_row_changed_right_local(pre, board@, row as int);
            assert(cells@ == sweep_rows_right(board@, row as int + 1));
        }
        let ghost cpre = changed_rows@;
        if changed {
            changed_rows.push(row);
        }
        proof {
            assert forall|j: int|
                0 <= j < row + 1 && #[trigger] row_changed_right(board@, j) implies changed_rows@
                .contains(j as usize) by {
                if j < row {
                    let t = choose|t: int| 0 <= t < cpre.len() && cpre[t] == j as usize;
                    assert(changed_rows@[t] == j as usize);
                } else {
                    assert(changed_rows@[cpre.len() as int] == row);
                }
            }
        }
        row = row + 1;
    }
    let picked = pick_uniform(&changed_rows, rng);
    match picked {
        None => {
            proof {
                assert forall|row: int| 0 <= row < 4 implies !row_changed_right(board@, row) by {
                    if row_changed_right(board@, row) {
                        assert(changed_rows@.contains(row as usize));
                    }
                }
            }
            None
        },
        Some(pick) => {
            proof {
                let t = choose|t: int| 0 <= t < changed_rows@.len() && changed_rows@[t] == pick;
                assert(pick < 4 && row_changed_right(board@, pick as int));
            }
            cells.set(4 * pick, new_card);
            Some(Board::from_cells(cells))
        },
    }
}

/// Resolves a leftward move, the mirror image of the rightward one: the new
/// card is placed in the chosen row's vacated leading (right-edge) cell.
pub fn resolve_left(board: &Board, rng: &mut rand::rngs::ThreadRng, new_card: usize) -> (r: Option<
    Board,
>)
    requires
        board.wf(),
        all_cards(board@),
        is_ladder(new_card),
    ensures
        r is None <==> (forall|row: int| 0 <= row < 4 ==> !row_changed_left(board@, row)),
        r is Some ==> r->0.wf() && (exists|row: int|
            0 <= row < 4 && #[trigger] row_changed_left(board@, row) && r->0@ == sweep_board_left(
                board@,
            ).update(4 * row + 3, new_card)),
{
    let mut cells = board.to_vec();
    let mut changed_rows: Vec<usize> = Vec::new();
    let mut row: usize = 0;
    while row < 4
        invariant
            board.wf(),
            all_cards(board@),
            row <= 4,
            cells@.len() == 16,
            cells@ == sweep_rows_left(board@, row as int),
            forall|i: int| 4 * row <= i < 16 ==> cells@[i] == board@[i],
            forall|t: int|
                0 <= t < changed_rows@.len() ==> #[trigger] changed_rows@[t] < row
                    && row_changed_left(board@, changed_rows@[t] as int),
            forall|j: int|
                0 <= j < row && #[trigger] row_changed_left(board@, j) ==> changed_rows@.contains(
                    j as usize,
                ),
        decreases 4 - row,
    {
        let ghost pre = cells@;
        let changed = sweep_row_left_exec(&mut cells, row);
        proof {
            lemma_sweep_row_left_frame(pre, row as int);
            lemma_row_changed_left_local(pre, board@, row as int);
            assert(cells@ == sweep_rows_left(board@, row as int + 1));
        }
        let ghost cpre = changed_rows@;
        if changed {
            changed_rows.push(row);
        }
        proof {
            assert forall|j: int|
                0 <= j < row + 1 && #[trigger] row_changed_left(board@, j) implies changed_rows@
                .contains(j as usize) by {
                if j < row {
                    let t = choose|t: int| 0 <= t < cpre.len() && cpre[t] == j as usize;
                    assert(changed_rows@[t] == j as usize);
                } else {
                    assert(changed_rows@[cpre.len() as int] == row);
                }
            }
        }
        row = row + 1;
    }
    let picked = pick_uniform(&changed_rows, rng);
    match picked {
        None => {
            proof {
                assert forall|row: int| 0 <= row < 4 implies !row_changed_left(board@, row) by {
                    if row_changed_left(board@, row) {
                        assert(changed_rows@.contains(row as usize));
                    }
                }
            }
            None
        },
        Some(pick) => {
            proof {
                let t = choose|t: int| 0 <= t < changed_rows@.len() && changed_rows@[t] == pick;
                assert(pick < 4 && row_changed_left(board@, pick as int));
            }
            cells.set(4 * pick + 3, new_card);
            Some(Board::from_cells(cells))
        },
    }
}

/// Resolves an upward move: rotate clockwise, run the rightward sweep, rotate
/// the result back counter-clockwise.
pub fn resolve_up(board: &Board, rng: &mut rand::rngs::ThreadRng, new_card: usize) -> (r: Option<
    Board,
>)
    requires
        board.wf(),
        all_cards(board@),
        is_ladder(new_card),
    ensures
        r is None <==> (forall|row: int|
            0 <= row < 4 ==> !row_changed_right(spec_rotate_cw(board@), row)),
        r is Some ==> r->0.wf() && (exists|row: int|
            0 <= row < 4 && #[trigger] row_changed_right(spec_rotate_cw(board@), row) && r->0@
                == spec_rotate_ccw(
                sweep_board_right(spec_rotate_cw(board@)).update(4 * row, new_card),
            )),
{
    proof {
        crate::board::lemma_rotate_all_cards(board@);
    }
    let rotated = rotate_90_clockwise(board);
    match resolve_right(&rotated, rng, new_card) {
        None => None,
        Some(resolved) => Some(rotate_90_counter_clockwise(&resolved)),
    }
}

/// Resolves a downward move: rotate counter-clockwise, run the rightward
/// sweep, rotate the result back clockwise.
pub fn resolve_down(board: &Board, rng: &mut rand::rngs::ThreadRng, new_card: usize) -> (r: Option<
    Board,
>)
    requires
        board.wf(),
        all_cards(board@),
        is_ladder(new_card),
    ensures
        r is None <==> (forall|row: int|
            0 <= row < 4 ==> !row_changed_right(spec_rotate_ccw(board@), row)),
        r is Some ==> r->0.wf() && (exists|row: int|
            0 <= row < 4 && #[trigger] row_changed_right(spec_rotate_ccw(board@), row) && r->0@
                == spec_rotate_cw(
                sweep_board_right(spec_rotate_ccw(board@)).update(4 * row, new_card),
            )),
{
    proof {
        crate::board::lemma_rotate_all_cards(board@);
    }
    let rotated = rotate_90_counter_clockwise(board);
    match resolve_right(&rotated, rng, new_card) {
        None => None,
        Some(resolved) => Some(rotate_90_clockwise(&resolved)),
    }
}

} // verus!
