//! Conservation laws of move resolution: how many occupied cells a legal move
//! leaves behind, where the spawned card can land, and which boards are
//! terminal.

use vstd::prelude::*;

use crate::board::{all_cards, spec_grid, spec_rotate_ccw, spec_rotate_cw};
use crate::card::{is_ladder, spec_mergeable};
use crate::moves::{
    cell_merge, lemma_row_changed_left_local, lemma_row_changed_right_local,
    lemma_sweep_row_left_frame, lemma_sweep_row_right_frame, pair_fires_left, pair_fires_right,
    row_changed_left, row_changed_right, sweep_board_left, sweep_board_right, sweep_pair_left,
    sweep_pair_right, sweep_row_left, sweep_row_right, sweep_rows_left, sweep_rows_right,
};

verus! {

/// How many of the first `n` cells are occupied (non-empty).
pub open spec fn occupied_prefix(b: Seq<usize>, n: int) -> int
    decreases n,
{
    if n <= 0 {
        0
    } else {
        occupied_prefix(b, n - 1) + if b[n - 1] != 0 {
            1int
        } else {
            0int
        }
    }
}

/// How many of a grid's sixteen cells are occupied.
pub open spec fn occupied(b: Seq<usize>) -> int {
    occupied_prefix(b, 16)
}

/// Whether the examined pair at `k, k + 1` merges two cards under the
/// rightward sweep (a slide into an empty cell is not a merge).
pub open spec fn pair_merges_right(b: Seq<usize>, k: int) -> int {
    if b[k] != 0 && b[k + 1] != 0 && pair_fires_right(b, k) {
        1int
    } else {
        0int
    }
}

/// How many card merges the rightward sweep performs in the given row.
pub open spec fn row_merges_right(b: Seq<usize>, row: int) -> int {
    pair_merges_right(b, 4 * row + 2) + pair_merges_right(
        sweep_pair_right(b, 4 * row + 2),
        4 * row + 1,
    ) + pair_merges_right(
        sweep_pair_right(sweep_pair_right(b, 4 * row + 2), 4 * row + 1),
        4 * row,
    )
}

/// How many card merges the rightward sweep performs in the first `n` rows.
pub open spec fn rows_merges_right(b: Seq<usize>, n: int) -> int
    decreases n,
{
    if n <= 0 {
        0
    } else {
        rows_merges_right(b, n - 1) + row_merges_right(sweep_rows_right(b, n - 1), n - 1)
    }
}

/// How many card merges the rightward sweep of the whole board performs.
pub open spec fn merges_right(b: Seq<usize>) -> int {
    rows_merges_right(b, 4)
}

/// Whether the examined pair at `k, k + 1` merges two cards under the leftward
/// sweep.
pub open spec fn pair_merges_left(b: Seq<usize>, k: int) -> int {
    if b[k] != 0 && b[k + 1] != 0 && pair_fires_left(b, k) {
        1int
    } else {
        0int
    }
}

/// How many card merges the leftward sweep performs in the given row.
pub open spec fn row_merges_left(b: Seq<usize>, row: int) -> int {
    pair_merges_left(b, 4 * row) + pair_merges_left(sweep_pair_left(b, 4 * row), 4 * row + 1)
        + pair_merges_left(
        sweep_pair_left(sweep_pair_left(b, 4 * row), 4 * row + 1),
        4 * row + 2,
    )
}

/// How many card merges the leftward sweep performs in the first `n` rows.
pub open spec fn rows_merges_left(b: Seq<usize>, n: int) -> int
    decreases n,
{
    if n <= 0 {
        0
    } else {
        rows_merges_left(b, n - 1) + row_merges_left(sweep_rows_left(b, n - 1), n - 1)
    }
}

/// How many card merges the leftward sweep of the whole board performs.
pub open spec fn merges_left(b: Seq<usize>) -> int {
    rows_merges_left(b, 4)
}

/// Updating one cell changes the occupied count by the difference between the
/// new and the old cell's occupancy.
proof fn lemma_occupied_prefix_update(b: Seq<usize>, i: int, v: usize, n: int)
    requires
        0 <= i < b.len(),
        0 <= n <= b.len(),
    ensures
        occupied_prefix(b.update(i, v), n) == occupied_prefix(b, n) + if i < n {
            (if v != 0 {
                1int
            } else {
                0int
            }) - (if b[i] != 0 {
                1int
            } else {
                0int
            })
        } else {
            0int
        },
    decreases n,
{
    if n > 0 {
        lemma_occupied_prefix_update(b, i, v, n - 1);
    }
}

/// One pair step changes the occupied count by exactly the number of card
/// merges it performs: a slide moves a card, a merge joins two.
proof fn lemma_sweep_pair_right_count(b: Seq<usize>, k: int)
    requires
        b.len() == 16,
        0 <= k,
        k + 1 < 16,
        b[k] + b[k + 1] <= usize::MAX,
    ensures
        occupied(sweep_pair_right(b, k)) == occupied(b) - pair_merges_right(b, k),
{
    if cell_merge(b[k], b[k + 1]) is Some {
        let v = cell_merge(b[k], b[k + 1])->0;
        lemma_occupied_prefix_update(b, k, 0, 16);
        lemma_occupied_prefix_update(b.update(k, 0), k + 1, v, 16);
    }
}

/// The mirror of the pair-step count law for the leftward sweep.
proof fn lemma_sweep_pair_left_count(b: Seq<usize>, k: int)
    requires
        b.len() == 16,
        0 <= k,
        k + 1 < 16,
        b[k] + b[k + 1] <= usize::MAX,
    ensures
        occupied(sweep_pair_left(b, k)) == occupied(b) - pair_merges_left(b, k),
{
    if cell_merge(b[k + 1], b[k]) is Some {
        let v = cell_merge(b[k + 1], b[k])->0;
        lemma_occupied_prefix_update(b, k + 1, 0, 16);
        lemma_occupied_prefix_update(b.update(k + 1, 0), k, v, 16);
    }
}

/// A row's cells all hold cards or are empty.
pub open spec fn row_all_cards(b: Seq<usize>, row: int) -> bool {
    forall|i: int| 4 * row <= i < 4 * row + 4 ==> b[i] == 0 || is_ladder(#[trigger] b[i])
}

/// One row sweep removes exactly one occupied cell per card merge it performs.
proof fn lemma_sweep_row_right_count(b: Seq<usize>, row: int)
    requires
        spec_grid(b),
        0 <= row < 4,
        row_all_cards(b, row),
    ensures
        occupied(sweep_row_right(b, row)) == occupied(b) - row_merges_right(b, row),
{
    let k0 = 4 * row;
    let k1 = 4 * row + 1;
    let k2 = 4 * row + 2;
    let c = sweep_pair_right(b, k2);
    let d = sweep_pair_right(c, k1);
    assert(b[k2] <= 12288 && b[k2 + 1] <= 12288 && b[k1] <= 12288 && b[k0] <= 12288);
    lemma_sweep_pair_right_count(b, k2);
    assert(c[k1] == b[k1] && (c[k2] == 0 || c[k2] == b[k2]));
    lemma_sweep_pair_right_count(c, k1);
    assert(d[k0] == b[k0] && (d[k1] == 0 || d[k1] == c[k1]));
    lemma_sweep_pair_right_count(d, k0);
}

/// The mirror of the row count law for the leftward sweep.
proof fn lemma_sweep_row_left_count(b: Seq<usize>, row: int)
    requires
        spec_grid(b),
        0 <= row < 4,
        row_all_cards(b, row),
    ensures
        occupied(sweep_row_left(b, row)) == occupied(b) - row_merges_left(b, row),
{
    let k0 = 4 * row;
    let k1 = 4 * row + 1;
    let k2 = 4 * row + 2;
    let c = sweep_pair_left(b, k0);
    let d = sweep_pair_left(c, k1);
    assert(b[k0] <= 12288 && b[k1] <= 12288 && b[k2] <= 12288 && b[k2 + 1] <= 12288);
    lemma_sweep_pair_left_count(b, k0);
    assert(c[k2] == b[k2] && (c[k1] == 0 || c[k1] == b[k1]));
    lemma_sweep_pair_left_count(c, k1);
    assert(d[k2 + 1] == b[k2 + 1] && (d[k2] == 0 || d[k2] == c[k2]));
    lemma_sweep_pair_left_count(d, k2);
}

/// Sweeping the first `n` rows leaves every later cell as it was.
proof fn lemma_sweep_rows_right_frame(b: Seq<usize>, n: int)
    requires
        spec_grid(b),
        0 <= n <= 4,
    ensures
        sweep_rows_right(b, n).len() == 16,
        forall|i: int| 4 * n <= i < 16 ==> #[trigger] sweep_rows_right(b, n)[i] == b[i],
    decreases n,
{
    if n > 0 {
        lemma_sweep_rows_right_frame(b, n - 1);
        lemma_sweep_row_right_frame(sweep_rows_right(b, n - 1), n - 1);
    }
}

/// Sweeping the first `n` rows leaves every later cell as it was.
proof fn lemma_sweep_rows_left_frame(b: Seq<usize>, n: int)
    requires
        spec_grid(b),
        0 <= n <= 4,
    ensures
        sweep_rows_left(b, n).len() == 16,
        forall|i: int| 4 * n <= i < 16 ==> #[trigger] sweep_rows_left(b, n)[i] == b[i],
    decreases n,
{
    if n > 0 {
        lemma_sweep_rows_left_frame(b, n - 1);
        lemma_sweep_row_left_frame(sweep_rows_left(b, n - 1), n - 1);
    }
}

/// Sweeping the first `n` rows removes exactly one occupied cell per card
/// merge performed.
proof fn lemma_sweep_rows_right_count(b: Seq<usize>, n: int)
    requires
        spec_grid(b),
        all_cards(b),
        0 <= n <= 4,
    ensures
        occupied(sweep_rows_right(b, n)) == occupied(b) - rows_merges_right(b, n),
    decreases n,
{
    if n > 0 {
        lemma_sweep_rows_right_count(b, n - 1);
        lemma_sweep_rows_right_frame(b, n - 1);
        let s = sweep_rows_right(b, n - 1);
        assert(row_all_cards(s, n - 1));
        lemma_sweep_row_right_count(s, n - 1);
    }
}

/// Sweeping the first `n` rows removes exactly one occupied cell per card
/// merge performed.
proof fn lemma_sweep_rows_left_count(b: Seq<usize>, n: int)
    requires
        spec_grid(b),
        all_cards(b),
        0 <= n <= 4,
    ensures
        occupied(sweep_rows_left(b, n)) == occupied(b) - rows_merges_left(b, n),
    decreases n,
{
    if n > 0 {
        lemma_sweep_rows_left_count(b, n - 1);
        lemma_sweep_rows_left_frame(b, n - 1);
        let s = sweep_rows_left(b, n - 1);
        assert(row_all_cards(s, n - 1));
        lemma_sweep_row_left_count(s, n - 1);
    }
}

/// When the rightward sweep changes a row, the row's leading (left-edge) cell
/// ends empty: either the final pair fires and empties it, or every cell the
/// earlier firings left behind it was already empty.
proof fn lemma_changed_row_vacates_right(b: Seq<usize>, row: int)
    requires
        spec_grid(b),
        0 <= row < 4,
        row_changed_right(b, row),
    ensures
        sweep_row_right(b, row)[4 * row] == 0,
{
    let k0 = 4 * row;
    let k1 = 4 * row + 1;
    let k2 = 4 * row + 2;
    let c = sweep_pair_right(b, k2);
    let d = sweep_pair_right(c, k1);
    if pair_fires_right(d, k0) {
        assert(sweep_row_right(b, row)[k0] == 0);
    } else if pair_fires_right(c, k1) {
        // The middle pair fired and emptied cell k1; the final pair still did
        // not fire, which with an empty trailing cell means k0 was empty too.
        assert(d[k1] == 0);
        assert(d[k0] == 0);
        assert(sweep_row_right(b, row)[k0] == 0);
    } else {
        // Only the trailing pair fired: it emptied k2, and the two failed
        // pairs then force k1 and k0 empty in turn.
        assert(pair_fires_right(b, k2));
        assert(c[k2] == 0);
        assert(c[k1] == 0);
        assert(d[k0] == 0);
        assert(sweep_row_right(b, row)[k0] == 0);
    }
}

/// When the leftward sweep changes a row, the row's leading (right-edge) cell
/// ends empty: the mirror of the rightward vacancy argument.
proof fn lemma_changed_row_vacates_left(b: Seq<usize>, row: int)
    requires
        spec_grid(b),
        0 <= row < 4,
        row_changed_left(b, row),
    ensures
        sweep_row_left(b, row)[4 * row + 3] == 0,
{
    let k0 = 4 * row;
    let k1 = 4 * row + 1;
    let k2 = 4 * row + 2;
    let c = sweep_pair_left(b, k0);
    let d = sweep_pair_left(c, k1);
    if pair_fires_left(d, k2) {
        assert(sweep_row_left(b, row)[k2 + 1] == 0);
    } else if pair_fires_left(c, k1) {
        assert(d[k2] == 0);
        assert(d[k2 + 1] == 0);
        assert(sweep_row_left(b, row)[k2 + 1] == 0);
    } else {
        assert(pair_fires_left(b, k0));
        assert(c[k1] == 0);
        assert(c[k2] == 0);
        assert(d[k2 + 1] == 0);
        assert(sweep_row_left(b, row)[k2 + 1] == 0);
    }
}

/// Cells in the first `m` rows are settled once those rows are swept: sweeping
/// further rows does not touch them.
proof fn lemma_sweep_rows_right_settled(b: Seq<usize>, m: int, n: int, i: int)
    requires
        spec_grid(b),
        0 <= m <= n <= 4,
        0 <= i < 4 * m,
    ensures
        sweep_rows_right(b, n)[i] == sweep_rows_right(b, m)[i],
    decreases n - m,
{
    if n > m {
        lemma_sweep_rows_right_settled(b, m, n - 1, i);
        lemma_sweep_rows_right_frame(b, n - 1);
        lemma_sweep_row_right_frame(sweep_rows_right(b, n - 1), n - 1);
    }
}

/// Cells in the first `m` rows are settled once those rows are swept.
proof fn lemma_sweep_rows_left_settled(b: Seq<usize>, m: int, n: int, i: int)
    requires
        spec_grid(b),
        0 <= m <= n <= 4,
        0 <= i < 4 * m,
    ensures
        sweep_rows_left(b, n)[i] == sweep_rows_left(b, m)[i],
    decreases n - m,
{
    if n > m {
        lemma_sweep_rows_left_settled(b, m, n - 1, i);
        lemma_sweep_rows_left_frame(b, n - 1);
        lemma_sweep_row_left_frame(sweep_rows_left(b, n - 1), n - 1);
    }
}

/// Law: a legal rightward move vacates the chosen changed row's leading cell,
/// and after the spawned card is placed there the board holds exactly
/// (occupied cells before) - (card merges performed) + 1 occupied cells.
pub proof fn lemma_resolve_right_count(b: Seq<usize>, row: int, new_card: usize)
    requires
        spec_grid(b),
        all_cards(b),
        is_ladder(new_card),
        0 <= row < 4,
        row_changed_right(b, row),
    ensures
        sweep_board_right(b)[4 * row] == 0,
        occupied(sweep_board_right(b).update(4 * row, new_card)) == occupied(b) - merges_right(b)
            + 1,
{
    lemma_sweep_rows_right_count(b, 4);
    lemma_sweep_rows_right_frame(b, row);
    let s = sweep_rows_right(b, row);
    lemma_row_changed_right_local(s, b, row);
    lemma_changed_row_vacates_right(s, row);
    assert(sweep_rows_right(b, row + 1)[4 * row] == 0);
    lemma_sweep_rows_right_settled(b, row + 1, 4, 4 * row);
    lemma_sweep_rows_right_frame(b, 4);
    lemma_occupied_prefix_update(sweep_board_right(b), 4 * row, new_card, 16);
}

/// Law: the mirror statement for a legal leftward move, whose spawn cell is
/// the chosen row's right-edge cell.
pub proof fn lemma_resolve_left_count(b: Seq<usize>, row: int, new_card: usize)
    requires
        spec_grid(b),
        all_cards(b),
        is_ladder(new_card),
        0 <= row < 4,
        row_changed_left(b, row),
    ensures
        sweep_board_left(b)[4 * row + 3] == 0,
        occupied(sweep_board_left(b).update(4 * row + 3, new_card)) == occupied(b) - merges_left(b)
            + 1,
{
    lemma_sweep_rows_left_count(b, 4);
    lemma_sweep_rows_left_frame(b, row);
    let s = sweep_rows_left(b, row);
    lemma_row_changed_left_local(s, b, row);
    lemma_changed_row_vacates_left(s, row);
    assert(sweep_rows_left(b, row + 1)[4 * row + 3] == 0);
    lemma_sweep_rows_left_settled(b, row + 1, 4, 4 * row + 3);
    lemma_sweep_rows_left_frame(b, 4);
    lemma_occupied_prefix_update(sweep_board_left(b), 4 * row + 3, new_card, 16);
}

/// A quarter turn permutes the sixteen cells, so it keeps the occupied count.
#[verifier::rlimit(100)]
pub proof fn lemma_rotate_occupied(b: Seq<usize>)
    requires
        spec_grid(b),
    ensures
        occupied(spec_rotate_cw(b)) == occupied(b),
        occupied(spec_rotate_ccw(b)) == occupied(b),
{
    reveal_with_fuel(occupied_prefix, 17);
    let cw = spec_rotate_cw(b);
    let ccw = spec_rotate_ccw(b);
    assert(cw[0] == b[12] && cw[1] == b[8] && cw[2] == b[4] && cw[3] == b[0] && cw[4] == b[13]
        && cw[5] == b[9] && cw[6] == b[5] && cw[7] == b[1] && cw[8] == b[14] && cw[9] == b[10]
        && cw[10] == b[6] && cw[11] == b[2] && cw[12] == b[15] && cw[13] == b[11] && cw[14] == b[7]
        && cw[15] == b[3]);
    assert(ccw[0] == b[3] && ccw[1] == b[7] && ccw[2] == b[11] && ccw[3] == b[15] && ccw[4] == b[2]
        && ccw[5] == b[6] && ccw[6] == b[10] && ccw[7] == b[14] && ccw[8] == b[1] && ccw[9] == b[5]
        && ccw[10] == b[9] && ccw[11] == b[13] && ccw[12] == b[0] && ccw[13] == b[4] && ccw[14]
        == b[8] && ccw[15] == b[12]);
}

/// Law: a legal upward move obeys the same count law, with the merges counted
/// in the canonical sweep of the clockwise-rotated board.
pub proof fn lemma_resolve_up_count(b: Seq<usize>, row: int, new_card: usize)
    requires
        spec_grid(b),
        all_cards(b),
        is_ladder(new_card),
        0 <= row < 4,
        row_changed_right(spec_rotate_cw(b), row),
    ensures
        occupied(
            spec_rotate_ccw(sweep_board_right(spec_rotate_cw(b)).update(4 * row, new_card)),
        ) == occupied(b) - merges_right(spec_rotate_cw(b)) + 1,
{
    let rot = spec_rotate_cw(b);
    crate::board::lemma_rotate_all_cards(b);
    lemma_rotate_occupied(b);
    lemma_resolve_right_count(rot, row, new_card);
    lemma_sweep_rows_right_frame(rot, 4);
    let placed = sweep_board_right(rot).update(4 * row, new_card);
    lemma_rotate_occupied(placed);
}

/// Law: a legal downward move obeys the same count law, with the merges
/// counted in the canonical sweep of the counter-clockwise-rotated board.
pub proof fn lemma_resolve_down_count(b: Seq<usize>, row: int, new_card: usize)
    requires
        spec_grid(b),
        all_cards(b),
        is_ladder(new_card),
        0 <= row < 4,
        row_changed_right(spec_rotate_ccw(b), row),
    ensures
        occupied(
            spec_rotate_cw(sweep_board_right(spec_rotate_ccw(b)).update(4 * row, new_card)),
        ) == occupied(b) - merges_right(spec_rotate_ccw(b)) + 1,
{
    let rot = spec_rotate_ccw(b);
    crate::board::lemma_rotate_all_cards(b);
    lemma_rotate_occupied(b);
    lemma_resolve_right_count(rot, row, new_card);
    lemma_sweep_rows_right_frame(rot, 4);
    let placed = sweep_board_right(rot).update(4 * row, new_card);
    lemma_rotate_occupied(placed);
}

/// Law: a row counts as changed under the rightward sweep exactly when the
/// sweep really alters it: with no firing pair the sweep is the identity, and
/// any firing pair leaves some cell of the row different, since a pair fires
/// only with a card in its leading cell, which it empties.
pub proof fn lemma_row_changed_right_is_real(b: Seq<usize>, row: int)
    requires
        spec_grid(b),
        0 <= row < 4,
    ensures
        !row_changed_right(b, row) ==> sweep_row_right(b, row) == b,
        row_changed_right(b, row) ==> exists|i: int|
            4 * row <= i < 4 * row + 4 && #[trigger] sweep_row_right(b, row)[i] != b[i],
{
    let k0 = 4 * row;
    let k1 = 4 * row + 1;
    let k2 = 4 * row + 2;
    let c = sweep_pair_right(b, k2);
    let d = sweep_pair_right(c, k1);
    if row_changed_right(b, row) {
        if pair_fires_right(d, k0) {
            assert(d[k0] != 0 && d[k0] == b[k0]);
            assert(sweep_row_right(b, row)[k0] != b[k0]);
        } else if pair_fires_right(c, k1) {
            assert(c[k1] != 0 && c[k1] == b[k1]);
            assert(sweep_row_right(b, row)[k1] != b[k1]);
        } else {
            assert(pair_fires_right(b, k2));
            assert(b[k2] != 0);
            assert(sweep_row_right(b, row)[k2] != b[k2]);
        }
    }
}

/// Law: the mirror statement for the leftward sweep.
pub proof fn lemma_row_changed_left_is_real(b: Seq<usize>, row: int)
    requires
        spec_grid(b),
        0 <= row < 4,
    ensures
        !row_changed_left(b, row) ==> sweep_row_left(b, row) == b,
        row_changed_left(b, row) ==> exists|i: int|
            4 * row <= i < 4 * row + 4 && #[trigger] sweep_row_left(b, row)[i] != b[i],
{
    let k0 = 4 * row;
    let k1 = 4 * row + 1;
    let k2 = 4 * row + 2;
    let c = sweep_pair_left(b, k0);
    let d = sweep_pair_left(c, k1);
    if row_changed_left(b, row) {
        if pair_fires_left(d, k2) {
            assert(d[k2 + 1] != 0 && d[k2 + 1] == b[k2 + 1]);
            assert(sweep_row_left(b, row)[k2 + 1] != b[k2 + 1]);
        } else if pair_fires_left(c, k1) {
            assert(c[k2] != 0 && c[k2] == b[k2]);
            assert(sweep_row_left(b, row)[k2] != b[k2]);
        } else {
            assert(pair_fires_left(b, k0));
            assert(b[k1] != 0);
            assert(sweep_row_left(b, row)[k1] != b[k1]);
        }
    }
}

/// Every cell of the grid holds a card.
pub open spec fn fully_occupied(b: Seq<usize>) -> bool {
    forall|i: int| 0 <= i < 16 ==> b[i] != 0
}

/// No cell holds a card mergeable with its right-hand neighbour.
pub open spec fn no_horizontal_merge(b: Seq<usize>) -> bool {
    forall|i: int| 0 <= i < 16 && i % 4 < 3 ==> !spec_mergeable(#[trigger] b[i], b[i + 1])
}

/// No cell holds a card mergeable with the cell below it.
pub open spec fn no_vertical_merge(b: Seq<usize>) -> bool {
    forall|i: int| 0 <= i < 12 ==> !spec_mergeable(#[trigger] b[i], b[i + 4])
}

/// On a fully occupied board, a pair fires exactly when its two cards are
/// mergeable.
proof fn lemma_full_row_unchanged_right(b: Seq<usize>, row: int)
    requires
        spec_grid(b),
        0 <= row < 4,
        b[4 * row] != 0 && b[4 * row + 1] != 0 && b[4 * row + 2] != 0 && b[4 * row + 3] != 0,
        !spec_mergeable(b[4 * row], b[4 * row + 1]),
        !spec_mergeable(b[4 * row + 1], b[4 * row + 2]),
        !spec_mergeable(b[4 * row + 2], b[4 * row + 3]),
    ensures
        !row_changed_right(b, row),
        !row_changed_left(b, row),
{
    let k0 = 4 * row;
    let k1 = 4 * row + 1;
    let k2 = 4 * row + 2;
    assert(sweep_pair_right(b, k2) == b);
    assert(sweep_pair_right(sweep_pair_right(b, k2), k1) == b);
    assert(sweep_pair_left(b, k0) == b);
    assert(sweep_pair_left(sweep_pair_left(b, k0), k1) == b);
}

/// For a grid index split as `4 * row + c` with the column below 4, division
/// and remainder by 4 recover the row and the column.
proof fn lemma_row_col_index(row: int, c: int)
    requires
        0 <= row,
        0 <= c < 4,
    ensures
        (4 * row + c) / 4 == row,
        (4 * row + c) % 4 == c,
{
    assert((4 * row + c) / 4 == row && (4 * row + c) % 4 == c) by (nonlinear_arith)
        requires
            0 <= row,
            0 <= c < 4,
    ;
}

/// Law: a fully occupied board with no mergeable pair in any row or column is
/// terminal: no row of it changes under the rightward or leftward sweep, and no
/// row of either rotation changes under the canonical rightward sweep, so all
/// four directions resolve to nothing.
pub proof fn lemma_terminal_board(b: Seq<usize>)
    requires
        spec_grid(b),
        fully_occupied(b),
        no_horizontal_merge(b),
        no_vertical_merge(b),
    ensures
        forall|row: int| 0 <= row < 4 ==> !row_changed_right(b, row),
        forall|row: int| 0 <= row < 4 ==> !row_changed_left(b, row),
        forall|row: int| 0 <= row < 4 ==> !row_changed_right(spec_rotate_cw(b), row),
        forall|row: int| 0 <= row < 4 ==> !row_changed_right(spec_rotate_ccw(b), row),
{
    assert forall|row: int| 0 <= row < 4 implies !row_changed_right(b, row) && !row_changed_left(
        b,
        row,
    ) by {
        lemma_row_col_index(row, 0);
        lemma_row_col_index(row, 1);
        lemma_row_col_index(row, 2);
        assert(b[4 * row] != 0 && b[4 * row + 1] != 0 && b[4 * row + 2] != 0 && b[4 * row + 3]
            != 0);
        assert(!spec_mergeable(b[4 * row], b[4 * row + 1]) && !spec_mergeable(
            b[4 * row + 1],
            b[4 * row + 2],
        ) && !spec_mergeable(b[4 * row + 2], b[4 * row + 3]));
        lemma_full_row_unchanged_right(b, row);
    }
    let cw = spec_rotate_cw(b);
    let ccw = spec_rotate_ccw(b);
    assert forall|row: int| 0 <= row < 4 implies !row_changed_right(cw, row) && !row_changed_right(
        ccw,
        row,
    ) by {
        assert forall|c: int| 0 <= c < 4 implies #[trigger] cw[4 * row + c] == b[4 * (3 - c) + row]
            && ccw[4 * row + c] == b[4 * c + (3 - row)] by {
            lemma_row_col_index(row, c);
        }
        assert(cw[4 * row] != 0 && cw[4 * row + 1] != 0 && cw[4 * row + 2] != 0 && cw[4 * row + 3]
            != 0);
        assert forall|c: int| 0 <= c < 3 implies !spec_mergeable(
            cw[4 * row + c],
            #[trigger] cw[4 * row + c + 1],
        ) by {
            let i = 4 * (2 - c) + row;
            assert(0 <= i < 12);
            assert(!spec_mergeable(b[i], b[i + 4]));
            assert(b[i + 4] == cw[4 * row + c] && b[i] == cw[4 * row + c + 1]);
        }
        lemma_full_row_unchanged_right(cw, row);
        assert(ccw[4 * row] != 0 && ccw[4 * row + 1] != 0 && ccw[4 * row + 2] != 0 && ccw[4 * row
            + 3] != 0);
        assert forall|c: int| 0 <= c < 3 implies !spec_mergeable(
            ccw[4 * row + c],
            #[trigger] ccw[4 * row + c + 1],
        ) by {
            let i = 4 * c + (3 - row);
            assert(0 <= i < 12);
            assert(!spec_mergeable(b[i], b[i + 4]));
            assert(b[i] == ccw[4 * row + c] && b[i + 4] == ccw[4 * row + c + 1]);
        }
        lemma_full_row_unchanged_right(ccw, row);
    }
}

} // verus!
