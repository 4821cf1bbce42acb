use threes::board::{rotate_90_clockwise, rotate_90_counter_clockwise, Board};
use threes::moves::{merge, resolve_down, resolve_left, resolve_right, resolve_up};

fn cells_of(board: &Board) -> Vec<usize> {
    board.to_vec()
}

fn full_unmergeable() -> Vec<usize> {
    // Alternating 1s and 3s: no two adjacent cells merge in any row or column.
    vec![
        1, 3, 1, 3,
        3, 1, 3, 1,
        1, 3, 1, 3,
        3, 1, 3, 1,
    ]
}

#[test]
fn new_board_is_empty() {
    let board = Board::new();
    for row in 0..4 {
        for col in 0..4 {
            assert_eq!(0, board.get(row, col));
        }
    }
}

#[test]
fn set_cell_writes_one_cell() {
    let mut board = Board::new();
    board.set_cell(2, 1, 6);
    assert_eq!(6, board.get(2, 1));
    assert_eq!(0, board.get(1, 2));
}

#[test]
fn merge_moves_a_card_into_an_empty_cell() {
    assert_eq!(Some(5), merge(5, 0));
    assert_eq!(None, merge(0, 5));
    assert_eq!(None, merge(0, 0));
    assert_eq!(None, merge(1, 1));
    assert_eq!(None, merge(2, 2));
    assert_eq!(Some(3), merge(1, 2));
    assert_eq!(Some(3), merge(2, 1));
    assert_eq!(Some(6), merge(3, 3));
    assert_eq!(None, merge(3, 6));
}

#[test]
fn rotations_move_cells_as_a_quarter_turn() {
    let cells: Vec<usize> = (0..16).collect();
    let board = Board::from_cells(cells);
    let cw = rotate_90_clockwise(&board);
    // New cell [r][c] takes the old [3 - c][r].
    for r in 0..4 {
        for c in 0..4 {
            assert_eq!(board.get(3 - c, r), cw.get(r, c));
        }
    }
    let back = rotate_90_counter_clockwise(&cw);
    assert_eq!(cells_of(&board), cells_of(&back));
    let ccw = rotate_90_counter_clockwise(&board);
    let back2 = rotate_90_clockwise(&ccw);
    assert_eq!(cells_of(&board), cells_of(&back2));
}

#[test]
fn unchanged_sweep_is_an_illegal_move() {
    // No row changes under any direction: resolve reports an illegal move and
    // the input board is untouched.
    let board = Board::from_cells(full_unmergeable());
    let mut rng = rand::thread_rng();
    assert!(resolve_right(&board, &mut rng, 3).is_none());
    assert_eq!(full_unmergeable(), cells_of(&board));
}

#[test]
fn boards_where_nothing_moves_have_no_legal_move() {
    // Nothing can move on an empty board, and an all-empty row among settled
    // rows moves nothing either: no direction is legal.
    let empty = Board::new();
    let mut rng = rand::thread_rng();
    assert!(resolve_left(&empty, &mut rng, 3).is_none());
    assert!(resolve_right(&empty, &mut rng, 3).is_none());
    assert!(resolve_up(&empty, &mut rng, 3).is_none());
    assert!(resolve_down(&empty, &mut rng, 3).is_none());

    let empty_row = Board::from_cells(vec![
        0, 0, 0, 0,
        3, 1, 3, 1,
        1, 3, 1, 3,
        3, 1, 3, 1,
    ]);
    assert!(resolve_right(&empty_row, &mut rng, 3).is_none());
    assert!(resolve_left(&empty_row, &mut rng, 3).is_none());
}

#[test]
fn fully_occupied_unmergeable_board_is_terminal() {
    let board = Board::from_cells(full_unmergeable());
    let mut rng = rand::thread_rng();
    assert!(resolve_left(&board, &mut rng, 3).is_none());
    assert!(resolve_right(&board, &mut rng, 3).is_none());
    assert!(resolve_up(&board, &mut rng, 3).is_none());
    assert!(resolve_down(&board, &mut rng, 3).is_none());
}

#[test]
fn rightward_resolution_slides_and_spawns_in_the_changed_row() {
    // Only the first row changes; the drawn 3 must land in its vacated
    // left-edge cell.
    let board = Board::from_cells(vec![
        1, 2, 0, 0,
        3, 1, 3, 1,
        1, 3, 1, 3,
        3, 1, 3, 1,
    ]);
    let mut rng = rand::thread_rng();
    let resolved = resolve_right(&board, &mut rng, 3).unwrap();
    assert_eq!(
        vec![
            3, 1, 2, 0,
            3, 1, 3, 1,
            1, 3, 1, 3,
            3, 1, 3, 1,
        ],
        cells_of(&resolved)
    );
}

#[test]
fn rightward_resolution_merges_and_keeps_the_count_law() {
    // One real merge in the only changed row: occupied cells go from 16 to
    // 16 - 1 + 1 = 16.
    let board = Board::from_cells(vec![
        2, 2, 3, 3,
        3, 1, 3, 1,
        1, 3, 1, 3,
        3, 1, 3, 1,
    ]);
    let mut rng = rand::thread_rng();
    let resolved = resolve_right(&board, &mut rng, 1).unwrap();
    assert_eq!(
        vec![
            1, 2, 2, 6,
            3, 1, 3, 1,
            1, 3, 1, 3,
            3, 1, 3, 1,
        ],
        cells_of(&resolved)
    );
    let occupied = cells_of(&resolved).iter().filter(|&&v| v != 0).count();
    assert_eq!(16, occupied);
}

#[test]
fn leftward_resolution_mirrors_the_rightward_one() {
    let board = Board::from_cells(vec![
        0, 0, 2, 1,
        3, 1, 3, 1,
        1, 3, 1, 3,
        3, 1, 3, 1,
    ]);
    let mut rng = rand::thread_rng();
    let resolved = resolve_left(&board, &mut rng, 3).unwrap();
    assert_eq!(
        vec![
            0, 2, 1, 3,
            3, 1, 3, 1,
            1, 3, 1, 3,
            3, 1, 3, 1,
        ],
        cells_of(&resolved)
    );
}

#[test]
fn upward_resolution_goes_through_the_rotated_sweep() {
    // Only the first column changes; its cards slide up one step and the
    // drawn 6 lands in the vacated bottom cell.
    let board = Board::from_cells(vec![
        0, 1, 2, 1,
        0, 3, 3, 3,
        1, 1, 2, 1,
        3, 3, 3, 3,
    ]);
    let mut rng = rand::thread_rng();
    let resolved = resolve_up(&board, &mut rng, 6).unwrap();
    assert_eq!(
        vec![
            0, 1, 2, 1,
            1, 3, 3, 3,
            3, 1, 2, 1,
            6, 3, 3, 3,
        ],
        cells_of(&resolved)
    );
}

#[test]
fn downward_resolution_goes_through_the_rotated_sweep() {
    let board = Board::from_cells(vec![
        3, 1, 2, 1,
        1, 3, 3, 3,
        0, 1, 2, 1,
        0, 3, 3, 3,
    ]);
    let mut rng = rand::thread_rng();
    let resolved = resolve_down(&board, &mut rng, 6).unwrap();
    assert_eq!(
        vec![
            6, 1, 2, 1,
            3, 3, 3, 3,
            1, 1, 2, 1,
            0, 3, 3, 3,
        ],
        cells_of(&resolved)
    );
}

#[test]
fn random_placement_fills_an_empty_cell() {
    let mut cells = full_unmergeable();
    cells[9] = 0;
    let mut board = Board::from_cells(cells);
    let mut rng = rand::thread_rng();
    board.set_random_empty_cell(&mut rng, 12);
    assert_eq!(12, board.get(2, 1));
    assert_eq!(1, board.get(0, 0));
}
