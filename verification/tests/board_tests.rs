use tetrust::board::Board;
use tetrust::piece::GridPos;

fn place_row_19_cols(board: &mut Board, cols: [i32; 4], first_id: u64) {
    let cells: Vec<GridPos> = cols.iter().map(|&c| GridPos { row: 19, col: c }).collect();
    board.place_cells(&cells, first_id);
}

#[test]
fn fresh_board_is_empty_and_walled() {
    let b = Board::new();
    for r in 0..20 {
        for c in 0..10 {
            assert!(!b.is_occupied(r, c));
        }
    }
    // Walls and floor count as occupied; the sky above does not.
    assert!(b.is_occupied(5, -1));
    assert!(b.is_occupied(5, 10));
    assert!(b.is_occupied(20, 5));
    assert!(!b.is_occupied(-1, 5));
    assert!(!b.is_occupied(-3, 0));
}

#[test]
fn place_marks_exactly_the_given_cells() {
    let mut b = Board::new();
    let cells = vec![
        GridPos { row: 10, col: 2 },
        GridPos { row: 10, col: 3 },
        GridPos { row: 11, col: 2 },
        GridPos { row: 11, col: 3 },
    ];
    b.place_cells(&cells, 0);
    assert!(b.is_occupied(10, 2));
    assert!(b.is_occupied(10, 3));
    assert!(b.is_occupied(11, 2));
    assert!(b.is_occupied(11, 3));
    assert!(!b.is_occupied(10, 4));
    assert!(!b.is_occupied(12, 2));
    assert_eq!(b.cell(10, 2), Some(0));
    assert_eq!(b.cell(11, 3), Some(3));
    assert_eq!(b.cell(0, 0), None);
}

#[test]
fn full_rows_finds_complete_rows_only() {
    let mut b = Board::new();
    assert_eq!(b.full_rows(), Vec::<usize>::new());
    place_row_19_cols(&mut b, [0, 1, 2, 3], 0);
    place_row_19_cols(&mut b, [4, 5, 6, 7], 4);
    assert_eq!(b.full_rows(), Vec::<usize>::new());
    let rest = vec![
        GridPos { row: 19, col: 8 },
        GridPos { row: 19, col: 9 },
        GridPos { row: 18, col: 0 },
        GridPos { row: 18, col: 1 },
    ];
    b.place_cells(&rest, 8);
    assert_eq!(b.full_rows(), vec![19]);
}

#[test]
fn clear_and_shift_drops_rows_above() {
    let mut b = Board::new();
    place_row_19_cols(&mut b, [0, 1, 2, 3], 0);
    place_row_19_cols(&mut b, [4, 5, 6, 7], 4);
    let rest = vec![
        GridPos { row: 19, col: 8 },
        GridPos { row: 19, col: 9 },
        GridPos { row: 18, col: 0 },
        GridPos { row: 18, col: 1 },
    ];
    b.place_cells(&rest, 8);
    let full = b.full_rows();
    assert_eq!(full, vec![19]);
    b.clear_and_shift(&full);
    // The two blocks of row 18 land on row 19; everything else is empty.
    assert!(b.is_occupied(19, 0));
    assert!(b.is_occupied(19, 1));
    for c in 2..10 {
        assert!(!b.is_occupied(19, c));
    }
    for r in 0..19 {
        for c in 0..10 {
            assert!(!b.is_occupied(r, c));
        }
    }
    // The shifted cells keep their identity.
    assert_eq!(b.cell(19, 0), Some(10));
    assert_eq!(b.cell(19, 1), Some(11));
}

#[test]
fn clear_preserves_relative_order_of_survivors() {
    let mut b = Board::new();
    let cells = vec![
        GridPos { row: 5, col: 0 },
        GridPos { row: 9, col: 0 },
        GridPos { row: 15, col: 0 },
        GridPos { row: 19, col: 0 },
    ];
    b.place_cells(&cells, 0);
    // Clearing two middle rows shifts only what lies above them.
    b.clear_and_shift(&vec![7usize, 12usize]);
    assert!(!b.is_occupied(5, 0));
    assert!(b.is_occupied(7, 0)); // was row 5, two cleared rows below it
    assert!(b.is_occupied(10, 0)); // was row 9, one cleared row below it
    assert!(b.is_occupied(15, 0)); // below both cleared rows: unmoved
    assert!(b.is_occupied(19, 0));
    assert_eq!(b.cell(7, 0), Some(0));
    assert_eq!(b.cell(10, 0), Some(1));
}

#[test]
fn clearing_no_rows_is_a_noop() {
    let mut b = Board::new();
    let cells = vec![
        GridPos { row: 5, col: 3 },
        GridPos { row: 9, col: 4 },
        GridPos { row: 15, col: 5 },
        GridPos { row: 19, col: 6 },
    ];
    b.place_cells(&cells, 7);
    b.clear_and_shift(&Vec::new());
    assert_eq!(b.cell(5, 3), Some(7));
    assert_eq!(b.cell(9, 4), Some(8));
    assert_eq!(b.cell(15, 5), Some(9));
    assert_eq!(b.cell(19, 6), Some(10));
    let mut count = 0;
    for r in 0..20 {
        for c in 0..10 {
            if b.is_occupied(r, c) {
                count += 1;
            }
        }
    }
    assert_eq!(count, 4);
}

#[test]
fn clearing_four_rows_empties_them_all() {
    let mut b = Board::new();
    let mut id = 0;
    for r in [16, 17, 18, 19] {
        for base in [0, 4] {
            let cells: Vec<GridPos> =
                (base..base + 4).map(|c| GridPos { row: r, col: c }).collect();
            b.place_cells(&cells, id);
            id += 4;
        }
        let last = vec![
            GridPos { row: r, col: 8 },
            GridPos { row: r, col: 9 },
            GridPos { row: r - 10, col: 8 },
            GridPos { row: r - 10, col: 9 },
        ];
        b.place_cells(&last, id);
        id += 4;
    }
    let full = b.full_rows();
    assert_eq!(full, vec![16, 17, 18, 19]);
    b.clear_and_shift(&full);
    for r in 16..20 {
        for c in 0..8 {
            assert!(!b.is_occupied(r, c));
        }
    }
    // The sprinkled cells of rows 6..10 dropped four rows.
    for r in [10, 11, 12, 13] {
        assert!(b.is_occupied(r, 8));
        assert!(b.is_occupied(r, 9));
    }
}
