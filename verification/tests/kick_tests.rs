use tetrust::board::Board;
use tetrust::kick::{get_kick_values, try_rotate};
use tetrust::piece::{piece_cells, ActivePiece, GridPos, PieceType, RotationState};

fn t_at(row: i32, col: i32) -> ActivePiece {
    ActivePiece { kind: PieceType::T, rot: RotationState::Zero, anchor_row: row, anchor_col: col }
}

#[test]
fn open_board_rotation_uses_the_null_kick() {
    let b = Board::new();
    let p = t_at(5, 5);
    let q = try_rotate(&b, &p, true).expect("rotation must succeed on an open board");
    assert_eq!(q.rot, RotationState::R);
    assert_eq!(q.anchor_row, 5);
    assert_eq!(q.anchor_col, 5);
}

#[test]
fn four_clockwise_turns_restore_the_piece() {
    let b = Board::new();
    let mut p = t_at(5, 5);
    let start_cells: Vec<GridPos> = piece_cells(&p);
    for _ in 0..4 {
        p = try_rotate(&b, &p, true).expect("each turn succeeds on an open board");
    }
    assert_eq!(p.rot, RotationState::Zero);
    assert_eq!(piece_cells(&p), start_cells);
}

#[test]
fn four_counterclockwise_turns_restore_the_piece() {
    let b = Board::new();
    let mut p = ActivePiece {
        kind: PieceType::Straight,
        rot: RotationState::Zero,
        anchor_row: 10,
        anchor_col: 5,
    };
    let start_cells = piece_cells(&p);
    for _ in 0..4 {
        p = try_rotate(&b, &p, false).expect("each turn succeeds on an open board");
    }
    assert_eq!(p.rot, RotationState::Zero);
    assert_eq!(piece_cells(&p), start_cells);
}

#[test]
fn kick_resolution_is_deterministic() {
    let b1 = Board::new();
    let b2 = Board::new();
    let p = t_at(1, 0);
    let r1 = try_rotate(&b1, &p, false);
    let r2 = try_rotate(&b2, &p, false);
    assert_eq!(r1, r2);
    for _ in 0..10 {
        assert_eq!(try_rotate(&b1, &p, false), r1);
    }
}

#[test]
fn wall_kick_takes_the_first_fitting_entry() {
    // A T against the left wall turned counterclockwise: the null kick puts
    // a cell at column -1, so the second table entry (one column right) wins.
    let b = Board::new();
    let p = t_at(1, 0);
    let q = try_rotate(&b, &p, false).expect("the wall kick must rescue this turn");
    assert_eq!(q.rot, RotationState::L);
    assert_eq!(q.anchor_col, 1);
    assert_eq!(q.anchor_row, 1);
}

#[test]
fn blocked_rotation_is_rejected() {
    // Box the piece in so that no kick can fit the turned shape.
    let mut b = Board::new();
    let mut id = 0;
    for r in 0..20 {
        for base in [0, 4] {
            let cols: Vec<GridPos> =
                (base..base + 4).map(|c| GridPos { row: r, col: c }).collect();
            b.place_cells(&cols, id);
            id += 4;
        }
    }
    // Only columns 8 and 9 are open; a vertical Straight there cannot turn.
    let p = ActivePiece {
        kind: PieceType::Straight,
        rot: RotationState::R,
        anchor_row: 10,
        anchor_col: 8,
    };
    assert!(try_rotate(&b, &p, true).is_none());
    assert!(try_rotate(&b, &p, false).is_none());
}

#[test]
fn kick_tables_have_five_entries_and_null_first() {
    let kinds = [PieceType::Straight, PieceType::T, PieceType::Square];
    let states = [RotationState::Zero, RotationState::R, RotationState::Two, RotationState::L];
    for kind in kinds {
        for from in states {
            for cw in [true, false] {
                let kicks = get_kick_values(kind, from, cw);
                assert_eq!(kicks.len(), 5);
                assert_eq!(kicks[0], (0, 0));
            }
        }
    }
    // Spot-check two rows against the catalog.
    assert_eq!(
        get_kick_values(PieceType::T, RotationState::Zero, true),
        vec![(0, 0), (-1, 0), (-1, 1), (0, -2), (-1, -2)]
    );
    assert_eq!(
        get_kick_values(PieceType::Straight, RotationState::Zero, true),
        vec![(0, 0), (-2, 0), (1, 0), (-2, -1), (1, 2)]
    );
}
