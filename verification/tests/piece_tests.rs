use tetrust::piece::{get_rotation_state, piece_cells, spawn_piece, ActivePiece, GridPos, PieceType, RotationState};

fn cells_of(p: &ActivePiece) -> Vec<(i32, i32)> {
    piece_cells(p).iter().map(|c| (c.row, c.col)).collect()
}

#[test]
fn every_kind_spawns_four_cells() {
    let kinds = [
        PieceType::Straight,
        PieceType::L,
        PieceType::ReverseL,
        PieceType::T,
        PieceType::Z,
        PieceType::ReverseZ,
        PieceType::Square,
    ];
    for kind in kinds {
        let p = spawn_piece(kind, 0);
        let cells = piece_cells(&p);
        assert_eq!(cells.len(), 4);
        assert_eq!(p.rot, RotationState::Zero);
    }
}

#[test]
fn spawn_cells_match_catalog() {
    assert_eq!(
        cells_of(&spawn_piece(PieceType::Straight, 0)),
        vec![(0, 6), (0, 7), (0, 5), (0, 4)]
    );
    assert_eq!(
        cells_of(&spawn_piece(PieceType::L, 0)),
        vec![(1, 5), (1, 6), (1, 4), (0, 6)]
    );
    assert_eq!(
        cells_of(&spawn_piece(PieceType::ReverseL, 0)),
        vec![(1, 5), (1, 6), (1, 4), (0, 4)]
    );
    assert_eq!(
        cells_of(&spawn_piece(PieceType::T, 0)),
        vec![(1, 5), (0, 5), (1, 6), (1, 4)]
    );
    assert_eq!(
        cells_of(&spawn_piece(PieceType::Z, 0)),
        vec![(1, 5), (0, 5), (0, 6), (1, 4)]
    );
    assert_eq!(
        cells_of(&spawn_piece(PieceType::ReverseZ, 0)),
        vec![(1, 5), (0, 5), (0, 4), (1, 6)]
    );
    assert_eq!(
        cells_of(&spawn_piece(PieceType::Square, 0)),
        vec![(1, 4), (1, 5), (0, 4), (0, 5)]
    );
}

#[test]
fn raised_spawn_lifts_every_cell() {
    let p = spawn_piece(PieceType::T, 2);
    assert_eq!(cells_of(&p), vec![(-1, 5), (-2, 5), (-1, 6), (-1, 4)]);
}

#[test]
fn rotation_state_cycles_in_four_steps() {
    let mut r = RotationState::Zero;
    let mut seen = Vec::new();
    for _ in 0..4 {
        r = get_rotation_state(r, true);
        seen.push(r);
    }
    assert_eq!(
        seen,
        vec![RotationState::R, RotationState::Two, RotationState::L, RotationState::Zero]
    );
    let mut l = RotationState::Zero;
    for _ in 0..4 {
        l = get_rotation_state(l, false);
    }
    assert_eq!(l, RotationState::Zero);
    assert_eq!(
        get_rotation_state(get_rotation_state(RotationState::R, true), false),
        RotationState::R
    );
}

#[test]
fn rotated_t_cells() {
    // A T piece one quarter turn clockwise points right: pivot, right, down, up.
    let p = ActivePiece { kind: PieceType::T, rot: RotationState::R, anchor_row: 5, anchor_col: 5 };
    assert_eq!(cells_of(&p), vec![(5, 5), (5, 6), (6, 5), (4, 5)]);
}

#[test]
fn square_rotation_occupies_same_cells() {
    let zero = ActivePiece { kind: PieceType::Square, rot: RotationState::Zero, anchor_row: 5, anchor_col: 5 };
    let one = ActivePiece { kind: PieceType::Square, rot: RotationState::R, anchor_row: 5, anchor_col: 5 };
    let mut a = cells_of(&zero);
    let mut b = cells_of(&one);
    a.sort();
    b.sort();
    assert_eq!(a, b);
}

#[test]
fn grid_pos_equality() {
    assert_eq!(GridPos { row: 3, col: 4 }, GridPos { row: 3, col: 4 });
    assert_ne!(GridPos { row: 3, col: 4 }, GridPos { row: 4, col: 3 });
}
