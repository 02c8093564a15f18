use tetrust::piece::PieceType;
use tetrust::rng::{get_random_piece, piece_from_index};

#[test]
fn indices_name_the_seven_kinds() {
    assert_eq!(piece_from_index(0), PieceType::Straight);
    assert_eq!(piece_from_index(1), PieceType::L);
    assert_eq!(piece_from_index(2), PieceType::ReverseL);
    assert_eq!(piece_from_index(3), PieceType::T);
    assert_eq!(piece_from_index(4), PieceType::Z);
    assert_eq!(piece_from_index(5), PieceType::ReverseZ);
    assert_eq!(piece_from_index(6), PieceType::Square);
}

#[test]
fn random_draws_always_land_in_the_catalog() {
    // The draw never fails and never leaves the seven-entry catalog.
    for _ in 0..200 {
        let p = get_random_piece();
        let idx = match p {
            PieceType::Straight => 0,
            PieceType::L => 1,
            PieceType::ReverseL => 2,
            PieceType::T => 3,
            PieceType::Z => 4,
            PieceType::ReverseZ => 5,
            PieceType::Square => 6,
        };
        assert!(idx < 7);
    }
}
