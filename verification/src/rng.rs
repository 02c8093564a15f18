//! The uniform piece draw: the one place randomness enters the engine.
//!
//! The session's update functions take the drawn pieces as arguments, so
//! everything downstream of the draw is deterministic and verified for every
//! possible outcome; hosts that want real randomness call `get_random_piece`.

use vstd::prelude::*;

use crate::piece::PieceType;

verus! {

/// The catalog index of a kind, 0 through 6.
pub open spec fn piece_index(kind: PieceType) -> int {
    match kind {
        PieceType::Straight => 0,
        PieceType::L => 1,
        PieceType::ReverseL => 2,
        PieceType::T => 3,
        PieceType::Z => 4,
        PieceType::ReverseZ => 5,
        PieceType::Square => 6,
    }
}

/// The kind with the given catalog index.
pub fn piece_from_index(i: u8) -> (p: PieceType)
    requires
        i < 7,
    ensures
        piece_index(p) == i as int,
{
    match i {
        0 => PieceType::Straight,
        1 => PieceType::L,
        2 => PieceType::ReverseL,
        3 => PieceType::T,
        4 => PieceType::Z,
        5 => PieceType::ReverseZ,
        _ => PieceType::Square,
    }
}

/// Relies on rand::random_range: a draw from the non-empty range `0..7`
/// lies below 7 and does not panic.
#[verifier::external_body]
fn random_index() -> (r: u8)
    ensures
        r < 7,
{
    rand::random_range(0u8..7u8)
}

/// A piece kind drawn uniformly from the seven-entry catalog. The draw
/// cannot fail; nothing else is promised of the outcome.
pub fn get_random_piece() -> (p: PieceType) {
    piece_from_index(random_index())
}

} // verus!
