//! The rotation resolver: wall-kick tables and the first-match kick search.
//!
//! A rotate request first turns the shape a quarter around its pivot, then
//! tries up to five translations ("kicks") taken from a table keyed by the
//! ordered transition between rotation states. The first kick whose four
//! translated cells are all free wins; ties are broken by table order alone.
//! If no kick fits, the rotation is rejected and the piece is unchanged.
//!
//! Kick entries are written `(dx, dy)` with x growing to the right and y
//! growing upward, the convention the guideline tables use; applying a kick
//! adds `dx` to the anchor column and subtracts `dy` from the anchor row.

use vstd::prelude::*;

use crate::board::{board_wf, occ, Board};
use crate::piece::{
    cells_at, piece_cells, spec_cells, spec_next_rotation, wf_anchor, ActivePiece, GridPos,
    PieceType, RotationState,
};

verus! {

/// The index of a transition in the kick tables: each of the eight ordered
/// pairs of adjacent rotation states has its own row.
pub open spec fn transition_index(from: RotationState, clockwise: bool) -> int {
    if clockwise {
        match from {
            RotationState::Zero => 0,
            RotationState::R => 2,
            RotationState::Two => 4,
            RotationState::L => 6,
        }
    } else {
        match from {
            RotationState::Zero => 7,
            RotationState::L => 5,
            RotationState::Two => 3,
            RotationState::R => 1,
        }
    }
}

/// The kick table shared by every kind but Straight, row `ti`.
pub open spec fn common_kicks(ti: int) -> Seq<(int, int)> {
    if ti == 0 {
        seq![(0int, 0int), (-1int, 0int), (-1int, 1int), (0int, -2int), (-1int, -2int)]
    } else if ti == 1 {
        seq![(0int, 0int), (1int, 0int), (1int, -1int), (0int, 2int), (1int, 2int)]
    } else if ti == 2 {
        seq![(0int, 0int), (1int, 0int), (1int, -1int), (0int, 2int), (1int, 2int)]
    } else if ti == 3 {
        seq![(0int, 0int), (-1int, 0int), (-1int, 1int), (0int, -2int), (-1int, -2int)]
    } else if ti == 4 {
        seq![(0int, 0int), (1int, 0int), (1int, 1int), (0int, -2int), (1int, -2int)]
    } else if ti == 5 {
        seq![(0int, 0int), (-1int, 0int), (-1int, -1int), (0int, 2int), (-1int, 2int)]
    } else if ti == 6 {
        seq![(0int, 0int), (-1int, 0int), (-1int, -1int), (0int, 2int), (-1int, 2int)]
    } else {
        seq![(0int, 0int), (1int, 0int), (1int, 1int), (0int, -2int), (1int, -2int)]
    }
}

/// The kick table of the Straight kind, row `ti`.
pub open spec fn straight_kicks(ti: int) -> Seq<(int, int)> {
    if ti == 0 {
        seq![(0int, 0int), (-2int, 0int), (1int, 0int), (-2int, -1int), (1int, 2int)]
    } else if ti == 1 {
        seq![(0int, 0int), (2int, 0int), (-1int, 0int), (1int, 2int), (-2int, -1int)]
    } else if ti == 2 {
        seq![(0int, 0int), (-1int, 0int), (2int, 0int), (1int, 2int), (2int, -1int)]
    } else if ti == 3 {
        seq![(0int, 0int), (1int, 0int), (-2int, 0int), (1int, -2int), (-2int, 1int)]
    } else if ti == 4 {
        seq![(0int, 0int), (2int, 0int), (-1int, 0int), (2int, 1int), (-1int, -2int)]
    } else if ti == 5 {
        seq![(0int, 0int), (-2int, 0int), (1int, 0int), (-2int, -1int), (1int, 2int)]
    } else if ti == 6 {
        seq![(0int, 0int), (1int, 0int), (-2int, 0int), (1int, -2int), (-2int, 1int)]
    } else {
        seq![(0int, 0int), (-1int, 0int), (2int, 0int), (-1int, 2int), (2int, -1int)]
    }
}

/// The five kick candidates for a kind and a transition, in trial order.
pub open spec fn kick_table(kind: PieceType, from: RotationState, clockwise: bool) -> Seq<
    (int, int),
> {
    if kind == PieceType::Straight {
        straight_kicks(transition_index(from, clockwise))
    } else {
        common_kicks(transition_index(from, clockwise))
    }
}

/// Every kick table row has five entries, each within two cells of origin.
pub proof fn lemma_kick_table_bounds(kind: PieceType, from: RotationState, clockwise: bool)
    ensures
        kick_table(kind, from, clockwise).len() == 5,
        forall|i: int|
            0 <= i < 5 ==> {
                let k = #[trigger] kick_table(kind, from, clockwise)[i];
                -2 <= k.0 <= 2 && -2 <= k.1 <= 2
            },
{
}

/// Whether all four cells of the shape are free on the board.
pub open spec fn cells_free(
    g: Seq<Option<u64>>,
    kind: PieceType,
    rot: RotationState,
    anchor_row: int,
    anchor_col: int,
) -> bool {
    forall|i: int|
        0 <= i < 4 ==> !occ(
            g,
            (#[trigger] cells_at(kind, rot, anchor_row, anchor_col)[i]).0,
            cells_at(kind, rot, anchor_row, anchor_col)[i].1,
        )
}

/// Whether kick `i` of the table lets the turned piece fit.
pub open spec fn kick_fits(g: Seq<Option<u64>>, p: ActivePiece, clockwise: bool, i: int) -> bool {
    let k = kick_table(p.kind, p.rot, clockwise)[i];
    cells_free(
        g,
        p.kind,
        spec_next_rotation(p.rot, clockwise),
        p.anchor_row - k.1,
        p.anchor_col + k.0,
    )
}

/// The index of the first fitting kick at or after `i`, if any: the
/// deterministic, table-order tie-break of kick resolution.
pub open spec fn first_kick(g: Seq<Option<u64>>, p: ActivePiece, clockwise: bool, i: int) -> Option<
    int,
>
    decreases 5 - i,
{
    if i >= 5 {
        None
    } else if kick_fits(g, p, clockwise, i) {
        Some(i)
    } else {
        first_kick(g, p, clockwise, i + 1)
    }
}

/// The piece that a successful rotation produces: the turned shape,
/// translated by the accepted kick.
pub open spec fn spec_try_rotate(g: Seq<Option<u64>>, p: ActivePiece, clockwise: bool) -> Option<
    ActivePiece,
> {
    match first_kick(g, p, clockwise, 0) {
        None => None,
        Some(i) => {
            let k = kick_table(p.kind, p.rot, clockwise)[i];
            Some(
                ActivePiece {
                    kind: p.kind,
                    rot: spec_next_rotation(p.rot, clockwise),
                    anchor_row: (p.anchor_row - k.1) as i32,
                    anchor_col: (p.anchor_col + k.0) as i32,
                },
            )
        },
    }
}

/// The five kick candidates for a kind and a transition, as executable data.
pub fn get_kick_values(kind: PieceType, from: RotationState, clockwise: bool) -> (kicks: Vec<
    (i32, i32),
>)
    ensures
        kicks@.len() == 5,
        forall|i: int|
            0 <= i < 5 ==> ((#[trigger] kicks@[i]).0 as int, kicks@[i].1 as int) == kick_table(
                kind,
                from,
                clockwise,
            )[i],
{
    let straight = matches!(kind, PieceType::Straight);
    let kicks: Vec<(i32, i32)> = if straight {
        if clockwise {
            match from {
                RotationState::Zero => vec![(0, 0), (-2, 0), (1, 0), (-2, -1), (1, 2)],
                RotationState::R => vec![(0, 0), (-1, 0), (2, 0), (1, 2), (2, -1)],
                RotationState::Two => vec![(0, 0), (2, 0), (-1, 0), (2, 1), (-1, -2)],
                RotationState::L => vec![(0, 0), (1, 0), (-2, 0), (1, -2), (-2, 1)],
            }
        } else {
            match from {
                RotationState::Zero => vec![(0, 0), (-1, 0), (2, 0), (-1, 2), (2, -1)],
                RotationState::L => vec![(0, 0), (-2, 0), (1, 0), (-2, -1), (1, 2)],
                RotationState::Two => vec![(0, 0), (1, 0), (-2, 0), (1, -2), (-2, 1)],
                RotationState::R => vec![(0, 0), (2, 0), (-1, 0), (1, 2), (-2, -1)],
            }
        }
    } else {
        if clockwise {
            match from {
                RotationState::Zero => vec![(0, 0), (-1, 0), (-1, 1), (0, -2), (-1, -2)],
                RotationState::R => vec![(0, 0), (1, 0), (1, -1), (0, 2), (1, 2)],
                RotationState::Two => vec![(0, 0), (1, 0), (1, 1), (0, -2), (1, -2)],
                RotationState::L => vec![(0, 0), (-1, 0), (-1, -1), (0, 2), (-1, 2)],
            }
        } else {
            match from {
                RotationState::Zero => vec![(0, 0), (1, 0), (1, 1), (0, -2), (1, -2)],
                RotationState::L => vec![(0, 0), (-1, 0), (-1, -1), (0, 2), (-1, 2)],
                RotationState::Two => vec![(0, 0), (-1, 0), (-1, 1), (0, -2), (-1, -2)],
                RotationState::R => vec![(0, 0), (1, 0), (1, -1), (0, 2), (1, 2)],
            }
        }
    };
    kicks
}

/// Whether all four given cells are free on the board.
fn all_cells_free(board: &Board, cells: &Vec<GridPos>) -> (r: bool)
    requires
        board_wf(board@),
        cells@.len() == 4,
    ensures
        r == forall|i: int|
            0 <= i < 4 ==> !occ(board@, (#[trigger] cells@[i]).row as int, cells@[i].col as int),
{
    let mut i: usize = 0;
    while i < 4
        invariant
            board_wf(board@),
            cells@.len() == 4,
            i <= 4,
            forall|j: int|
                0 <= j < i ==> !occ(board@, (#[trigger] cells@[j]).row as int, cells@[j].col as int),
        decreases 4 - i,
    {
        let c = cells[i];
        if board.is_occupied(c.row, c.col) {
            return false;
        }
        i = i + 1;
    }
    true
}

/// Attempts to rotate the piece one quarter turn, resolving wall kicks.
///
/// Tries the five kicks of the table row for this transition in order and
/// commits the first one under which all four turned cells are free. Returns
/// the rotated, kicked piece, or `None` if every kick collides, in which
/// case the caller keeps the piece unchanged: rejection is a normal outcome.
pub fn try_rotate(board: &Board, p: &ActivePiece, clockwise: bool) -> (r: Option<ActivePiece>)
    requires
        board_wf(board@),
        -50 <= p.anchor_row <= 50,
        -50 <= p.anchor_col <= 50,
    ensures
        r == spec_try_rotate(board@, *p, clockwise),
        r is Some ==> {
            let q = r->Some_0;
            &&& q.kind == p.kind
            &&& q.rot == spec_next_rotation(p.rot, clockwise)
            &&& -52 <= q.anchor_row <= 52
            &&& -52 <= q.anchor_col <= 52
            &&& forall|i: int|
                0 <= i < 4 ==> !occ(
                    board@,
                    (#[trigger] spec_cells(q)[i]).0,
                    spec_cells(q)[i].1,
                )
        },
{
    proof {
        lemma_kick_table_bounds(p.kind, p.rot, clockwise);
    }
    let next = crate::piece::get_rotation_state(p.rot, clockwise);
    let kicks = get_kick_values(p.kind, p.rot, clockwise);
    let mut i: usize = 0;
    while i < 5
        invariant
            board_wf(board@),
            -50 <= p.anchor_row <= 50,
            -50 <= p.anchor_col <= 50,
            next == spec_next_rotation(p.rot, clockwise),
            kicks@.len() == 5,
            forall|j: int|
                0 <= j < 5 ==> ((#[trigger] kicks@[j]).0 as int, kicks@[j].1 as int) == kick_table(
                    p.kind,
                    p.rot,
                    clockwise,
                )[j],
            forall|j: int|
                0 <= j < 5 ==> {
                    let k = #[trigger] kick_table(p.kind, p.rot, clockwise)[j];
                    -2 <= k.0 <= 2 && -2 <= k.1 <= 2
                },
            i <= 5,
            forall|j: int| 0 <= j < i ==> !kick_fits(board@, *p, clockwise, j),
            first_kick(board@, *p, clockwise, 0) == first_kick(board@, *p, clockwise, i as int),
        decreases 5 - i,
    {
        let (dx, dy) = kicks[i];
        let candidate = ActivePiece {
            kind: p.kind,
            rot: next,
            anchor_row: p.anchor_row - dy,
            anchor_col: p.anchor_col + dx,
        };
        let cells = piece_cells(&candidate);
        if all_cells_free(board, &cells) {
            proof {
                let k = kick_table(p.kind, p.rot, clockwise)[i as int];
                let ar = p.anchor_row - k.1;
                let ac = p.anchor_col + k.0;
                assert(candidate.anchor_row as int == ar && candidate.anchor_col as int == ac);
                assert forall|j: int|
                    0 <= j < 4 implies !occ(
                    board@,
                    (#[trigger] cells_at(p.kind, next, ar, ac)[j]).0,
                    cells_at(p.kind, next, ar, ac)[j].1,
                ) by {
                    assert(cells_at(p.kind, next, ar, ac) == spec_cells(candidate));
                    assert(!occ(board@, cells@[j].row as int, cells@[j].col as int));
                    assert((cells@[j].row as int, cells@[j].col as int) == spec_cells(
                        candidate,
                    )[j]);
                }
                assert(kick_fits(board@, *p, clockwise, i as int));
                assert(first_kick(board@, *p, clockwise, i as int) == Some(i as int));
            }
            return Some(candidate);
        }
        proof {
            assert(!kick_fits(board@, *p, clockwise, i as int));
        }
        i = i + 1;
    }
    None
}

/// Kick resolution is deterministic: on equal board occupancy and equal
/// piece state, repeated rotation attempts resolve to the same kick index,
/// the same `(dx, dy)` displacement, and the same resulting piece — the
/// tie-break is table order alone, never distance or count.
pub proof fn lemma_kick_resolution_deterministic(
    g1: Seq<Option<u64>>,
    g2: Seq<Option<u64>>,
    p1: ActivePiece,
    p2: ActivePiece,
    clockwise: bool,
)
    requires
        g1 == g2,
        p1 == p2,
    ensures
        first_kick(g1, p1, clockwise, 0) == first_kick(g2, p2, clockwise, 0),
        first_kick(g1, p1, clockwise, 0) matches Some(i) ==> kick_table(
            p1.kind,
            p1.rot,
            clockwise,
        )[i] == kick_table(p2.kind, p2.rot, clockwise)[first_kick(g2, p2, clockwise, 0)->Some_0],
        spec_try_rotate(g1, p1, clockwise) == spec_try_rotate(g2, p2, clockwise),
{
}

/// Four successful quarter turns in the same direction restore the rotation
/// state and with it the catalog cell offsets of the shape; only the anchor
/// may have moved, by the accepted kicks.
pub proof fn lemma_rotation_four_cycle(
    g: Seq<Option<u64>>,
    p0: ActivePiece,
    p1: ActivePiece,
    p2: ActivePiece,
    p3: ActivePiece,
    p4: ActivePiece,
    clockwise: bool,
)
    requires
        spec_try_rotate(g, p0, clockwise) == Some(p1),
        spec_try_rotate(g, p1, clockwise) == Some(p2),
        spec_try_rotate(g, p2, clockwise) == Some(p3),
        spec_try_rotate(g, p3, clockwise) == Some(p4),
    ensures
        p4.kind == p0.kind,
        p4.rot == p0.rot,
        crate::piece::offsets2(p4.kind, p4.rot) == crate::piece::offsets2(p0.kind, p0.rot),
{
    crate::piece::lemma_rotation_state_cycle(p0.rot, clockwise);
}

} // verus!
