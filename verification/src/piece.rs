//! The piece catalog: the seven tetromino kinds, their four-cell shapes, the
//! rotation state machine, and the active piece.
//!
//! Geometry convention: the board is indexed by `(row, col)` with row 0 the
//! top row and rows growing downward. A piece is stored as an anchor cell
//! plus its kind and rotation state; the four occupied cells are derived
//! from a catalog of per-kind offsets.
//!
//! Offsets are kept in *doubled* coordinates relative to the rotation pivot,
//! so that kinds whose pivot sits on a cell corner (Straight and Square)
//! stay in integer arithmetic: a cell's centre is `2*cell + 1` in doubled
//! units, and the pivot is the centre of the anchor cell for most kinds
//! (parity 1) but the lower-right corner of the anchor cell for Straight
//! and Square (parity 0).

use vstd::prelude::*;

verus! {

/// One of the seven tetromino shapes.
#[derive(Clone, Copy, PartialEq, Eq, Structural, Debug, Hash)]
pub enum PieceType {
    Straight,
    L,
    ReverseL,
    T,
    Z,
    ReverseZ,
    Square,
}

/// The four rotation states; transitions cycle Zero -> R -> Two -> L -> Zero
/// clockwise and the reverse counterclockwise.
#[derive(Clone, Copy, PartialEq, Eq, Structural, Debug, Hash)]
pub enum RotationState {
    Zero,
    R,
    Two,
    L,
}

/// A board coordinate. Rows above the visible field are negative.
#[derive(Clone, Copy, PartialEq, Eq, Structural, Debug, Hash)]
pub struct GridPos {
    pub row: i32,
    pub col: i32,
}

/// Parity of the rotation pivot in doubled coordinates: 0 when the pivot is
/// a cell corner (Straight, Square), 1 when it is a cell centre (the rest).
pub open spec fn pivot_parity(kind: PieceType) -> int {
    match kind {
        PieceType::Straight => 0,
        PieceType::Square => 0,
        _ => 1,
    }
}

/// The catalog: cell-centre offsets from the pivot, in doubled `(row, col)`
/// coordinates, at rotation state Zero.
pub open spec fn base_offsets2(kind: PieceType) -> Seq<(int, int)> {
    match kind {
        PieceType::Straight => seq![(-1int, 1int), (-1int, 3int), (-1int, -1int), (-1int, -3int)],
        PieceType::L => seq![(0int, 0int), (0int, 2int), (0int, -2int), (-2int, 2int)],
        PieceType::ReverseL => seq![(0int, 0int), (0int, 2int), (0int, -2int), (-2int, -2int)],
        PieceType::T => seq![(0int, 0int), (-2int, 0int), (0int, 2int), (0int, -2int)],
        PieceType::Z => seq![(0int, 0int), (-2int, 0int), (-2int, 2int), (0int, -2int)],
        PieceType::ReverseZ => seq![(0int, 0int), (-2int, 0int), (-2int, -2int), (0int, 2int)],
        PieceType::Square => seq![(1int, -1int), (1int, 1int), (-1int, -1int), (-1int, 1int)],
    }
}

/// One quarter turn clockwise in doubled `(row, col)` coordinates.
pub open spec fn rotate_cw2(d: (int, int)) -> (int, int) {
    (d.1, -d.0)
}

/// One quarter turn counterclockwise in doubled `(row, col)` coordinates.
pub open spec fn rotate_ccw2(d: (int, int)) -> (int, int) {
    (-d.1, d.0)
}

/// The net rotation that a state applies to the Zero-state offsets:
/// as many clockwise quarter turns as the state is clockwise steps from Zero.
pub open spec fn rot2(d: (int, int), rot: RotationState) -> (int, int) {
    match rot {
        RotationState::Zero => d,
        RotationState::R => (d.1, -d.0),
        RotationState::Two => (-d.0, -d.1),
        RotationState::L => (-d.1, d.0),
    }
}

/// The catalog offsets of a kind at a given rotation state.
pub open spec fn offsets2(kind: PieceType, rot: RotationState) -> Seq<(int, int)> {
    base_offsets2(kind).map_values(|d: (int, int)| rot2(d, rot))
}

/// The rotation state after one quarter turn.
pub open spec fn spec_next_rotation(rot: RotationState, clockwise: bool) -> RotationState {
    if clockwise {
        match rot {
            RotationState::Zero => RotationState::R,
            RotationState::R => RotationState::Two,
            RotationState::Two => RotationState::L,
            RotationState::L => RotationState::Zero,
        }
    } else {
        match rot {
            RotationState::Zero => RotationState::L,
            RotationState::L => RotationState::Two,
            RotationState::Two => RotationState::R,
            RotationState::R => RotationState::Zero,
        }
    }
}

/// Half of `d + parity - 1`: converts a doubled centre offset into a whole
/// cell offset. The numerator is always even for catalog offsets; it is
/// written shifted by 4 (two whole cells) so that the matching executable
/// division never sees a negative numerator.
pub open spec fn cell_delta(d: int, parity: int) -> int {
    (d + parity + 3) / 2 - 2
}

/// The absolute cells of a shape anchored at `(anchor_row, anchor_col)`:
/// the anchor displaced by each converted catalog offset.
pub open spec fn cells_at(
    kind: PieceType,
    rot: RotationState,
    anchor_row: int,
    anchor_col: int,
) -> Seq<(int, int)> {
    offsets2(kind, rot).map_values(
        |d: (int, int)|
            (
                anchor_row + cell_delta(d.0, pivot_parity(kind)),
                anchor_col + cell_delta(d.1, pivot_parity(kind)),
            ),
    )
}

/// The absolute cells of a piece.
pub open spec fn spec_cells(p: ActivePiece) -> Seq<(int, int)> {
    cells_at(p.kind, p.rot, p.anchor_row as int, p.anchor_col as int)
}

/// Anchor coordinates stay far inside `i32`, so cell arithmetic cannot
/// overflow. Every reachable piece is well inside these bounds.
pub open spec fn wf_anchor(p: ActivePiece) -> bool {
    &&& -100 <= p.anchor_row <= 100
    &&& -100 <= p.anchor_col <= 100
}

/// The currently controlled piece, or a preview of one: a kind, a rotation
/// state, and the anchor cell the catalog offsets are measured from.
#[derive(Clone, Copy, PartialEq, Eq, Structural, Debug)]
pub struct ActivePiece {
    pub kind: PieceType,
    pub rot: RotationState,
    pub anchor_row: i32,
    pub anchor_col: i32,
}

/// All catalog offsets lie within 3 doubled units of the pivot, at every
/// rotation state, and every offset list has exactly 4 entries.
pub proof fn lemma_offsets2_bounds(kind: PieceType, rot: RotationState)
    ensures
        offsets2(kind, rot).len() == 4,
        forall|i: int|
            0 <= i < 4 ==> {
                let d = #[trigger] offsets2(kind, rot)[i];
                -3 <= d.0 <= 3 && -3 <= d.1 <= 3
            },
{
    assert forall|i: int| 0 <= i < 4 implies {
        let d = #[trigger] base_offsets2(kind)[i];
        -3 <= d.0 <= 3 && -3 <= d.1 <= 3
    } by {
        match kind {
            PieceType::Straight => {},
            PieceType::L => {},
            PieceType::ReverseL => {},
            PieceType::T => {},
            PieceType::Z => {},
            PieceType::ReverseZ => {},
            PieceType::Square => {},
        }
    }
}

/// The rotation state machine is a closed 4-cycle: four quarter turns in the
/// same direction return to the starting state, and a clockwise turn undoes
/// a counterclockwise one.
pub proof fn lemma_rotation_state_cycle(rot: RotationState, clockwise: bool)
    ensures
        spec_next_rotation(
            spec_next_rotation(
                spec_next_rotation(spec_next_rotation(rot, clockwise), clockwise),
                clockwise,
            ),
            clockwise,
        ) == rot,
        spec_next_rotation(spec_next_rotation(rot, clockwise), !clockwise) == rot,
{
}

/// Advancing the rotation state advances the catalog offsets by one quarter
/// turn in the same direction: the offsets a state denotes are consistent
/// with the turns that reach it.
pub proof fn lemma_offsets2_step(kind: PieceType, rot: RotationState, clockwise: bool)
    ensures
        offsets2(kind, spec_next_rotation(rot, clockwise)) == offsets2(kind, rot).map_values(
            |d: (int, int)| if clockwise { rotate_cw2(d) } else { rotate_ccw2(d) },
        ),
{
    let lhs = offsets2(kind, spec_next_rotation(rot, clockwise));
    let rhs = offsets2(kind, rot).map_values(
        |d: (int, int)| if clockwise { rotate_cw2(d) } else { rotate_ccw2(d) },
    );
    assert(lhs.len() == rhs.len());
    assert forall|i: int| 0 <= i < lhs.len() implies lhs[i] == rhs[i] by {
        let d = base_offsets2(kind)[i];
        assert(lhs[i] == rot2(d, spec_next_rotation(rot, clockwise)));
        assert(rhs[i] == if clockwise { rotate_cw2(rot2(d, rot)) } else { rotate_ccw2(rot2(d, rot)) });
    }
    assert(lhs =~= rhs);
}

/// Rotating four times in one direction restores the catalog offsets: the
/// full closed-cycle law for shapes, not just for the state tag.
pub proof fn lemma_offsets2_cycle(kind: PieceType, rot: RotationState, clockwise: bool)
    ensures
        ({
            let r1 = spec_next_rotation(rot, clockwise);
            let r2 = spec_next_rotation(r1, clockwise);
            let r3 = spec_next_rotation(r2, clockwise);
            let r4 = spec_next_rotation(r3, clockwise);
            offsets2(kind, r4) == offsets2(kind, rot)
        }),
{
    lemma_rotation_state_cycle(rot, clockwise);
}

/// The rotation state after one quarter turn; clockwise maps
/// Zero -> R -> Two -> L -> Zero and counterclockwise is the inverse.
pub fn get_rotation_state(rot: RotationState, clockwise: bool) -> (next: RotationState)
    ensures
        next == spec_next_rotation(rot, clockwise),
{
    if clockwise {
        match rot {
            RotationState::Zero => RotationState::R,
            RotationState::R => RotationState::Two,
            RotationState::Two => RotationState::L,
            RotationState::L => RotationState::Zero,
        }
    } else {
        match rot {
            RotationState::Zero => RotationState::L,
            RotationState::L => RotationState::Two,
            RotationState::Two => RotationState::R,
            RotationState::R => RotationState::Zero,
        }
    }
}

/// The catalog offsets of `kind` at rotation state Zero, as executable data.
fn base_offsets(kind: PieceType) -> (offs: Vec<(i32, i32)>)
    ensures
        offs@.len() == 4,
        forall|i: int|
            0 <= i < 4 ==> ((#[trigger] offs@[i]).0 as int, offs@[i].1 as int)
                == base_offsets2(kind)[i],
{
    match kind {
        PieceType::Straight => vec![(-1, 1), (-1, 3), (-1, -1), (-1, -3)],
        PieceType::L => vec![(0, 0), (0, 2), (0, -2), (-2, 2)],
        PieceType::ReverseL => vec![(0, 0), (0, 2), (0, -2), (-2, -2)],
        PieceType::T => vec![(0, 0), (-2, 0), (0, 2), (0, -2)],
        PieceType::Z => vec![(0, 0), (-2, 0), (-2, 2), (0, -2)],
        PieceType::ReverseZ => vec![(0, 0), (-2, 0), (-2, -2), (0, 2)],
        PieceType::Square => vec![(1, -1), (1, 1), (-1, -1), (-1, 1)],
    }
}

/// The four absolute cells occupied by a piece, in catalog order.
pub fn piece_cells(p: &ActivePiece) -> (cells: Vec<GridPos>)
    requires
        wf_anchor(*p),
    ensures
        cells@.len() == 4,
        forall|i: int|
            0 <= i < 4 ==> ((#[trigger] cells@[i]).row as int, cells@[i].col as int)
                == spec_cells(*p)[i],
        cells_view(cells@) == spec_cells(*p),
{
    proof {
        lemma_offsets2_bounds(p.kind, p.rot);
    }
    let offs = base_offsets(p.kind);
    let parity: i32 = match p.kind {
        PieceType::Straight => 0,
        PieceType::Square => 0,
        _ => 1,
    };
    let mut cells: Vec<GridPos> = Vec::new();
    let mut i: usize = 0;
    while i < 4
        invariant
            wf_anchor(*p),
            parity as int == pivot_parity(p.kind),
            offs@.len() == 4,
            forall|j: int|
                0 <= j < 4 ==> ((#[trigger] offs@[j]).0 as int, offs@[j].1 as int)
                    == base_offsets2(p.kind)[j],
            forall|j: int|
                0 <= j < 4 ==> {
                    let d = #[trigger] offsets2(p.kind, p.rot)[j];
                    -3 <= d.0 <= 3 && -3 <= d.1 <= 3
                },
            i <= 4,
            cells@.len() == i,
            forall|j: int|
                0 <= j < i ==> ((#[trigger] cells@[j]).row as int, cells@[j].col as int)
                    == spec_cells(*p)[j],
        decreases 4 - i,
    {
        let d = offs[i];
        let (dr, dc): (i32, i32) = match p.rot {
            RotationState::Zero => (d.0, d.1),
            RotationState::R => (d.1, -d.0),
            RotationState::Two => (-d.0, -d.1),
            RotationState::L => (-d.1, d.0),
        };
        assert((dr as int, dc as int) == offsets2(p.kind, p.rot)[i as int]);
        let row = p.anchor_row + ((dr + parity + 3) / 2 - 2);
        let col = p.anchor_col + ((dc + parity + 3) / 2 - 2);
        cells.push(GridPos { row, col });
        i = i + 1;
    }
    proof {
        assert(cells_view(cells@) =~= spec_cells(*p));
    }
    cells
}

/// A doubled offset component sits on the right parity for its kind: its
/// cell conversion numerator `d + parity - 1` is even, so halving is exact.
pub open spec fn parity_ok(d: int, parity: int) -> bool {
    (d + parity - 1) % 2 == 0
}

/// Negation keeps an offset component's parity.
proof fn lemma_parity_neg(d: int, parity: int)
    requires
        -3 <= d <= 3,
        0 <= parity <= 1,
        parity_ok(d, parity),
    ensures
        parity_ok(-d, parity),
{
    if d == -3 {
    } else if d == -2 {
    } else if d == -1 {
    } else if d == 0 {
    } else if d == 1 {
    } else if d == 2 {
    } else {
    }
}

/// On the right parity, the cell conversion is exactly half of
/// `d + parity - 1`; in particular it is injective.
pub proof fn lemma_cell_delta_exact(d: int, parity: int)
    requires
        -3 <= d <= 3,
        0 <= parity <= 1,
        parity_ok(d, parity),
    ensures
        2 * cell_delta(d, parity) == d + parity - 1,
{
    if d == -3 {
    } else if d == -2 {
    } else if d == -1 {
    } else if d == 0 {
    } else if d == 1 {
    } else if d == 2 {
    } else {
    }
}

/// Both components of every catalog offset sit on the kind's parity, at
/// every rotation state.
pub proof fn lemma_offsets2_parity(kind: PieceType, rot: RotationState)
    ensures
        forall|i: int|
            0 <= i < 4 ==> {
                let d = #[trigger] offsets2(kind, rot)[i];
                parity_ok(d.0, pivot_parity(kind)) && parity_ok(d.1, pivot_parity(kind))
            },
{
    let pp = pivot_parity(kind);
    assert forall|i: int| 0 <= i < 4 implies {
        let d = #[trigger] base_offsets2(kind)[i];
        parity_ok(d.0, pp) && parity_ok(d.1, pp)
    } by {
        match kind {
            PieceType::Straight => {},
            PieceType::L => {},
            PieceType::ReverseL => {},
            PieceType::T => {},
            PieceType::Z => {},
            PieceType::ReverseZ => {},
            PieceType::Square => {},
        }
    }
    lemma_offsets2_bounds(kind, RotationState::Zero);
    assert forall|i: int| 0 <= i < 4 implies {
        let d = #[trigger] offsets2(kind, rot)[i];
        parity_ok(d.0, pp) && parity_ok(d.1, pp)
    } by {
        let b = base_offsets2(kind)[i];
        assert(offsets2(kind, rot)[i] == rot2(b, rot));
        assert(offsets2(kind, RotationState::Zero)[i] == b);
        lemma_parity_neg(b.0, pp);
        lemma_parity_neg(b.1, pp);
    }
}

/// The four catalog offsets of a kind are pairwise distinct at every
/// rotation state.
pub proof fn lemma_offsets2_distinct(kind: PieceType, rot: RotationState)
    ensures
        forall|i: int, j: int|
            0 <= i < j < 4 ==> #[trigger] offsets2(kind, rot)[i] != #[trigger] offsets2(
                kind,
                rot,
            )[j],
{
    assert forall|i: int, j: int|
        0 <= i < j < 4 implies #[trigger] base_offsets2(kind)[i] != #[trigger] base_offsets2(
        kind,
    )[j] by {
        match kind {
            PieceType::Straight => {},
            PieceType::L => {},
            PieceType::ReverseL => {},
            PieceType::T => {},
            PieceType::Z => {},
            PieceType::ReverseZ => {},
            PieceType::Square => {},
        }
    }
    assert forall|i: int, j: int|
        0 <= i < j < 4 implies #[trigger] offsets2(kind, rot)[i] != #[trigger] offsets2(
        kind,
        rot,
    )[j] by {
        let bi = base_offsets2(kind)[i];
        let bj = base_offsets2(kind)[j];
        assert(offsets2(kind, rot)[i] == rot2(bi, rot));
        assert(offsets2(kind, rot)[j] == rot2(bj, rot));
    }
}

/// The four cells of a piece are pairwise distinct positions.
pub proof fn lemma_cells_distinct(p: ActivePiece)
    ensures
        forall|i: int, j: int|
            0 <= i < j < 4 ==> #[trigger] spec_cells(p)[i] != #[trigger] spec_cells(p)[j],
{
    let pp = pivot_parity(p.kind);
    lemma_offsets2_bounds(p.kind, p.rot);
    lemma_offsets2_parity(p.kind, p.rot);
    lemma_offsets2_distinct(p.kind, p.rot);
    assert forall|i: int, j: int|
        0 <= i < j < 4 implies #[trigger] spec_cells(p)[i] != #[trigger] spec_cells(p)[j] by {
        let di = offsets2(p.kind, p.rot)[i];
        let dj = offsets2(p.kind, p.rot)[j];
        lemma_cell_delta_exact(di.0, pp);
        lemma_cell_delta_exact(di.1, pp);
        lemma_cell_delta_exact(dj.0, pp);
        lemma_cell_delta_exact(dj.1, pp);
        assert(spec_cells(p)[i] == (
            p.anchor_row + cell_delta(di.0, pp),
            p.anchor_col + cell_delta(di.1, pp),
        ));
        assert(spec_cells(p)[j] == (
            p.anchor_row + cell_delta(dj.0, pp),
            p.anchor_col + cell_delta(dj.1, pp),
        ));
    }
}

/// A sequence of grid positions as plain coordinate pairs.
pub open spec fn cells_view(s: Seq<GridPos>) -> Seq<(int, int)> {
    s.map_values(|g: GridPos| (g.row as int, g.col as int))
}

/// The spawn anchor of a kind: row 1 for every kind, column 6 for Straight
/// and column 5 otherwise, which centres each shape on the top two rows.
pub open spec fn spawn_anchor(kind: PieceType) -> (int, int) {
    match kind {
        PieceType::Straight => (1int, 6int),
        _ => (1int, 5int),
    }
}

/// A fresh piece of `kind` at its spawn anchor, raised by `raise` rows
/// (used when the top of the board is already occupied).
pub fn spawn_piece(kind: PieceType, raise: u32) -> (p: ActivePiece)
    requires
        raise <= 2,
    ensures
        p.kind == kind,
        p.rot == RotationState::Zero,
        p.anchor_row as int == spawn_anchor(kind).0 - raise,
        p.anchor_col as int == spawn_anchor(kind).1,
        wf_anchor(p),
{
    let anchor_col: i32 = match kind {
        PieceType::Straight => 6,
        _ => 5,
    };
    ActivePiece { kind, rot: RotationState::Zero, anchor_row: 1 - raise as i32, anchor_col }
}

/// Spawning yields exactly 4 cells, and each one sits at the spawn anchor
/// displaced by the catalog's Zero-state offset for its kind: the spawned
/// shape is the catalog shape.
pub proof fn lemma_spawn_matches_catalog(p: ActivePiece)
    requires
        p.rot == RotationState::Zero,
    ensures
        spec_cells(p).len() == 4,
        forall|i: int|
            0 <= i < 4 ==> #[trigger] spec_cells(p)[i] == (
                p.anchor_row + cell_delta(base_offsets2(p.kind)[i].0, pivot_parity(p.kind)),
                p.anchor_col + cell_delta(base_offsets2(p.kind)[i].1, pivot_parity(p.kind)),
            ),
{
    assert forall|i: int| 0 <= i < 4 implies #[trigger] spec_cells(p)[i] == (
        p.anchor_row + cell_delta(base_offsets2(p.kind)[i].0, pivot_parity(p.kind)),
        p.anchor_col + cell_delta(base_offsets2(p.kind)[i].1, pivot_parity(p.kind)),
    ) by {
        assert(offsets2(p.kind, p.rot)[i] == base_offsets2(p.kind)[i]);
    }
}

} // verus!
