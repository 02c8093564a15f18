//! The game session controller: the board, the active piece, the preview
//! queue, the hold slot, score, level and timers, driven tick by tick.
//!
//! Randomness never enters here: every update takes the pieces that refill
//! the preview queue as arguments, so a session is a deterministic function
//! of its inputs. The host draws pieces (see `rng`) and forwards them.

use vstd::prelude::*;

use crate::board::{at, board_wf, in_field, occ, row_empty, Board};
use crate::piece::{spawn_anchor, spec_cells, ActivePiece, PieceType, RotationState};

verus! {

/// The phases of a session; which update stages run depends on it.
#[derive(Clone, Copy, PartialEq, Eq, Structural, Debug, Default, Hash)]
pub enum GameState {
    #[default]
    Title,
    Playing,
    Paused,
    GameOver,
}

/// A discrete event emitted by an update, for sound effects and displays.
#[derive(Clone, Copy, PartialEq, Eq, Structural, Debug)]
pub enum GameEvent {
    PiecePlaced,
    LinesCleared(u32),
    Rotated,
    Moved,
    HeldPiece,
    LeveledUp,
    GameOver,
}

/// One frame's worth of input: edge and level signals from an abstract
/// key-state provider.
#[derive(Clone, Copy, PartialEq, Eq, Structural, Debug, Default)]
pub struct InputState {
    pub move_left: bool,
    pub move_right: bool,
    pub soft_drop: bool,
    pub hard_drop: bool,
    pub rotate_cw: bool,
    pub rotate_ccw: bool,
    pub hold: bool,
    pub pause: bool,
    pub restart: bool,
    pub level_up: bool,
}

impl InputState {
    /// A frame with no key pressed.
    pub fn none() -> (i: InputState)
        ensures
            i == idle_input(),
    {
        InputState {
            move_left: false,
            move_right: false,
            soft_drop: false,
            hard_drop: false,
            rotate_cw: false,
            rotate_ccw: false,
            hold: false,
            pause: false,
            restart: false,
            level_up: false,
        }
    }
}

/// The mathematical model of a session: every field of the controller with
/// collections abstracted to sequences.
#[verifier::ext_equal]
pub ghost struct SessionModel {
    pub state: GameState,
    pub board: Seq<Option<u64>>,
    pub active: ActivePiece,
    pub next_queue: Seq<PieceType>,
    pub hold_slot: Option<PieceType>,
    pub can_hold: bool,
    pub score: u64,
    pub level: u32,
    pub lines_to_level: u32,
    pub fall_interval_ms: u64,
    pub fall_elapsed_ms: u64,
    pub grace_elapsed_ms: u64,
    pub pending_lock: bool,
    pub blocks: Seq<PieceType>,
}

/// The grace period between first bottom contact and the lock, in
/// milliseconds.
pub const GRACE_PERIOD_MS: u64 = 500;

/// The fall interval a fresh session starts with, in milliseconds.
pub const INITIAL_FALL_INTERVAL_MS: u64 = 500;

/// An active piece whose cells all lie in the columns of the field, at or
/// above the floor, and not above the spawn headroom: every reachable piece.
pub open spec fn active_ok(p: ActivePiece) -> bool {
    forall|i: int|
        0 <= i < 4 ==> {
            let c = #[trigger] spec_cells(p)[i];
            &&& 0 <= c.1 < 10
            &&& -6 <= c.0 <= 19
        }
}

/// Every block id placed on the board indexes into the block arena.
pub open spec fn board_ids_ok(g: Seq<Option<u64>>, nblocks: int) -> bool {
    forall|r: int, c: int|
        in_field(r, c) && #[trigger] at(g, r, c) is Some ==> at(g, r, c)->Some_0 < nblocks
}

/// No block id owns two cells: each placed block reference appears exactly
/// once on the board.
pub open spec fn board_ids_unique(g: Seq<Option<u64>>) -> bool {
    forall|r1: int, c1: int, r2: int, c2: int|
        in_field(r1, c1) && in_field(r2, c2) && !(r1 == r2 && c1 == c2) && #[trigger] at(
            g,
            r1,
            c1,
        ) is Some && #[trigger] at(g, r2, c2) is Some ==> at(g, r1, c1) != at(g, r2, c2)
}

/// The session invariant: the board has its shape, the preview queue holds
/// exactly three kinds, the active piece is reachable, the line counter has
/// not wrapped, the level has started, the board's block ids are backed by
/// the arena, and no block owns two cells.
pub open spec fn wf_session(m: SessionModel) -> bool {
    &&& board_wf(m.board)
    &&& m.next_queue.len() == 3
    &&& active_ok(m.active)
    &&& m.lines_to_level < 10
    &&& m.level >= 1
    &&& board_ids_ok(m.board, m.blocks.len() as int)
    &&& board_ids_unique(m.board)
}

/// How far above its anchor a spawn must be lifted: one row for each of the
/// top two rows that already holds a block, so a fresh piece does not start
/// inside the stack.
pub open spec fn spec_spawn_raise(g: Seq<Option<u64>>) -> int {
    (if !row_empty(g, 0) {
        1int
    } else {
        0int
    }) + (if !row_empty(g, 1) {
        1int
    } else {
        0int
    })
}

/// A fresh piece of `kind` at its spawn anchor, lifted by `raise` rows.
pub open spec fn spawn_model(kind: PieceType, raise: int) -> ActivePiece {
    ActivePiece {
        kind,
        rot: RotationState::Zero,
        anchor_row: (spawn_anchor(kind).0 - raise) as i32,
        anchor_col: spawn_anchor(kind).1 as i32,
    }
}

/// Spawned pieces are reachable: their cells sit on the top rows of the
/// field, inside its columns.
pub proof fn lemma_spawn_ok(kind: PieceType, raise: int)
    requires
        0 <= raise <= 2,
    ensures
        active_ok(spawn_model(kind, raise)),
{
    let p = spawn_model(kind, raise);
    crate::piece::lemma_offsets2_bounds(kind, RotationState::Zero);
    assert forall|i: int| 0 <= i < 4 implies {
        let c = #[trigger] spec_cells(p)[i];
        0 <= c.1 < 10 && -6 <= c.0 <= 19
    } by {
        let d = crate::piece::offsets2(kind, RotationState::Zero)[i];
        lemma_cell_delta_bounds(d.0, crate::piece::pivot_parity(kind));
        lemma_cell_delta_bounds(d.1, crate::piece::pivot_parity(kind));
    }
}

/// A catalog offset converts to a whole-cell offset of at most two cells.
pub proof fn lemma_cell_delta_bounds(d: int, parity: int)
    requires
        -3 <= d <= 3,
        0 <= parity <= 1,
    ensures
        -2 <= crate::piece::cell_delta(d, parity) <= 1,
{
}

/// Anchors of reachable pieces stay near the field, far inside the bounds
/// that the cell arithmetic needs.
pub proof fn lemma_active_ok_anchor(p: ActivePiece)
    requires
        active_ok(p),
    ensures
        -8 <= p.anchor_row <= 22,
        -3 <= p.anchor_col <= 12,
        crate::piece::wf_anchor(p),
{
    crate::piece::lemma_offsets2_bounds(p.kind, p.rot);
    let d = crate::piece::offsets2(p.kind, p.rot)[0];
    lemma_cell_delta_bounds(d.0, crate::piece::pivot_parity(p.kind));
    lemma_cell_delta_bounds(d.1, crate::piece::pivot_parity(p.kind));
    assert(spec_cells(p)[0] == (
        p.anchor_row + crate::piece::cell_delta(d.0, crate::piece::pivot_parity(p.kind)),
        p.anchor_col + crate::piece::cell_delta(d.1, crate::piece::pivot_parity(p.kind)),
    ));
}

/// The model of a freshly built session: Title state, an empty board, the
/// first draw active, the next three in the queue, and every counter at its
/// starting value.
pub open spec fn fresh_model(
    state: GameState,
    board: Seq<Option<u64>>,
    p0: PieceType,
    p1: PieceType,
    p2: PieceType,
    p3: PieceType,
) -> SessionModel {
    SessionModel {
        state,
        board,
        active: spawn_model(p0, 0),
        next_queue: seq![p1, p2, p3],
        hold_slot: None,
        can_hold: true,
        score: 0,
        level: 1,
        lines_to_level: 0,
        fall_interval_ms: INITIAL_FALL_INTERVAL_MS,
        fall_elapsed_ms: 0,
        grace_elapsed_ms: 0,
        pending_lock: false,
        blocks: Seq::empty(),
    }
}

/// The session controller.
pub struct GameSession {
    pub state: GameState,
    pub board: Board,
    pub active: ActivePiece,
    pub next_queue: Vec<PieceType>,
    pub hold_slot: Option<PieceType>,
    pub can_hold: bool,
    pub score: u64,
    pub level: u32,
    pub lines_to_level: u32,
    pub fall_interval_ms: u64,
    pub fall_elapsed_ms: u64,
    pub grace_elapsed_ms: u64,
    pub pending_lock: bool,
    pub blocks: Vec<PieceType>,
}

impl View for GameSession {
    type V = SessionModel;

    closed spec fn view(&self) -> SessionModel {
        SessionModel {
            state: self.state,
            board: self.board@,
            active: self.active,
            next_queue: self.next_queue@,
            hold_slot: self.hold_slot,
            can_hold: self.can_hold,
            score: self.score,
            level: self.level,
            lines_to_level: self.lines_to_level,
            fall_interval_ms: self.fall_interval_ms,
            fall_elapsed_ms: self.fall_elapsed_ms,
            grace_elapsed_ms: self.grace_elapsed_ms,
            pending_lock: self.pending_lock,
            blocks: self.blocks@,
        }
    }
}

impl GameSession {
    /// A fresh session on the title screen: `p0` becomes the active piece,
    /// `p1` to `p3` fill the preview queue.
    pub fn new(p0: PieceType, p1: PieceType, p2: PieceType, p3: PieceType) -> (s: GameSession)
        ensures
            wf_session(s@),
            s@ == fresh_model(GameState::Title, s@.board, p0, p1, p2, p3),
            forall|r: int, c: int| in_field(r, c) ==> #[trigger] at(s@.board, r, c) is None,
    {
        let board = Board::new();
        let mut next_queue: Vec<PieceType> = Vec::new();
        next_queue.push(p1);
        next_queue.push(p2);
        next_queue.push(p3);
        let active = crate::piece::spawn_piece(p0, 0);
        proof {
            lemma_spawn_ok(p0, 0);
            assert(seq![p1, p2, p3] =~= next_queue@);
        }
        let s = GameSession {
            state: GameState::Title,
            board,
            active,
            next_queue,
            hold_slot: None,
            can_hold: true,
            score: 0,
            level: 1,
            lines_to_level: 0,
            fall_interval_ms: INITIAL_FALL_INTERVAL_MS,
            fall_elapsed_ms: 0,
            grace_elapsed_ms: 0,
            pending_lock: false,
            blocks: Vec::new(),
        };
        proof {
            assert(s@.blocks =~= Seq::<PieceType>::empty());
        }
        s
    }

    /// Restarts the session from any state: the board, queue, hold slot,
    /// score, level and timers return to their initial values, a fresh
    /// starting piece spawns, and play begins at once.
    pub fn restart(&mut self, p0: PieceType, p1: PieceType, p2: PieceType, p3: PieceType)
        ensures
            wf_session(final(self)@),
            final(self)@ == fresh_model(
                GameState::Playing,
                final(self)@.board,
                p0,
                p1,
                p2,
                p3,
            ),
            forall|r: int, c: int|
                in_field(r, c) ==> #[trigger] at(final(self)@.board, r, c) is None,
    {
        let fresh = GameSession::new(p0, p1, p2, p3);
        *self = fresh;
        self.state = GameState::Playing;
    }

    /// The pause toggle, which doubles as the start and the leave-game-over
    /// action: Playing pauses, every other state resumes play.
    pub fn toggle_pause(&mut self)
        requires
            wf_session(old(self)@),
        ensures
            wf_session(final(self)@),
            final(self)@ == (SessionModel {
                state: if old(self)@.state == GameState::Playing {
                    GameState::Paused
                } else {
                    GameState::Playing
                },
                ..old(self)@
            }),
    {
        let next = match self.state {
            GameState::Playing => GameState::Paused,
            GameState::Paused => GameState::Playing,
            GameState::Title => GameState::Playing,
            GameState::GameOver => GameState::Playing,
        };
        self.state = next;
    }

    /// How far a spawn must be lifted on this board.
    fn spawn_raise(&self) -> (r: u32)
        requires
            board_wf(self.board@),
        ensures
            r as int == spec_spawn_raise(self.board@),
            r <= 2,
    {
        let mut r: u32 = 0;
        if row_has_block(&self.board, 0) {
            r = r + 1;
        }
        if row_has_block(&self.board, 1) {
            r = r + 1;
        }
        r
    }

    /// Sets the active piece aside. The first hold of a piece's lifetime
    /// swaps it with the hold slot (or with the head of the queue when the
    /// slot is still empty, `refill` then replenishing the queue) and spawns
    /// the incoming kind fresh; outside play, or while the hold has already
    /// been used, nothing happens.
    pub fn hold_piece(&mut self, refill: PieceType) -> (held: bool)
        requires
            wf_session(old(self)@),
        ensures
            wf_session(final(self)@),
            final(self)@ == spec_hold(old(self)@, refill),
            held == (old(self)@.state == GameState::Playing && old(self)@.can_hold),
    {
        proof {
            reveal(spec_hold);
        }
        if !matches!(self.state, GameState::Playing) || !self.can_hold {
            return false;
        }
        let raise = self.spawn_raise();
        let outgoing = self.active.kind;
        match self.hold_slot {
            Some(h) => {
                self.active = crate::piece::spawn_piece(h, raise);
                proof {
                    lemma_spawn_ok(h, raise as int);
                }
            },
            None => {
                let head = self.next_queue.remove(0);
                self.next_queue.push(refill);
                self.active = crate::piece::spawn_piece(head, raise);
                proof {
                    lemma_spawn_ok(head, raise as int);
                    assert(self.next_queue@ =~= old(self)@.next_queue.drop_first().push(refill));
                }
            },
        }
        self.hold_slot = Some(outgoing);
        self.can_hold = false;
        self.pending_lock = false;
        self.grace_elapsed_ms = 0;
        true
    }
}

/// The model of the hold action: a swap with the slot or the queue head on
/// the first hold of a piece's lifetime, and the identity otherwise.
#[verifier::opaque]
pub open spec fn spec_hold(m: SessionModel, refill: PieceType) -> SessionModel {
    if m.state != GameState::Playing || !m.can_hold {
        m
    } else {
        let raise = spec_spawn_raise(m.board);
        match m.hold_slot {
            Some(h) => SessionModel {
                active: spawn_model(h, raise),
                hold_slot: Some(m.active.kind),
                can_hold: false,
                pending_lock: false,
                grace_elapsed_ms: 0,
                ..m
            },
            None => SessionModel {
                active: spawn_model(m.next_queue[0], raise),
                hold_slot: Some(m.active.kind),
                can_hold: false,
                pending_lock: false,
                grace_elapsed_ms: 0,
                next_queue: m.next_queue.drop_first().push(refill),
                ..m
            },
        }
    }
}

/// Hold is one-shot: a second hold without an intervening lock leaves the
/// session exactly as the first left it, whatever piece it would draw.
pub proof fn lemma_hold_twice_no_effect(m: SessionModel, a: PieceType, b: PieceType)
    ensures
        spec_hold(spec_hold(m, a), b) == spec_hold(m, a),
{
    reveal(spec_hold);
}

/// The piece translated by whole cells.
pub open spec fn shifted_piece(p: ActivePiece, drow: int, dcol: int) -> ActivePiece {
    ActivePiece {
        kind: p.kind,
        rot: p.rot,
        anchor_row: (p.anchor_row + drow) as i32,
        anchor_col: (p.anchor_col + dcol) as i32,
    }
}

/// Whether all four cells of the piece are free on the board.
pub open spec fn piece_fits(g: Seq<Option<u64>>, p: ActivePiece) -> bool {
    forall|i: int|
        0 <= i < 4 ==> !occ(g, (#[trigger] spec_cells(p)[i]).0, spec_cells(p)[i].1)
}

/// Whether the piece can move by `(drow, dcol)` without hitting a wall, the
/// floor or a placed block.
pub open spec fn spec_can_move(g: Seq<Option<u64>>, p: ActivePiece, drow: int, dcol: int) -> bool {
    piece_fits(g, shifted_piece(p, drow, dcol))
}

/// Bottom contact: some cell of the piece rests directly on the floor or on
/// a placed block. This is what arms the lock timer.
pub open spec fn spec_resting(g: Seq<Option<u64>>, p: ActivePiece) -> bool {
    exists|i: int|
        0 <= i < 4 && occ(g, (#[trigger] spec_cells(p)[i]).0 + 1, spec_cells(p)[i].1)
}

/// Corner contact: some cell has a block diagonally below but nothing
/// directly below. Simultaneous horizontal-and-down movement is suppressed
/// under it, so a piece cannot slip through a diagonal gap in one tick.
pub open spec fn spec_corner_contact(g: Seq<Option<u64>>, p: ActivePiece) -> bool {
    exists|i: int|
        0 <= i < 4 && {
            let c = #[trigger] spec_cells(p)[i];
            &&& !occ(g, c.0 + 1, c.1)
            &&& (occ(g, c.0 + 1, c.1 - 1) || occ(g, c.0 + 1, c.1 + 1))
        }
}

/// Shifting a piece shifts each of its cells by the same amount.
pub proof fn lemma_shifted_cells(p: ActivePiece, drow: int, dcol: int)
    requires
        crate::piece::wf_anchor(p),
        -30 <= drow <= 30,
        -30 <= dcol <= 30,
    ensures
        spec_cells(shifted_piece(p, drow, dcol)).len() == 4,
        forall|i: int|
            0 <= i < 4 ==> #[trigger] spec_cells(shifted_piece(p, drow, dcol))[i] == (
                spec_cells(p)[i].0 + drow,
                spec_cells(p)[i].1 + dcol,
            ),
{
    crate::piece::lemma_offsets2_bounds(p.kind, p.rot);
    let q = shifted_piece(p, drow, dcol);
    assert(q.anchor_row as int == p.anchor_row + drow);
    assert(q.anchor_col as int == p.anchor_col + dcol);
}

impl GameSession {
    /// Whether the piece's four cells are all free on this session's board.
    pub fn fits(&self, p: &ActivePiece) -> (b: bool)
        requires
            board_wf(self@.board),
            crate::piece::wf_anchor(*p),
        ensures
            b == piece_fits(self@.board, *p),
    {
        let cells = crate::piece::piece_cells(p);
        let mut i: usize = 0;
        while i < 4
            invariant
                board_wf(self@.board),
                cells@.len() == 4,
                forall|j: int|
                    0 <= j < 4 ==> ((#[trigger] cells@[j]).row as int, cells@[j].col as int)
                        == spec_cells(*p)[j],
                i <= 4,
                forall|j: int|
                    0 <= j < i ==> !occ(
                        self@.board,
                        (#[trigger] spec_cells(*p)[j]).0,
                        spec_cells(*p)[j].1,
                    ),
            decreases 4 - i,
        {
            let c = cells[i];
            if self.board.is_occupied(c.row, c.col) {
                return false;
            }
            i = i + 1;
        }
        true
    }

    /// Bottom contact of the active piece on this board.
    pub fn is_resting(&self) -> (b: bool)
        requires
            wf_session(self@),
        ensures
            b == spec_resting(self@.board, self@.active),
    {
        proof {
            lemma_active_ok_anchor(self@.active);
        }
        let cells = crate::piece::piece_cells(&self.active);
        let mut i: usize = 0;
        while i < 4
            invariant
                wf_session(self@),
                cells@.len() == 4,
                forall|j: int|
                    0 <= j < 4 ==> ((#[trigger] cells@[j]).row as int, cells@[j].col as int)
                        == spec_cells(self@.active)[j],
                i <= 4,
                forall|j: int|
                    0 <= j < i ==> !occ(
                        self@.board,
                        (#[trigger] spec_cells(self@.active)[j]).0 + 1,
                        spec_cells(self@.active)[j].1,
                    ),
            decreases 4 - i,
        {
            let c = cells[i];
            proof {
                lemma_active_ok_anchor(self@.active);
            }
            if self.board.is_occupied(c.row + 1, c.col) {
                return true;
            }
            i = i + 1;
        }
        false
    }

    /// Corner contact of the active piece on this board.
    pub fn has_corner_contact(&self) -> (b: bool)
        requires
            wf_session(self@),
        ensures
            b == spec_corner_contact(self@.board, self@.active),
    {
        proof {
            lemma_active_ok_anchor(self@.active);
        }
        let cells = crate::piece::piece_cells(&self.active);
        let mut i: usize = 0;
        while i < 4
            invariant
                wf_session(self@),
                cells@.len() == 4,
                forall|j: int|
                    0 <= j < 4 ==> ((#[trigger] cells@[j]).row as int, cells@[j].col as int)
                        == spec_cells(self@.active)[j],
                i <= 4,
                forall|j: int|
                    0 <= j < i ==> !{
                        let c = #[trigger] spec_cells(self@.active)[j];
                        &&& !occ(self@.board, c.0 + 1, c.1)
                        &&& (occ(self@.board, c.0 + 1, c.1 - 1) || occ(self@.board, c.0 + 1, c.1 + 1))
                    },
            decreases 4 - i,
        {
            let c = cells[i];
            proof {
                lemma_active_ok_anchor(self@.active);
            }
            if !self.board.is_occupied(c.row + 1, c.col) && (self.board.is_occupied(
                c.row + 1,
                c.col - 1,
            ) || self.board.is_occupied(c.row + 1, c.col + 1)) {
                return true;
            }
            i = i + 1;
        }
        false
    }

    /// Attempts to shift the active piece by one step down, left or right.
    /// The move happens exactly when the shifted piece fits; otherwise the
    /// piece is unchanged and the wall or block simply stops it.
    pub fn move_active(&mut self, drow: i32, dcol: i32) -> (moved: bool)
        requires
            wf_session(old(self)@),
            0 <= drow <= 1,
            -1 <= dcol <= 1,
        ensures
            wf_session(final(self)@),
            moved == spec_can_move(old(self)@.board, old(self)@.active, drow as int, dcol as int),
            final(self)@ == if moved {
                SessionModel {
                    active: shifted_piece(old(self)@.active, drow as int, dcol as int),
                    ..old(self)@
                }
            } else {
                old(self)@
            },
    {
        proof {
            lemma_active_ok_anchor(self@.active);
            lemma_shifted_cells(self@.active, drow as int, dcol as int);
        }
        let candidate = ActivePiece {
            kind: self.active.kind,
            rot: self.active.rot,
            anchor_row: self.active.anchor_row + drow,
            anchor_col: self.active.anchor_col + dcol,
        };
        if self.fits(&candidate) {
            proof {
                let m = old(self)@;
                assert forall|i: int| 0 <= i < 4 implies {
                    let c = #[trigger] spec_cells(candidate)[i];
                    0 <= c.1 < 10 && -6 <= c.0 <= 19
                } by {
                    assert(!occ(m.board, spec_cells(candidate)[i].0, spec_cells(candidate)[i].1));
                    assert(spec_cells(candidate)[i].0 == spec_cells(m.active)[i].0 + drow);
                }
            }
            self.active = candidate;
            true
        } else {
            false
        }
    }

    /// The update of a rotate request: the kick-resolved turn, accepted
    /// only when it stays within the headroom above the field; a rejected
    /// rotation leaves the piece untouched.
    pub fn rotate_active(&mut self, clockwise: bool) -> (rotated: bool)
        requires
            wf_session(old(self)@),
        ensures
            wf_session(final(self)@),
            final(self)@ == spec_rotate_session(old(self)@, clockwise),
            rotated == (final(self)@ != old(self)@),
    {
        proof {
            reveal(spec_rotate_session);
            lemma_active_ok_anchor(self@.active);
        }
        let r = crate::kick::try_rotate(&self.board, &self.active, clockwise);
        match r {
            None => false,
            Some(q) => {
                proof {
                    assert(crate::piece::wf_anchor(q));
                }
                let cells = crate::piece::piece_cells(&q);
                let mut i: usize = 0;
                let mut in_headroom = true;
                while i < 4
                    invariant
                        cells@.len() == 4,
                        forall|j: int|
                            0 <= j < 4 ==> ((#[trigger] cells@[j]).row as int, cells@[j].col as int)
                                == spec_cells(q)[j],
                        i <= 4,
                        in_headroom == (forall|j: int|
                            0 <= j < i ==> (#[trigger] spec_cells(q)[j]).0 >= -6),
                    decreases 4 - i,
                {
                    let c = cells[i];
                    if c.row < -6 {
                        in_headroom = false;
                    }
                    i = i + 1;
                }
                if in_headroom {
                    proof {
                        assert forall|j: int| 0 <= j < 4 implies {
                            let c = #[trigger] spec_cells(q)[j];
                            0 <= c.1 < 10 && -6 <= c.0 <= 19
                        } by {
                            assert(!occ(old(self)@.board, spec_cells(q)[j].0, spec_cells(q)[j].1));
                        }
                    }
                    self.active = q;
                    true
                } else {
                    false
                }
            },
        }
    }

    /// The landing preview: the active piece moved straight down to the
    /// lowest position at which it still fits. If the piece does not even
    /// fit where it is (a spawn into the stack), the preview is the piece
    /// itself.
    pub fn ghost_piece(&self) -> (gp: ActivePiece)
        requires
            wf_session(self@),
        ensures
            gp == spec_drop(self@.board, self@.active),
            gp.kind == self@.active.kind,
            gp.rot == self@.active.rot,
            gp.anchor_col == self@.active.anchor_col,
            active_ok(gp),
            !piece_fits(self@.board, self@.active) ==> gp == self@.active,
            piece_fits(self@.board, self@.active) ==> {
                let d = gp.anchor_row - self@.active.anchor_row;
                &&& d >= 0
                &&& forall|e: int|
                    0 <= e <= d ==> piece_fits(
                        self@.board,
                        shifted_piece(self@.active, e, 0),
                    )
                &&& !piece_fits(self@.board, shifted_piece(self@.active, d + 1, 0))
            },
    {
        proof {
            reveal(spec_drop);
            lemma_active_ok_anchor(self@.active);
        }
        if !self.fits(&self.active) {
            proof {
                assert(shifted_piece(self@.active, 0, 0) == self@.active);
            }
            return self.active;
        }
        let mut d: i32 = 0;
        loop
            invariant
                wf_session(self@),
                0 <= d <= 26,
                piece_fits(self@.board, self@.active),
                forall|e: int|
                    0 <= e <= d ==> piece_fits(self@.board, shifted_piece(self@.active, e, 0)),
                fall_dist(self@.board, self@.active, 0) == fall_dist(
                    self@.board,
                    self@.active,
                    d as int,
                ),
            decreases 26 - d,
        {
            proof {
                lemma_active_ok_anchor(self@.active);
                lemma_shifted_cells(self@.active, d as int, 0);
                lemma_shifted_cells(self@.active, d as int + 1, 0);
                assert(spec_cells(shifted_piece(self@.active, d as int, 0))[0].0 <= 19);
                assert(spec_cells(self@.active)[0].0 >= -6);
                assert(d <= 25);
            }
            let candidate = ActivePiece {
                kind: self.active.kind,
                rot: self.active.rot,
                anchor_row: self.active.anchor_row + d + 1,
                anchor_col: self.active.anchor_col,
            };
            if !self.fits(&candidate) {
                let gp = ActivePiece {
                    kind: self.active.kind,
                    rot: self.active.rot,
                    anchor_row: self.active.anchor_row + d,
                    anchor_col: self.active.anchor_col,
                };
                proof {
                    reveal(spec_drop);
                    assert(gp == shifted_piece(self@.active, d as int, 0));
                    assert(candidate == shifted_piece(self@.active, d + 1, 0));
                    assert(fall_dist(self@.board, self@.active, d as int) == d as int);
                    assert forall|i: int| 0 <= i < 4 implies {
                        let c = #[trigger] spec_cells(gp)[i];
                        0 <= c.1 < 10 && -6 <= c.0 <= 19
                    } by {
                        assert(!occ(self@.board, spec_cells(gp)[i].0, spec_cells(gp)[i].1));
                        assert(spec_cells(gp)[i].0 == spec_cells(self@.active)[i].0 + d);
                    }
                }
                return gp;
            }
            d = d + 1;
        }
    }
}

/// The number of rows the piece can still fall from `d` rows below its
/// position: the first `e >= d` at which one more row down no longer fits.
pub open spec fn fall_dist(g: Seq<Option<u64>>, p: ActivePiece, d: int) -> int
    decreases 26 - d,
{
    if d >= 26 {
        d
    } else if !piece_fits(g, shifted_piece(p, d + 1, 0)) {
        d
    } else {
        fall_dist(g, p, d + 1)
    }
}

/// The landing position of a piece: the piece moved straight down as far
/// as it fits, or the piece itself if it does not fit where it is.
#[verifier::opaque]
pub open spec fn spec_drop(g: Seq<Option<u64>>, p: ActivePiece) -> ActivePiece {
    if piece_fits(g, p) {
        shifted_piece(p, fall_dist(g, p, 0), 0)
    } else {
        p
    }
}

/// The model of a rotate request: the kick resolver's verdict, filtered by
/// the headroom bound, and the identity when play is not running or the
/// rotation is rejected.
#[verifier::opaque]
pub open spec fn spec_rotate_session(m: SessionModel, clockwise: bool) -> SessionModel {
    match crate::kick::spec_try_rotate(m.board, m.active, clockwise) {
        None => m,
        Some(q) => {
            if forall|i: int| 0 <= i < 4 ==> (#[trigger] spec_cells(q)[i]).0 >= -6 {
                SessionModel { active: q, ..m }
            } else {
                m
            }
        },
    }
}

/// Whether a lock would commit a cell at or above the top row of the
/// field: the piece could not fully enter before coming to rest.
pub open spec fn lock_overflows(p: ActivePiece) -> bool {
    exists|i: int| 0 <= i < 4 && (#[trigger] spec_cells(p)[i]).0 <= 0
}

/// Whether the block arena can no longer issue four fresh ids. Unreachable
/// on any real machine; checking it keeps id allocation total.
pub open spec fn arena_full(m: SessionModel) -> bool {
    m.blocks.len() + 4 > u64::MAX
}

/// Whether a lock ends the session instead of committing: a cell at or
/// above the top row, a piece that overlaps the stack (a spawn that never
/// fit), or an exhausted id space.
pub open spec fn lock_fails(m: SessionModel) -> bool {
    ||| lock_overflows(m.active)
    ||| !piece_fits(m.board, m.active)
    ||| arena_full(m)
}

/// The position of `(r, c)` among four cells, or -1: the slot whose block
/// id the cell receives when the piece is committed.
pub open spec fn cell_slot(cs: Seq<(int, int)>, r: int, c: int) -> int {
    if cs[0] == (r, c) {
        0
    } else if cs[1] == (r, c) {
        1
    } else if cs[2] == (r, c) {
        2
    } else if cs[3] == (r, c) {
        3
    } else {
        -1
    }
}

/// A 20 x 10 grid built from a per-cell description.
pub open spec fn grid_from(f: spec_fn(int, int) -> Option<u64>) -> Seq<Option<u64>> {
    Seq::new(200, |i: int| f(i / 10, i % 10))
}

/// A built grid reads back its description cell by cell.
pub proof fn lemma_grid_from_at(f: spec_fn(int, int) -> Option<u64>)
    ensures
        board_wf(grid_from(f)),
        forall|r: int, c: int| in_field(r, c) ==> #[trigger] at(grid_from(f), r, c) == f(r, c),
{
    assert forall|r: int, c: int| in_field(r, c) implies #[trigger] at(grid_from(f), r, c) == f(
        r,
        c,
    ) by {
        let idx = r * 10 + c;
        vstd::arithmetic::div_mod::lemma_fundamental_div_mod_converse(idx, 10, r, c);
        assert(0 <= idx < 200);
    }
}

/// Two well-formed grids that agree on every field cell are equal.
pub proof fn lemma_grid_ext(g1: Seq<Option<u64>>, g2: Seq<Option<u64>>)
    requires
        board_wf(g1),
        board_wf(g2),
        forall|r: int, c: int| in_field(r, c) ==> #[trigger] at(g1, r, c) == at(g2, r, c),
    ensures
        g1 =~= g2,
{
    assert forall|idx: int| 0 <= idx < 200 implies g1[idx] == g2[idx] by {
        vstd::arithmetic::div_mod::lemma_fundamental_div_mod(idx, 10);
        vstd::arithmetic::div_mod::lemma_mod_division_less_than_divisor(idx, 10);
        let r = idx / 10;
        let c = idx % 10;
        assert(idx == 10 * r + c);
        assert(in_field(r, c));
        assert(at(g1, r, c) == at(g2, r, c));
    }
}

/// The board after committing four cells with fresh block ids starting at
/// `first`: each committed cell holds its slot's id, the rest is unchanged.
pub open spec fn place_model(g: Seq<Option<u64>>, cs: Seq<(int, int)>, first: int) -> Seq<
    Option<u64>,
> {
    grid_from(
        |r: int, c: int|
            if cell_slot(cs, r, c) >= 0 {
                Some((first + cell_slot(cs, r, c)) as u64)
            } else {
                at(g, r, c)
            },
    )
}

/// The board after clearing `rows`: the vacated top rows empty, the
/// surviving rows shifted down in their original order.
pub open spec fn clear_model(g: Seq<Option<u64>>, rows: Seq<usize>) -> Seq<Option<u64>> {
    grid_from(
        |r: int, c: int|
            if r < rows.len() {
                None
            } else {
                at(g, crate::board::kept_indices(20, rows)[r - rows.len()], c)
            },
    )
}

/// Saturating addition of a non-negative delta to a score.
pub open spec fn sat_add_u64(a: u64, b: int) -> u64 {
    if a + b > u64::MAX {
        u64::MAX
    } else {
        (a + b) as u64
    }
}

/// The model of a lock: on failure the session merely ends; otherwise the
/// four cells are committed under fresh block ids, the placement and line
/// awards are added, full rows are cleared and shifted, the level advances
/// every tenth line, and the queue head spawns as the next active piece.
#[verifier::opaque]
pub open spec fn spec_lock(m: SessionModel, refill: PieceType) -> SessionModel {
    if lock_fails(m) {
        SessionModel { state: GameState::GameOver, ..m }
    } else {
        let cs = spec_cells(m.active);
        let first = m.blocks.len() as int;
        let placed = place_model(m.board, cs, first);
        let rows = crate::board::full_rows_upto(placed, 20);
        let cleared = rows.len() as int;
        let board2 = if cleared == 0 {
            placed
        } else {
            clear_model(placed, rows)
        };
        let delta = crate::score::spec_placement_score(cs) + crate::score::spec_line_base(cleared)
            * m.level;
        let leveled = m.lines_to_level + cleared >= 10;
        let level2 = crate::score::spec_level_after(m.level, m.lines_to_level, cleared as u32, false);
        let interval2 = if leveled {
            crate::score::spec_next_interval(m.fall_interval_ms, level2)
        } else {
            m.fall_interval_ms as int
        };
        let k = m.active.kind;
        SessionModel {
            state: m.state,
            board: board2,
            active: spawn_model(m.next_queue[0], spec_spawn_raise(board2)),
            next_queue: m.next_queue.drop_first().push(refill),
            hold_slot: m.hold_slot,
            can_hold: true,
            score: sat_add_u64(m.score, delta),
            level: level2 as u32,
            lines_to_level: crate::score::spec_lines_after(
                m.lines_to_level,
                cleared as u32,
                false,
            ) as u32,
            fall_interval_ms: interval2 as u64,
            fall_elapsed_ms: 0,
            grace_elapsed_ms: 0,
            pending_lock: false,
            blocks: m.blocks.push(k).push(k).push(k).push(k),
        }
    }
}

/// The events a lock emits, in order: the end of the session on failure;
/// otherwise the destruction of the active piece, a clear if any rows
/// filled, and a level-up if the clear reached the tenth line.
#[verifier::opaque]
pub open spec fn spec_lock_events(m: SessionModel) -> Seq<GameEvent> {
    if lock_fails(m) {
        seq![GameEvent::GameOver]
    } else {
        let placed = place_model(m.board, spec_cells(m.active), m.blocks.len() as int);
        let cleared = crate::board::full_rows_upto(placed, 20).len() as int;
        let leveled = m.lines_to_level + cleared >= 10;
        seq![GameEvent::PiecePlaced] + (if cleared > 0 {
            seq![GameEvent::LinesCleared(cleared as u32)]
        } else {
            Seq::empty()
        }) + (if leveled {
            seq![GameEvent::LeveledUp]
        } else {
            Seq::empty()
        })
    }
}

/// Locking a piece with a cell at or above the top row ends the session:
/// the state becomes GameOver and board, score, level and queue are left
/// exactly as they were.
pub proof fn lemma_lock_game_over(m: SessionModel, refill: PieceType)
    requires
        lock_overflows(m.active),
    ensures
        spec_lock(m, refill) == (SessionModel { state: GameState::GameOver, ..m }),
        spec_lock(m, refill).board == m.board,
        spec_lock(m, refill).score == m.score,
{
    reveal(spec_lock);
}

impl GameSession {
    /// Commits the active piece: its four cells become board blocks, the
    /// awards are scored, full rows clear and shift, the level advances,
    /// and the queue head becomes the next active piece with `refill`
    /// drawn into the queue. A piece that could not fully enter the field
    /// ends the session instead, leaving the board untouched. Emitted
    /// events are appended to `events`.
    #[verifier::rlimit(100)]
    pub fn lock_active(&mut self, refill: PieceType, events: &mut Vec<GameEvent>)
        requires
            wf_session(old(self)@),
        ensures
            wf_session(final(self)@),
            final(self)@ == spec_lock(old(self)@, refill),
            final(events)@ == old(events)@ + spec_lock_events(old(self)@),
    {
        let ghost m0 = self@;
        proof {
            reveal(spec_lock);
            reveal(spec_lock_events);
            lemma_active_ok_anchor(self@.active);
            crate::piece::lemma_cells_distinct(self@.active);
        }
        let cells = crate::piece::piece_cells(&self.active);
        let mut overflow = false;
        let mut i: usize = 0;
        while i < 4
            invariant
                cells@.len() == 4,
                forall|j: int|
                    0 <= j < 4 ==> ((#[trigger] cells@[j]).row as int, cells@[j].col as int)
                        == spec_cells(m0.active)[j],
                i <= 4,
                overflow == (exists|j: int|
                    0 <= j < i && (#[trigger] spec_cells(m0.active)[j]).0 <= 0),
            decreases 4 - i,
        {
            if cells[i].row <= 0 {
                overflow = true;
                proof {
                    assert(spec_cells(m0.active)[i as int].0 <= 0);
                }
            }
            i = i + 1;
        }
        let fit = self.fits(&self.active);
        let first: u64 = self.blocks.len() as u64;
        if overflow || !fit || first > u64::MAX - 4 {
            self.state = GameState::GameOver;
            events.push(GameEvent::GameOver);
            proof {
                assert(lock_fails(m0));
                assert(self@ =~= spec_lock(m0, refill));
                assert(final(events)@ =~= old(events)@ + spec_lock_events(m0));
            }
            return;
        }
        let ghost cs = spec_cells(m0.active);
        proof {
            assert forall|j: int| 0 <= j < 4 implies in_field(
                (#[trigger] cells@[j]).row as int,
                cells@[j].col as int,
            ) by {
                assert(!(spec_cells(m0.active)[j].0 <= 0));
                assert(!occ(m0.board, spec_cells(m0.active)[j].0, spec_cells(m0.active)[j].1));
            }
        }
        events.push(GameEvent::PiecePlaced);
        self.board.place_cells(&cells, first);
        let k = self.active.kind;
        self.blocks.push(k);
        self.blocks.push(k);
        self.blocks.push(k);
        self.blocks.push(k);
        let ghost placed = place_model(m0.board, cs, first as int);
        proof {
            let f = |r: int, c: int|
                if cell_slot(cs, r, c) >= 0 {
                    Some((first + cell_slot(cs, r, c)) as u64)
                } else {
                    at(m0.board, r, c)
                };
            lemma_grid_from_at(f);
            assert forall|r: int, c: int| in_field(r, c) implies #[trigger] at(self.board@, r, c)
                == at(placed, r, c) by {
                let s = cell_slot(cs, r, c);
                if s >= 0 {
                    assert(cs[s] == (r, c));
                    assert((cells@[s].row as int, cells@[s].col as int) == (r, c));
                    assert(at(self.board@, r, c) == Some((first + s) as u64));
                } else {
                    assert forall|j: int| 0 <= j < 4 implies !((#[trigger] cells@[j]).row as int
                        == r && cells@[j].col as int == c) by {
                        assert(cs[j] == (cells@[j].row as int, cells@[j].col as int));
                    }
                }
            }
            lemma_grid_ext(self.board@, placed);
            assert(self.board@ == placed);
            assert(board_ids_ok(self.board@, self.blocks@.len() as int)) by {
                assert forall|r: int, c: int|
                    in_field(r, c) && #[trigger] at(self.board@, r, c) is Some implies at(
                    self.board@,
                    r,
                    c,
                )->Some_0 < self.blocks@.len() as int by {
                    if cell_slot(cs, r, c) < 0 {
                        assert(at(self.board@, r, c) == at(m0.board, r, c));
                    }
                }
            }
        }
        let prows = self.board.full_rows();
        let ghost rows = prows@;
        let cleared_n: u32 = prows.len() as u32;
        if cleared_n > 0 {
            self.board.clear_and_shift(&prows);
            events.push(GameEvent::LinesCleared(cleared_n));
            proof {
                let g = |r: int, c: int|
                    if r < rows.len() {
                        None
                    } else {
                        at(placed, crate::board::kept_indices(20, rows)[r - rows.len()], c)
                    };
                lemma_grid_from_at(g);
                crate::board::lemma_kept_indices(20, rows);
                assert forall|r: int, c: int|
                    in_field(r, c) implies #[trigger] at(self.board@, r, c) == at(
                    clear_model(placed, rows),
                    r,
                    c,
                ) by {
                    if r >= rows.len() {
                        assert(0 <= crate::board::kept_indices(20, rows)[r - rows.len()] < 20);
                    }
                }
                lemma_grid_ext(self.board@, clear_model(placed, rows));
                assert(board_ids_ok(self.board@, self.blocks@.len() as int)) by {
                    assert forall|r: int, c: int|
                        in_field(r, c) && #[trigger] at(self.board@, r, c) is Some implies at(
                        self.board@,
                        r,
                        c,
                    )->Some_0 < self.blocks@.len() as int by {
                        if r >= rows.len() {
                            let kr = crate::board::kept_indices(20, rows)[r - rows.len()];
                            assert(at(self.board@, r, c) == at(placed, kr, c));
                            assert(in_field(kr, c));
                        }
                    }
                }
            }
        }
        let ps = crate::score::placement_score(&cells);
        let ls = crate::score::line_score(cleared_n, self.level);
        proof {
            assert(crate::piece::cells_view(cells@) =~= cs);
            assert(ls <= 800 * 0xffff_ffffu64);
        }
        let delta: u64 = ps as u64 + ls;
        self.score = if self.score > u64::MAX - delta {
            u64::MAX
        } else {
            self.score + delta
        };
        let lv_ln = crate::score::update_level(self.level, self.lines_to_level, cleared_n, false);
        self.level = lv_ln.0;
        self.lines_to_level = lv_ln.1;
        if lv_ln.2 {
            self.fall_interval_ms = crate::score::next_fall_interval(self.fall_interval_ms, lv_ln.0);
            events.push(GameEvent::LeveledUp);
        }
        let raise = self.spawn_raise();
        let head = self.next_queue.remove(0);
        self.next_queue.push(refill);
        self.active = crate::piece::spawn_piece(head, raise);
        self.can_hold = true;
        self.pending_lock = false;
        self.grace_elapsed_ms = 0;
        self.fall_elapsed_ms = 0;
        proof {
            lemma_spawn_ok(head, raise as int);
            assert(self.next_queue@ =~= m0.next_queue.drop_first().push(refill));
            assert(self.blocks@ =~= m0.blocks.push(k).push(k).push(k).push(k));
            assert(!lock_fails(m0));
            assert(self@ =~= spec_lock(m0, refill));
            assert(final(events)@ =~= old(events)@ + spec_lock_events(m0));
        }
    }
}

/// The gravity stage: soft drop suppresses automatic falling and resets
/// the timer; otherwise the timer advances by the elapsed time and a drop
/// falls due when it reaches the fall interval.
pub open spec fn spec_gravity(m: SessionModel, soft: bool, dt: u64) -> (SessionModel, bool) {
    if soft {
        (SessionModel { fall_elapsed_ms: 0, ..m }, false)
    } else {
        let t = sat_add_u64(m.fall_elapsed_ms, dt as int);
        if t >= m.fall_interval_ms {
            (SessionModel { fall_elapsed_ms: 0, ..m }, true)
        } else {
            (SessionModel { fall_elapsed_ms: t, ..m }, false)
        }
    }
}

/// The horizontal input stage: opposite keys cancel; a single key moves
/// the piece one column if the target cells are free.
pub open spec fn spec_horizontal(m: SessionModel, left: bool, right: bool) -> (SessionModel, bool) {
    let dx: int = if left && !right {
        -1
    } else if right && !left {
        1
    } else {
        0
    };
    if dx != 0 && spec_can_move(m.board, m.active, 0, dx) {
        (SessionModel { active: shifted_piece(m.active, 0, dx), ..m }, true)
    } else {
        (m, false)
    }
}

/// One row of descent, if the cells below are free.
pub open spec fn spec_descend(m: SessionModel) -> SessionModel {
    if spec_can_move(m.board, m.active, 1, 0) {
        SessionModel { active: shifted_piece(m.active, 1, 0), ..m }
    } else {
        m
    }
}

/// The vertical stage: hard drop sends the piece to its landing position;
/// soft drop descends one row unless a corner contact suppresses the
/// diagonal move; otherwise a due gravity step descends one row.
pub open spec fn spec_vertical(
    m: SessionModel,
    input: InputState,
    moved: bool,
    gravity_due: bool,
) -> SessionModel {
    if input.hard_drop {
        SessionModel { active: spec_drop(m.board, m.active), ..m }
    } else if input.soft_drop {
        if moved && spec_corner_contact(m.board, m.active) {
            m
        } else {
            spec_descend(m)
        }
    } else if gravity_due {
        spec_descend(m)
    } else {
        m
    }
}

/// The rotation stage: exactly one rotate key turns the piece through the
/// kick resolver; the flag says whether anything changed.
pub open spec fn spec_rotate_request(m: SessionModel, cw_key: bool, ccw_key: bool) -> (
    SessionModel,
    bool,
) {
    if cw_key && !ccw_key {
        let m2 = spec_rotate_session(m, true);
        (m2, m2 != m)
    } else if ccw_key && !cw_key {
        let m2 = spec_rotate_session(m, false);
        (m2, m2 != m)
    } else {
        (m, false)
    }
}

/// The lock-evaluation stage: bottom contact arms the pending lock and
/// advances the grace timer; a downward input or an expired grace period
/// locks the piece at once, while losing contact cancels the pending lock.
pub open spec fn spec_lock_stage(
    m: SessionModel,
    input: InputState,
    dt: u64,
    refill: PieceType,
) -> SessionModel {
    if spec_resting(m.board, m.active) {
        let g2 = sat_add_u64(m.grace_elapsed_ms, dt as int);
        let m1 = SessionModel { pending_lock: true, grace_elapsed_ms: g2, ..m };
        if input.hard_drop || input.soft_drop || g2 >= GRACE_PERIOD_MS {
            spec_lock(m1, refill)
        } else {
            m1
        }
    } else {
        SessionModel { pending_lock: false, grace_elapsed_ms: 0, ..m }
    }
}

/// The debug level trigger: while play runs it forces one level-up, with
/// the fall-interval change that a level-up brings.
pub open spec fn spec_manual_level(m: SessionModel, manual: bool) -> SessionModel {
    if manual && m.state == GameState::Playing {
        let lv = crate::score::spec_level_after(m.level, m.lines_to_level, 0, true);
        SessionModel {
            level: lv as u32,
            lines_to_level: crate::score::spec_lines_after(m.lines_to_level, 0, true) as u32,
            fall_interval_ms: crate::score::spec_next_interval(m.fall_interval_ms, lv) as u64,
            ..m
        }
    } else {
        m
    }
}

/// One full update of a running session, stage by stage in pipeline
/// order: gravity timing, hold, rotation (which suppresses movement and
/// gravity for the tick), horizontal and vertical movement, lock
/// evaluation, and the manual level trigger. The hold stage consumes
/// `refills[0]`; a lock consumes `refills[1]`.
#[verifier::opaque]
pub open spec fn spec_tick_playing(
    m: SessionModel,
    input: InputState,
    dt: u64,
    refills: Seq<PieceType>,
) -> SessionModel {
    let g = spec_gravity(m, input.soft_drop, dt);
    let m5 = spec_piece_control(g.0, input, g.1, refills[0]);
    let m6 = spec_lock_stage(m5, input, dt, refills[1]);
    spec_manual_level(m6, input.level_up)
}

/// The piece-control stages of one frame: hold, then rotation (which
/// suppresses movement and gravity for the tick), then horizontal and
/// vertical movement.
#[verifier::opaque]
pub open spec fn spec_piece_control(
    m: SessionModel,
    input: InputState,
    gravity_due: bool,
    refill: PieceType,
) -> SessionModel {
    let m2 = if input.hold {
        spec_hold(m, refill)
    } else {
        m
    };
    let r = spec_rotate_request(m2, input.rotate_cw, input.rotate_ccw);
    if r.1 {
        r.0
    } else {
        let h = spec_horizontal(r.0, input.move_left, input.move_right);
        spec_vertical(h.0, input, h.1, gravity_due)
    }
}

/// The events the piece-control stages emit, in order: the hold, then the
/// turn, then the sideways step, each only if it happened.
#[verifier::opaque]
pub open spec fn spec_control_events(
    m: SessionModel,
    input: InputState,
    gravity_due: bool,
    refill: PieceType,
) -> Seq<GameEvent> {
    let held = input.hold && m.state == GameState::Playing && m.can_hold;
    let m2 = if input.hold {
        spec_hold(m, refill)
    } else {
        m
    };
    let r = spec_rotate_request(m2, input.rotate_cw, input.rotate_ccw);
    let moved = !r.1 && spec_horizontal(r.0, input.move_left, input.move_right).1;
    (if held {
        seq![GameEvent::HeldPiece]
    } else {
        Seq::empty()
    }) + (if r.1 {
        seq![GameEvent::Rotated]
    } else {
        Seq::empty()
    }) + (if moved {
        seq![GameEvent::Moved]
    } else {
        Seq::empty()
    })
}

/// The events the lock-evaluation stage emits: the lock's own events when
/// it fires, nothing otherwise.
pub open spec fn spec_lock_stage_events(m: SessionModel, input: InputState, dt: u64) -> Seq<
    GameEvent,
> {
    if spec_resting(m.board, m.active) {
        let g2 = sat_add_u64(m.grace_elapsed_ms, dt as int);
        if input.hard_drop || input.soft_drop || g2 >= GRACE_PERIOD_MS {
            spec_lock_events(SessionModel { pending_lock: true, grace_elapsed_ms: g2, ..m })
        } else {
            Seq::empty()
        }
    } else {
        Seq::empty()
    }
}

/// The events one running frame emits: the piece-control events, then the
/// lock's events if the grace period expired or a drop forced it, then a
/// level-up from the manual trigger.
#[verifier::opaque]
pub open spec fn spec_playing_events(
    m: SessionModel,
    input: InputState,
    dt: u64,
    refills: Seq<PieceType>,
) -> Seq<GameEvent> {
    let g = spec_gravity(m, input.soft_drop, dt);
    let ctrl = spec_control_events(g.0, input, g.1, refills[0]);
    let m5 = spec_piece_control(g.0, input, g.1, refills[0]);
    let lock_ev = spec_lock_stage_events(m5, input, dt);
    let m6 = spec_lock_stage(m5, input, dt, refills[1]);
    let level_ev = if input.level_up && m6.state == GameState::Playing {
        seq![GameEvent::LeveledUp]
    } else {
        Seq::empty()
    };
    ctrl + lock_ev + level_ev
}

/// The events of one frame of the whole session: only a running,
/// unpaused frame emits any.
#[verifier::opaque]
pub open spec fn spec_tick_events(
    m: SessionModel,
    input: InputState,
    dt: u64,
    refills: Seq<PieceType>,
) -> Seq<GameEvent> {
    if input.restart || m.state != GameState::Playing || input.pause {
        Seq::empty()
    } else {
        spec_playing_events(m, input, dt, refills)
    }
}

/// An entirely empty board.
pub open spec fn empty_grid() -> Seq<Option<u64>> {
    grid_from(|r: int, c: int| None)
}

/// One frame of the whole session: restart wins in every state; a finished
/// session ignores everything else; the title and pause screens react only
/// to the pause toggle; a running session pauses or runs the pipeline.
#[verifier::opaque]
pub open spec fn spec_tick(
    m: SessionModel,
    input: InputState,
    dt: u64,
    refills: Seq<PieceType>,
) -> SessionModel {
    if input.restart {
        fresh_model(GameState::Playing, empty_grid(), refills[0], refills[1], refills[2], refills[3])
    } else if m.state == GameState::Title || m.state == GameState::Paused {
        if input.pause {
            SessionModel { state: GameState::Playing, ..m }
        } else {
            m
        }
    } else if m.state == GameState::GameOver {
        m
    } else if input.pause {
        SessionModel { state: GameState::Paused, ..m }
    } else {
        spec_tick_playing(m, input, dt, refills)
    }
}

/// A finished session stands still: until the restart action, a tick in
/// the GameOver state changes nothing, whatever else is pressed.
pub proof fn lemma_game_over_halts(m: SessionModel, input: InputState, dt: u64, refills: Seq<PieceType>)
    requires
        m.state == GameState::GameOver,
        !input.restart,
    ensures
        spec_tick(m, input, dt, refills) == m,
{
    reveal(spec_tick);
}

impl GameSession {
    /// Advances the session by one frame: `dt_ms` of elapsed time, the
    /// frame's input snapshot, and four drawn pieces (`refills[0]` feeds a
    /// hold, `refills[1]` a lock, all four a restart). Returns the events
    /// the frame emitted, in order.
    #[verifier::rlimit(100)]
    pub fn tick(&mut self, input: InputState, dt_ms: u64, refills: &Vec<PieceType>) -> (events:
        Vec<GameEvent>)
        requires
            wf_session(old(self)@),
            refills@.len() == 4,
        ensures
            wf_session(final(self)@),
            final(self)@ == spec_tick(old(self)@, input, dt_ms, refills@),
            events@ == spec_tick_events(old(self)@, input, dt_ms, refills@),
    {
        let ghost m0 = self@;
        proof {
            reveal(spec_tick);
            reveal(spec_tick_events);
        }
        let mut events: Vec<GameEvent> = Vec::new();
        if input.restart {
            self.restart(refills[0], refills[1], refills[2], refills[3]);
            proof {
                lemma_grid_from_at(|r: int, c: int| None::<u64>);
                lemma_grid_ext(self@.board, empty_grid());
                assert(self@ =~= spec_tick(m0, input, dt_ms, refills@));
            }
            return events;
        }
        match self.state {
            GameState::Title => {
                if input.pause {
                    self.toggle_pause();
                }
                return events;
            },
            GameState::Paused => {
                if input.pause {
                    self.toggle_pause();
                }
                return events;
            },
            GameState::GameOver => {
                return events;
            },
            GameState::Playing => {},
        }
        if input.pause {
            self.toggle_pause();
            return events;
        }
        self.tick_playing(input, dt_ms, refills, &mut events);
        proof {
            assert(self@ =~= spec_tick(m0, input, dt_ms, refills@));
        }
        events
    }

    /// The pipeline of one running frame, in stage order; see `spec_tick_playing`.
    #[verifier::rlimit(100)]
    fn tick_playing(
        &mut self,
        input: InputState,
        dt_ms: u64,
        refills: &Vec<PieceType>,
        events: &mut Vec<GameEvent>,
    )
        requires
            wf_session(old(self)@),
            refills@.len() == 4,
            old(self)@.state == GameState::Playing,
        ensures
            wf_session(final(self)@),
            final(self)@ == spec_tick_playing(old(self)@, input, dt_ms, refills@),
            final(events)@ == old(events)@ + spec_playing_events(old(self)@, input, dt_ms, refills@),
    {
        let ghost m0 = self@;
        let ghost ev0 = events@;
        let mut gravity_due = false;
        if input.soft_drop {
            self.fall_elapsed_ms = 0;
        } else {
            let t = if self.fall_elapsed_ms > u64::MAX - dt_ms {
                u64::MAX
            } else {
                self.fall_elapsed_ms + dt_ms
            };
            if t >= self.fall_interval_ms {
                self.fall_elapsed_ms = 0;
                gravity_due = true;
            } else {
                self.fall_elapsed_ms = t;
            }
        }
        let ghost m1 = self@;
        proof {
            assert(m1 =~= spec_gravity(m0, input.soft_drop, dt_ms).0);
            assert(gravity_due == spec_gravity(m0, input.soft_drop, dt_ms).1);
        }
        self.stage_piece_control(input, gravity_due, refills[0], events);
        let ghost m5 = self@;
        let ghost ev_ctrl = events@;
        self.stage_lock(input, dt_ms, refills[1], events);
        let ghost m6 = self@;
        if input.level_up && matches!(self.state, GameState::Playing) {
            let lr = crate::score::update_level(self.level, self.lines_to_level, 0, true);
            self.level = lr.0;
            self.lines_to_level = lr.1;
            self.fall_interval_ms = crate::score::next_fall_interval(self.fall_interval_ms, lr.0);
            events.push(GameEvent::LeveledUp);
        }
        proof {
            assert(self@ =~= spec_manual_level(m6, input.level_up));
            reveal(spec_tick_playing);
            assert(self@ =~= spec_tick_playing(m0, input, dt_ms, refills@));
            assert(events@ =~= ev0 + spec_playing_events(m0, input, dt_ms, refills@)) by {
                reveal(spec_playing_events);
                assert(ev_ctrl =~= ev0 + spec_control_events(
                    spec_gravity(m0, input.soft_drop, dt_ms).0,
                    input,
                    spec_gravity(m0, input.soft_drop, dt_ms).1,
                    refills@[0],
                ));
            }
        }
    }

    /// The lock-evaluation stage of one frame; see `spec_lock_stage`.
    #[verifier::rlimit(100)]
    fn stage_lock(
        &mut self,
        input: InputState,
        dt_ms: u64,
        refill: PieceType,
        events: &mut Vec<GameEvent>,
    )
        requires
            wf_session(old(self)@),
        ensures
            wf_session(final(self)@),
            final(self)@ == spec_lock_stage(old(self)@, input, dt_ms, refill),
            final(events)@ == old(events)@ + spec_lock_stage_events(old(self)@, input, dt_ms),
    {
        let ghost m5 = self@;
        let ghost ev0 = events@;
        let resting = self.is_resting();
        if resting {
            self.pending_lock = true;
            let g2 = if self.grace_elapsed_ms > u64::MAX - dt_ms {
                u64::MAX
            } else {
                self.grace_elapsed_ms + dt_ms
            };
            self.grace_elapsed_ms = g2;
            if input.hard_drop || input.soft_drop || g2 >= GRACE_PERIOD_MS {
                self.lock_active(refill, events);
            }
        } else {
            self.pending_lock = false;
            self.grace_elapsed_ms = 0;
        }
        proof {
            assert(self@ =~= spec_lock_stage(m5, input, dt_ms, refill));
            assert(events@ =~= ev0 + spec_lock_stage_events(m5, input, dt_ms));
        }
    }

    /// The hold, rotation and movement stages of one frame; see
    /// `spec_piece_control`.
    #[verifier::rlimit(100)]
    fn stage_piece_control(
        &mut self,
        input: InputState,
        gravity_due: bool,
        refill: PieceType,
        events: &mut Vec<GameEvent>,
    )
        requires
            wf_session(old(self)@),
            old(self)@.state == GameState::Playing,
        ensures
            wf_session(final(self)@),
            final(self)@ == spec_piece_control(old(self)@, input, gravity_due, refill),
            final(events)@ == old(events)@ + spec_control_events(
                old(self)@,
                input,
                gravity_due,
                refill,
            ),
    {
        let ghost m1 = self@;
        let ghost ev0 = events@;
        proof {
            reveal(spec_piece_control);
            reveal(spec_control_events);
        }
        if input.hold {
            let held = self.hold_piece(refill);
            if held {
                events.push(GameEvent::HeldPiece);
            }
        }
        let ghost m2 = self@;
        proof {
            assert(m2 == if input.hold {
                spec_hold(m1, refill)
            } else {
                m1
            });
        }
        let mut rotated = false;
        if input.rotate_cw && !input.rotate_ccw {
            rotated = self.rotate_active(true);
        } else if input.rotate_ccw && !input.rotate_cw {
            rotated = self.rotate_active(false);
        }
        if rotated {
            events.push(GameEvent::Rotated);
        }
        let ghost m3 = self@;
        proof {
            assert(m3 == spec_rotate_request(m2, input.rotate_cw, input.rotate_ccw).0);
            assert(rotated == spec_rotate_request(m2, input.rotate_cw, input.rotate_ccw).1);
        }
        if !rotated {
            let mut moved = false;
            let dx: i32 = if input.move_left && !input.move_right {
                -1
            } else if input.move_right && !input.move_left {
                1
            } else {
                0
            };
            if dx != 0 {
                moved = self.move_active(0, dx);
            }
            if moved {
                events.push(GameEvent::Moved);
            }
            let ghost m4 = self@;
            proof {
                assert(m4 == spec_horizontal(m3, input.move_left, input.move_right).0);
                assert(moved == spec_horizontal(m3, input.move_left, input.move_right).1);
            }
            if input.hard_drop {
                let gp = self.ghost_piece();
                self.active = gp;
            } else if input.soft_drop {
                let corner = self.has_corner_contact();
                if !(moved && corner) {
                    let _ = self.move_active(1, 0);
                }
            } else if gravity_due {
                let _ = self.move_active(1, 0);
            }
            proof {
                assert(self@ =~= spec_vertical(m4, input, moved, gravity_due));
            }
        }
        proof {
            assert(self@ == if spec_rotate_request(m2, input.rotate_cw, input.rotate_ccw).1 {
                m3
            } else {
                spec_vertical(
                    spec_horizontal(m3, input.move_left, input.move_right).0,
                    input,
                    spec_horizontal(m3, input.move_left, input.move_right).1,
                    gravity_due,
                )
            });
        }
    }

    /// The kind of a placed block, for drawing; `None` for an id the arena
    /// never issued.
    pub fn block_kind(&self, id: u64) -> (r: Option<PieceType>)
        ensures
            r == if id < self@.blocks.len() {
                Some(self@.blocks[id as int])
            } else {
                None
            },
    {
        let n = self.blocks.len() as u64;
        if id < n {
            Some(self.blocks[id as usize])
        } else {
            None
        }
    }
}

/// Clearing no rows at all is a no-op: every kept row is itself.
pub proof fn lemma_clear_no_rows_noop(g: Seq<Option<u64>>)
    requires
        board_wf(g),
    ensures
        clear_model(g, Seq::<usize>::empty()) == g,
{
    lemma_kept_identity(20);
    let rows = Seq::<usize>::empty();
    let f = |r: int, c: int|
        if r < rows.len() {
            None
        } else {
            at(g, crate::board::kept_indices(20, rows)[r - rows.len()], c)
        };
    lemma_grid_from_at(f);
    assert forall|r: int, c: int| in_field(r, c) implies #[trigger] at(
        clear_model(g, rows),
        r,
        c,
    ) == at(g, r, c) by {
        assert(crate::board::kept_indices(20, rows)[r] == r);
    }
    lemma_grid_ext(clear_model(g, rows), g);
}

/// With nothing cleared, the kept rows are the identity enumeration.
proof fn lemma_kept_identity(n: int)
    requires
        0 <= n <= 20,
    ensures
        crate::board::kept_indices(n, Seq::<usize>::empty()).len() == n,
        forall|i: int|
            0 <= i < n ==> #[trigger] crate::board::kept_indices(n, Seq::<usize>::empty())[i] == i,
    decreases n,
{
    if n > 0 {
        lemma_kept_identity(n - 1);
        assert(!Seq::<usize>::empty().contains((n - 1) as usize));
    }
}

impl GameSession {
    /// A fresh session whose starting piece and preview queue are drawn
    /// uniformly at random: whatever the draws produced, the result is a
    /// fresh Title session on an empty board for some four kinds.
    pub fn new_random() -> (s: GameSession)
        ensures
            wf_session(s@),
            s@.state == GameState::Title,
            exists|p0: PieceType, p1: PieceType, p2: PieceType, p3: PieceType|
                s@ == #[trigger] fresh_model(GameState::Title, empty_grid(), p0, p1, p2, p3),
    {
        let p0 = crate::rng::get_random_piece();
        let p1 = crate::rng::get_random_piece();
        let p2 = crate::rng::get_random_piece();
        let p3 = crate::rng::get_random_piece();
        let s = GameSession::new(p0, p1, p2, p3);
        proof {
            lemma_grid_from_at(|r: int, c: int| None::<u64>);
            lemma_grid_ext(s@.board, empty_grid());
            assert(s@ =~= fresh_model(GameState::Title, empty_grid(), p0, p1, p2, p3));
        }
        s
    }

    /// Restarts with randomly drawn pieces: whatever the draws produced,
    /// play begins afresh, with the board, score, level, queue, hold slot
    /// and timers at their initial values for some four kinds.
    pub fn restart_random(&mut self)
        ensures
            wf_session(final(self)@),
            final(self)@.state == GameState::Playing,
            exists|p0: PieceType, p1: PieceType, p2: PieceType, p3: PieceType|
                final(self)@ == #[trigger] fresh_model(
                    GameState::Playing,
                    empty_grid(),
                    p0,
                    p1,
                    p2,
                    p3,
                ),
    {
        let p0 = crate::rng::get_random_piece();
        let p1 = crate::rng::get_random_piece();
        let p2 = crate::rng::get_random_piece();
        let p3 = crate::rng::get_random_piece();
        self.restart(p0, p1, p2, p3);
        proof {
            lemma_grid_from_at(|r: int, c: int| None::<u64>);
            lemma_grid_ext(self@.board, empty_grid());
            assert(self@ =~= fresh_model(GameState::Playing, empty_grid(), p0, p1, p2, p3));
        }
    }

    /// One frame with uniformly drawn refill pieces: for whatever four
    /// pieces the draws produced, the session advances by `spec_tick` and
    /// the returned events are that frame's `spec_tick_events`.
    pub fn tick_random(&mut self, input: InputState, dt_ms: u64) -> (events: Vec<GameEvent>)
        requires
            wf_session(old(self)@),
        ensures
            wf_session(final(self)@),
            exists|refills: Seq<PieceType>|
                refills.len() == 4 && final(self)@ == #[trigger] spec_tick(
                    old(self)@,
                    input,
                    dt_ms,
                    refills,
                ) && events@ == spec_tick_events(old(self)@, input, dt_ms, refills),
    {
        let mut refills: Vec<PieceType> = Vec::new();
        refills.push(crate::rng::get_random_piece());
        refills.push(crate::rng::get_random_piece());
        refills.push(crate::rng::get_random_piece());
        refills.push(crate::rng::get_random_piece());
        let events = self.tick(input, dt_ms, &refills);
        proof {
            assert(refills@.len() == 4 && final(self)@ == spec_tick(
                old(self)@,
                input,
                dt_ms,
                refills@,
            ) && events@ == spec_tick_events(old(self)@, input, dt_ms, refills@));
        }
        events
    }
}

/// The input of a frame in which no key is pressed.
pub open spec fn idle_input() -> InputState {
    InputState {
        move_left: false,
        move_right: false,
        soft_drop: false,
        hard_drop: false,
        rotate_cw: false,
        rotate_ccw: false,
        hold: false,
        pause: false,
        restart: false,
        level_up: false,
    }
}

/// `k` frames of one whole fall interval each, with no key pressed.
pub open spec fn spec_idle_ticks(m: SessionModel, k: int, refills: Seq<PieceType>) -> SessionModel
    decreases k,
{
    if k <= 0 {
        m
    } else {
        spec_tick(
            spec_idle_ticks(m, k - 1, refills),
            idle_input(),
            INITIAL_FALL_INTERVAL_MS,
            refills,
        )
    }
}

/// A fresh running session whose Straight starting piece has fallen `k`
/// rows: the shape of the session during the undisturbed drop.
spec fn falling_straight(p1: PieceType, p2: PieceType, p3: PieceType, k: int) -> SessionModel {
    SessionModel {
        active: ActivePiece {
            kind: PieceType::Straight,
            rot: RotationState::Zero,
            anchor_row: (1 + k) as i32,
            anchor_col: 6,
        },
        ..fresh_model(GameState::Playing, empty_grid(), PieceType::Straight, p1, p2, p3)
    }
}

/// The four cells of a Straight piece at rotation Zero: the row above its
/// anchor, columns anchor-2 through anchor+1.
proof fn lemma_straight_cells(a: ActivePiece)
    requires
        a.kind == PieceType::Straight,
        a.rot == RotationState::Zero,
        crate::piece::wf_anchor(a),
    ensures
        spec_cells(a).len() == 4,
        spec_cells(a)[0] == (a.anchor_row - 1, a.anchor_col as int),
        spec_cells(a)[1] == (a.anchor_row - 1, a.anchor_col + 1),
        spec_cells(a)[2] == (a.anchor_row - 1, a.anchor_col - 1),
        spec_cells(a)[3] == (a.anchor_row - 1, a.anchor_col - 2),
{
    let base = crate::piece::base_offsets2(PieceType::Straight);
    assert(crate::piece::offsets2(a.kind, a.rot)[0] == crate::piece::rot2(base[0], a.rot));
    assert(crate::piece::offsets2(a.kind, a.rot)[1] == crate::piece::rot2(base[1], a.rot));
    assert(crate::piece::offsets2(a.kind, a.rot)[2] == crate::piece::rot2(base[2], a.rot));
    assert(crate::piece::offsets2(a.kind, a.rot)[3] == crate::piece::rot2(base[3], a.rot));
    assert(crate::piece::cell_delta(-1, 0) == -1);
    assert(crate::piece::cell_delta(1, 0) == 0);
    assert(crate::piece::cell_delta(3, 0) == 1);
    assert(crate::piece::cell_delta(-3, 0) == -2);
}

/// One undisturbed whole-interval frame of the drop: the piece descends one
/// row and nothing else changes.
proof fn lemma_idle_step(p1: PieceType, p2: PieceType, p3: PieceType, refills: Seq<PieceType>, k: int)
    requires
        refills.len() == 4,
        0 <= k < 18,
    ensures
        spec_tick(falling_straight(p1, p2, p3, k), idle_input(), INITIAL_FALL_INTERVAL_MS, refills)
            == falling_straight(p1, p2, p3, k + 1),
{
    reveal(spec_tick);
    reveal(spec_tick_playing);
    reveal(spec_piece_control);
    let m = falling_straight(p1, p2, p3, k);
    let idle = idle_input();
    let g = empty_grid();
    lemma_grid_from_at(|r: int, c: int| None::<u64>);
    lemma_straight_cells(m.active);
    let down = shifted_piece(m.active, 1, 0);
    lemma_straight_cells(down);
    assert(spec_gravity(m, false, INITIAL_FALL_INTERVAL_MS) == (m, true)) by {
        assert(sat_add_u64(0, 500) == 500);
        assert((SessionModel { fall_elapsed_ms: 0, ..m }) =~= m);
    }
    assert(piece_fits(g, down)) by {
        assert forall|i: int| 0 <= i < 4 implies !occ(
            g,
            (#[trigger] spec_cells(down)[i]).0,
            spec_cells(down)[i].1,
        ) by {
            assert(spec_cells(down)[i].0 == k + 1);
            assert(4 <= spec_cells(down)[i].1 < 8);
            assert(at(g, spec_cells(down)[i].0, spec_cells(down)[i].1) is None);
        }
    }
    let m5 = spec_piece_control(m, idle, true, refills[0]);
    assert(m5 == (SessionModel { active: down, ..m })) by {
        assert(spec_rotate_request(m, false, false) == (m, false));
        assert(spec_horizontal(m, false, false) == (m, false));
    }
    assert(!spec_resting(m5.board, m5.active)) by {
        assert forall|i: int| 0 <= i < 4 implies !occ(
            g,
            (#[trigger] spec_cells(down)[i]).0 + 1,
            spec_cells(down)[i].1,
        ) by {
            assert(spec_cells(down)[i].0 + 1 == k + 2);
            assert(at(g, k + 2, spec_cells(down)[i].1) is None);
        }
    }
    assert(spec_lock_stage(m5, idle, INITIAL_FALL_INTERVAL_MS, refills[1]) =~= m5);
    assert(spec_manual_level(m5, false) == m5);
    assert(m5 =~= falling_straight(p1, p2, p3, k + 1));
}

/// The landing frame of the drop: the piece reaches the bottom row, the
/// grace period elapses with the same frame, and the lock commits exactly
/// the four bottom-row cells.
#[verifier::rlimit(100)]
proof fn lemma_idle_lock(p1: PieceType, p2: PieceType, p3: PieceType, refills: Seq<PieceType>)
    requires
        refills.len() == 4,
    ensures
        ({
            let m = falling_straight(p1, p2, p3, 18);
            let done = spec_tick(m, idle_input(), INITIAL_FALL_INTERVAL_MS, refills);
            &&& forall|r: int, c: int|
                in_field(r, c) ==> (#[trigger] at(done.board, r, c) is Some <==> (r == 19 && 4 <= c
                    < 8))
            &&& done.active == spawn_model(p1, 0)
            &&& done.next_queue == seq![p2, p3, refills[1]]
            &&& done.score == 18
            &&& done.state == GameState::Playing
            &&& done.can_hold
            &&& spec_tick_events(m, idle_input(), INITIAL_FALL_INTERVAL_MS, refills) == seq![
                GameEvent::PiecePlaced,
            ]
        }),
{
    reveal(spec_tick);
    reveal(spec_tick_playing);
    reveal(spec_piece_control);
    reveal(spec_lock);
    reveal(spec_lock_events);
    reveal(spec_tick_events);
    reveal(spec_playing_events);
    reveal(spec_control_events);
    let m = falling_straight(p1, p2, p3, 18);
    let idle = idle_input();
    let g = empty_grid();
    lemma_grid_from_at(|r: int, c: int| None::<u64>);
    lemma_straight_cells(m.active);
    let down = shifted_piece(m.active, 1, 0);
    lemma_straight_cells(down);
    let cs = spec_cells(down);
    assert(cs[0] == (19int, 6int) && cs[1] == (19int, 7int) && cs[2] == (19int, 5int) && cs[3] == (
        19int,
        4int,
    ));
    assert(spec_gravity(m, false, INITIAL_FALL_INTERVAL_MS) == (m, true)) by {
        assert(sat_add_u64(0, 500) == 500);
        assert((SessionModel { fall_elapsed_ms: 0, ..m }) =~= m);
    }
    assert(piece_fits(g, down)) by {
        assert forall|i: int| 0 <= i < 4 implies !occ(
            g,
            (#[trigger] spec_cells(down)[i]).0,
            spec_cells(down)[i].1,
        ) by {
            assert(spec_cells(down)[i].0 == 19);
            assert(4 <= spec_cells(down)[i].1 < 8);
            assert(at(g, 19, spec_cells(down)[i].1) is None);
        }
    }
    let m5 = spec_piece_control(m, idle, true, refills[0]);
    assert(m5 == (SessionModel { active: down, ..m })) by {
        assert(spec_rotate_request(m, false, false) == (m, false));
        assert(spec_horizontal(m, false, false) == (m, false));
    }
    assert(spec_resting(m5.board, m5.active)) by {
        assert(occ(g, (spec_cells(down)[0]).0 + 1, spec_cells(down)[0].1));
    }
    let armed = SessionModel {
        pending_lock: true,
        grace_elapsed_ms: sat_add_u64(m5.grace_elapsed_ms, 500),
        ..m5
    };
    assert(sat_add_u64(0, 500) == 500);
    assert(spec_lock_stage(m5, idle, INITIAL_FALL_INTERVAL_MS, refills[1]) == spec_lock(
        armed,
        refills[1],
    ));
    // The lock itself commits.
    assert(!lock_fails(armed)) by {
        assert forall|i: int| 0 <= i < 4 implies !((#[trigger] spec_cells(armed.active)[i]).0
            <= 0) by {
            assert(spec_cells(down)[i].0 == 19);
        }
        assert(armed.blocks.len() == 0);
    }
    let placed = place_model(g, cs, 0);
    let fplace = |r: int, c: int|
        if cell_slot(cs, r, c) >= 0 {
            Some((0 + cell_slot(cs, r, c)) as u64)
        } else {
            at(g, r, c)
        };
    lemma_grid_from_at(fplace);
    assert forall|r: int, c: int| in_field(r, c) implies #[trigger] at(placed, r, c) is Some <==> (
    r == 19 && 4 <= c < 8) by {
        if r == 19 && 4 <= c < 8 {
            assert(cell_slot(cs, r, c) >= 0);
        } else {
            assert(cell_slot(cs, r, c) == -1);
            assert(at(g, r, c) is None);
        }
    }
    // No row fills: the piece owns only four cells of the bottom row.
    let rows = crate::board::full_rows_upto(placed, 20);
    assert(rows =~= Seq::<usize>::empty()) by {
        crate::board::lemma_full_rows_upto(placed, 20);
        assert forall|r: int| 0 <= r < 20 implies !crate::board::row_full(placed, r) by {
            assert(at(placed, r, 0) is None);
        }
        if rows.len() > 0 {
            assert(crate::board::row_full(placed, rows[0] as int));
        }
    }
    // The placement award: every cell rests on the bottom row.
    assert(crate::score::min_clamped_row(cs) == 19) by {
        let t1 = cs.drop_first();
        let t2 = t1.drop_first();
        let t3 = t2.drop_first();
        assert(t1[0] == cs[1] && t1[1] == cs[2] && t1[2] == cs[3] && t1.len() == 3);
        assert(t2[0] == cs[2] && t2[1] == cs[3] && t2.len() == 2);
        assert(t3[0] == cs[3] && t3.len() == 1);
        assert(crate::score::min_clamped_row(t3) == 19);
        assert(crate::score::min_clamped_row(t2) == 19);
        assert(crate::score::min_clamped_row(t1) == 19);
    }
    assert(crate::score::spec_placement_score(cs) == 18);
    // The spawn of the successor is not raised: the top rows stay empty.
    assert(spec_spawn_raise(placed) == 0) by {
        assert forall|c: int| 0 <= c < 10 implies #[trigger] at(placed, 0, c) is None by {
            assert(cell_slot(cs, 0, c) == -1);
        }
        assert forall|c: int| 0 <= c < 10 implies #[trigger] at(placed, 1, c) is None by {
            assert(cell_slot(cs, 1, c) == -1);
        }
    }
    let done = spec_lock(armed, refills[1]);
    assert(done.board == placed);
    assert(done.score == sat_add_u64(0, 18 + crate::score::spec_line_base(0) * 1));
    assert(done.score == 18);
    assert(done.next_queue =~= seq![p2, p3, refills[1]]);
    assert(done.active == spawn_model(p1, 0));
    assert(spec_manual_level(done, false) == done);
    // Events: only the placement fires.
    assert(spec_lock_events(armed) =~= seq![GameEvent::PiecePlaced]);
    assert(spec_control_events(m, idle, true, refills[0]) =~= Seq::<GameEvent>::empty());
    assert(spec_lock_stage_events(m5, idle, INITIAL_FALL_INTERVAL_MS) == spec_lock_events(armed));
    assert(spec_playing_events(m, idle, INITIAL_FALL_INTERVAL_MS, refills) =~= seq![
        GameEvent::PiecePlaced,
    ]);
}

/// The undisturbed drop stays a pure descent: after `k` idle whole-interval
/// frames the session is the starting session with the piece `k` rows lower,
/// the board still empty.
proof fn lemma_idle_falls(p1: PieceType, p2: PieceType, p3: PieceType, refills: Seq<PieceType>, k: int)
    requires
        refills.len() == 4,
        0 <= k <= 18,
    ensures
        spec_idle_ticks(
            fresh_model(GameState::Playing, empty_grid(), PieceType::Straight, p1, p2, p3),
            k,
            refills,
        ) == falling_straight(p1, p2, p3, k),
    decreases k,
{
    let start = fresh_model(GameState::Playing, empty_grid(), PieceType::Straight, p1, p2, p3);
    if k == 0 {
        assert(start =~= falling_straight(p1, p2, p3, 0));
    } else {
        lemma_idle_falls(p1, p2, p3, refills, k - 1);
        lemma_idle_step(p1, p2, p3, refills, k - 1);
    }
}

/// The end-to-end drop: a session started with a Straight piece and left
/// alone locks it after nineteen whole fall intervals (the nineteenth frame
/// lands it and spends the grace period). Before that frame the board is
/// still empty; after it exactly the four bottom-row cells it covered are
/// occupied, the frame emitted the piece-placed event, the head of the
/// queue spawned as the new active piece, and a refill joined the queue.
pub proof fn lemma_straight_drop_scenario(
    p1: PieceType,
    p2: PieceType,
    p3: PieceType,
    refills: Seq<PieceType>,
)
    requires
        refills.len() == 4,
    ensures
        ({
            let start = fresh_model(
                GameState::Playing,
                empty_grid(),
                PieceType::Straight,
                p1,
                p2,
                p3,
            );
            let landing = spec_idle_ticks(start, 18, refills);
            let done = spec_tick(landing, idle_input(), INITIAL_FALL_INTERVAL_MS, refills);
            &&& forall|r: int, c: int|
                in_field(r, c) ==> #[trigger] at(landing.board, r, c) is None
            &&& forall|r: int, c: int|
                in_field(r, c) ==> (#[trigger] at(done.board, r, c) is Some <==> (r == 19 && 4 <= c
                    < 8))
            &&& done.active == spawn_model(p1, 0)
            &&& done.next_queue == seq![p2, p3, refills[1]]
            &&& done.score == 18
            &&& done.state == GameState::Playing
            &&& done.can_hold
            &&& spec_tick_events(landing, idle_input(), INITIAL_FALL_INTERVAL_MS, refills) == seq![
                GameEvent::PiecePlaced,
            ]
        }),
{
    lemma_idle_falls(p1, p2, p3, refills, 18);
    lemma_idle_lock(p1, p2, p3, refills);
    lemma_grid_from_at(|r: int, c: int| None::<u64>);
}

/// Whether any cell of row `r` holds a block.
fn row_has_block(board: &Board, r: i32) -> (b: bool)
    requires
        board_wf(board@),
        0 <= r < 20,
    ensures
        b == !row_empty(board@, r as int),
{
    let mut c: i32 = 0;
    while c < 10
        invariant
            board_wf(board@),
            0 <= r < 20,
            0 <= c <= 10,
            forall|k: int| 0 <= k < c ==> #[trigger] at(board@, r as int, k) is None,
        decreases 10 - c,
    {
        if board.is_occupied(r, c) {
            assert(at(board@, r as int, c as int) is Some);
            return true;
        }
        c = c + 1;
    }
    false
}

} // verus!
