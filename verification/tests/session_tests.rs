use tetrust::piece::{ActivePiece, GridPos, PieceType, RotationState};
use tetrust::session::{GameEvent, GameSession, GameState, InputState};

fn refills(kind: PieceType) -> Vec<PieceType> {
    vec![kind, kind, kind, kind]
}

fn pressing(set: impl Fn(&mut InputState)) -> InputState {
    let mut i = InputState::none();
    set(&mut i);
    i
}

fn occupied_count(s: &GameSession) -> usize {
    let mut n = 0;
    for r in 0..20 {
        for c in 0..10 {
            if s.board.is_occupied(r, c) {
                n += 1;
            }
        }
    }
    n
}

#[test]
fn straight_piece_falls_nineteen_rows_and_locks() {
    let mut s = GameSession::new(PieceType::Straight, PieceType::T, PieceType::Z, PieceType::L);
    s.toggle_pause();
    assert_eq!(s.state, GameState::Playing);
    let r = refills(PieceType::Square);
    let none = InputState::none();
    for _ in 0..18 {
        let events = s.tick(none, 500, &r);
        assert!(events.is_empty());
    }
    // Eighteen default fall intervals have moved the piece to row 18 and
    // nothing has locked yet.
    assert_eq!(occupied_count(&s), 0);
    // The next interval lands the piece on the bottom row; the grace period
    // elapses with it and the piece locks.
    let events = s.tick(none, 500, &r);
    assert!(events.iter().any(|e| matches!(e, GameEvent::PiecePlaced)));
    assert_eq!(occupied_count(&s), 4);
    for c in [4, 5, 6, 7] {
        assert!(s.board.is_occupied(19, c));
    }
    // The queue head became the new active piece, spawned at the top.
    assert_eq!(s.active.kind, PieceType::T);
    assert_eq!(s.active.rot, RotationState::Zero);
    assert_eq!(s.active.anchor_row, 1);
    // The bottom row placement awarded its depth.
    assert_eq!(s.score, 18);
    assert_eq!(s.state, GameState::Playing);
}

#[test]
fn completing_a_row_clears_it_and_awards_the_level_multiple() {
    let mut s =
        GameSession::new(PieceType::Straight, PieceType::Straight, PieceType::Square, PieceType::T);
    s.toggle_pause();
    let r = refills(PieceType::T);
    let drop = pressing(|i| i.hard_drop = true);
    let left = pressing(|i| i.move_left = true);
    let right = pressing(|i| i.move_right = true);

    // First Straight: hard drop at the spawn columns 4..8.
    let ev = s.tick(drop, 0, &r);
    assert!(ev.iter().any(|e| matches!(e, GameEvent::PiecePlaced)));
    assert_eq!(s.score, 18);

    // Second Straight: four columns left, then drop: bottom row columns 0..4.
    for _ in 0..4 {
        let ev = s.tick(left, 0, &r);
        assert!(ev.iter().any(|e| matches!(e, GameEvent::Moved)));
    }
    s.tick(drop, 0, &r);
    assert_eq!(s.score, 36);
    for c in 0..8 {
        assert!(s.board.is_occupied(19, c));
    }
    assert!(!s.board.is_occupied(19, 8));
    assert!(!s.board.is_occupied(19, 9));

    // The Square, four columns right, fills the last two cells of the row.
    assert_eq!(s.active.kind, PieceType::Square);
    for _ in 0..4 {
        s.tick(right, 0, &r);
    }
    let ev = s.tick(drop, 0, &r);
    assert_eq!(
        ev,
        vec![GameEvent::PiecePlaced, GameEvent::LinesCleared(1)]
    );
    // Placement depth 17 plus one cleared row at level one.
    assert_eq!(s.score, 36 + 17 + 100);
    assert_eq!(s.level, 1);
    assert_eq!(s.lines_to_level, 1);
    // The cleared row vanished; the Square's upper half shifted down onto it.
    assert_eq!(occupied_count(&s), 2);
    assert!(s.board.is_occupied(19, 8));
    assert!(s.board.is_occupied(19, 9));
    assert!(!s.board.is_occupied(18, 8));
    assert!(!s.board.is_occupied(18, 9));
}

#[test]
fn clearing_two_rows_at_once_awards_the_double_rate() {
    let mut s =
        GameSession::new(PieceType::Square, PieceType::Square, PieceType::Square, PieceType::Square);
    s.toggle_pause();
    let r = refills(PieceType::Straight);
    let drop = pressing(|i| i.hard_drop = true);
    let left = pressing(|i| i.move_left = true);
    let right = pressing(|i| i.move_right = true);
    let spin = pressing(|i| i.rotate_cw = true);

    // Four Squares pave the bottom two rows across columns 0..8.
    for _ in 0..4 {
        s.tick(left, 0, &r);
    }
    s.tick(drop, 0, &r);
    for _ in 0..2 {
        s.tick(left, 0, &r);
    }
    s.tick(drop, 0, &r);
    s.tick(drop, 0, &r);
    for _ in 0..2 {
        s.tick(right, 0, &r);
    }
    s.tick(drop, 0, &r);
    for c in 0..8 {
        assert!(s.board.is_occupied(18, c));
        assert!(s.board.is_occupied(19, c));
    }
    assert_eq!(s.score, 4 * 17);

    // Two upright Straights fill columns 8 and 9 four rows deep.
    assert_eq!(s.active.kind, PieceType::Straight);
    s.tick(spin, 0, &r);
    for _ in 0..2 {
        s.tick(right, 0, &r);
    }
    let ev = s.tick(drop, 0, &r);
    assert!(ev.iter().any(|e| matches!(e, GameEvent::PiecePlaced)));
    assert!(!ev.iter().any(|e| matches!(e, GameEvent::LinesCleared(_))));

    s.tick(spin, 0, &r);
    for _ in 0..3 {
        s.tick(right, 0, &r);
    }
    let ev = s.tick(drop, 0, &r);
    assert!(ev.iter().any(|e| matches!(e, GameEvent::LinesCleared(2))));
    // Both full rows went at once at the double rate, not one by one.
    assert_eq!(s.score, 4 * 17 + 15 + 15 + 300);
    assert_eq!(s.lines_to_level, 2);
    // The upper halves of the two Straights fell two rows.
    assert_eq!(occupied_count(&s), 4);
    for row in [18, 19] {
        assert!(s.board.is_occupied(row, 8));
        assert!(s.board.is_occupied(row, 9));
    }
}

#[test]
fn hold_twice_has_no_second_effect() {
    let mut s = GameSession::new(PieceType::T, PieceType::Z, PieceType::L, PieceType::Square);
    s.toggle_pause();
    let held = s.hold_piece(PieceType::ReverseL);
    assert!(held);
    // The empty slot pulls from the queue head and banks the T.
    assert_eq!(s.active.kind, PieceType::Z);
    assert_eq!(s.hold_slot, Some(PieceType::T));
    assert_eq!(s.next_queue, vec![PieceType::L, PieceType::Square, PieceType::ReverseL]);
    assert!(!s.can_hold);

    let again = s.hold_piece(PieceType::Straight);
    assert!(!again);
    assert_eq!(s.active.kind, PieceType::Z);
    assert_eq!(s.hold_slot, Some(PieceType::T));
    assert_eq!(s.next_queue, vec![PieceType::L, PieceType::Square, PieceType::ReverseL]);
    assert!(!s.can_hold);
}

#[test]
fn lock_re_enables_hold_and_a_full_slot_swaps() {
    let mut s = GameSession::new(PieceType::T, PieceType::Z, PieceType::L, PieceType::Square);
    s.toggle_pause();
    s.hold_piece(PieceType::ReverseL);
    let drop = pressing(|i| i.hard_drop = true);
    s.tick(drop, 0, &refills(PieceType::ReverseZ));
    assert!(s.can_hold);
    assert_eq!(s.active.kind, PieceType::L);
    let held = s.hold_piece(PieceType::Straight);
    assert!(held);
    // The banked T comes back; the L takes its place in the slot.
    assert_eq!(s.active.kind, PieceType::T);
    assert_eq!(s.hold_slot, Some(PieceType::L));
}

#[test]
fn topped_out_lock_ends_the_session_without_placing() {
    let mut s = GameSession::new(PieceType::T, PieceType::T, PieceType::T, PieceType::T);
    s.toggle_pause();
    // A piece that still pokes above the top row when it locks.
    s.active =
        ActivePiece { kind: PieceType::T, rot: RotationState::Zero, anchor_row: 0, anchor_col: 5 };
    let mut events = Vec::new();
    s.lock_active(PieceType::Z, &mut events);
    assert_eq!(events, vec![GameEvent::GameOver]);
    assert_eq!(s.state, GameState::GameOver);
    assert_eq!(occupied_count(&s), 0);
    assert_eq!(s.score, 0);

    // Until a restart, nothing runs: not gravity, not moves, not drops.
    let stuck = s.active;
    let busy = pressing(|i| {
        i.move_left = true;
        i.hard_drop = true;
        i.rotate_cw = true;
    });
    for _ in 0..5 {
        let ev = s.tick(busy, 1000, &refills(PieceType::Z));
        assert!(ev.is_empty());
    }
    assert_eq!(s.state, GameState::GameOver);
    assert_eq!(s.active, stuck);
    assert_eq!(occupied_count(&s), 0);

    // Restart returns to play with everything reset.
    let ev = s.tick(pressing(|i| i.restart = true), 0, &refills(PieceType::Z));
    assert!(ev.is_empty());
    assert_eq!(s.state, GameState::Playing);
    assert_eq!(s.score, 0);
    assert_eq!(s.level, 1);
    assert_eq!(s.active.kind, PieceType::Z);
    assert_eq!(s.hold_slot, None);
    assert_eq!(occupied_count(&s), 0);
}

#[test]
fn pause_freezes_the_pipeline() {
    let mut s = GameSession::new(PieceType::T, PieceType::Z, PieceType::L, PieceType::Square);
    s.toggle_pause();
    let r = refills(PieceType::T);
    let before = s.active;
    s.tick(pressing(|i| i.pause = true), 500, &r);
    assert_eq!(s.state, GameState::Paused);
    // While paused, time and movement keys do nothing.
    for _ in 0..3 {
        s.tick(pressing(|i| i.move_right = true), 5000, &r);
    }
    assert_eq!(s.active, before);
    assert_eq!(s.state, GameState::Paused);
    s.tick(pressing(|i| i.pause = true), 0, &r);
    assert_eq!(s.state, GameState::Playing);
}

#[test]
fn title_screen_starts_on_the_toggle() {
    let mut s = GameSession::new(PieceType::T, PieceType::Z, PieceType::L, PieceType::Square);
    assert_eq!(s.state, GameState::Title);
    let r = refills(PieceType::T);
    s.tick(InputState::none(), 10_000, &r);
    assert_eq!(s.state, GameState::Title);
    s.tick(pressing(|i| i.pause = true), 0, &r);
    assert_eq!(s.state, GameState::Playing);
}

#[test]
fn manual_level_trigger_advances_level_and_speed() {
    let mut s = GameSession::new(PieceType::T, PieceType::Z, PieceType::L, PieceType::Square);
    s.toggle_pause();
    assert_eq!(s.level, 1);
    assert_eq!(s.fall_interval_ms, 500);
    let ev = s.tick(pressing(|i| i.level_up = true), 0, &refills(PieceType::T));
    assert!(ev.iter().any(|e| matches!(e, GameEvent::LeveledUp)));
    assert_eq!(s.level, 2);
    assert_eq!(s.fall_interval_ms, 440);
}

#[test]
fn ghost_piece_projects_to_the_floor() {
    let mut s = GameSession::new(PieceType::T, PieceType::Z, PieceType::L, PieceType::Square);
    s.toggle_pause();
    let g = s.ghost_piece();
    assert_eq!(g.kind, PieceType::T);
    assert_eq!(g.anchor_col, 5);
    assert_eq!(g.anchor_row, 19);
    // A stack below the piece stops the projection earlier.
    let cells = vec![
        GridPos { row: 15, col: 4 },
        GridPos { row: 15, col: 5 },
        GridPos { row: 15, col: 6 },
        GridPos { row: 15, col: 7 },
    ];
    s.board.place_cells(&cells, 0);
    let g2 = s.ghost_piece();
    assert_eq!(g2.anchor_row, 14);
}

#[test]
fn occupied_top_rows_raise_the_spawn() {
    let mut s = GameSession::new(PieceType::T, PieceType::Z, PieceType::L, PieceType::Square);
    s.toggle_pause();
    let cells = vec![
        GridPos { row: 1, col: 0 },
        GridPos { row: 1, col: 1 },
        GridPos { row: 1, col: 2 },
        GridPos { row: 1, col: 3 },
    ];
    s.board.place_cells(&cells, 0);
    // With one of the top two rows occupied, the next spawn sits a row higher.
    s.hold_piece(PieceType::ReverseL);
    assert_eq!(s.active.kind, PieceType::Z);
    assert_eq!(s.active.anchor_row, 0);
}

#[test]
fn soft_drop_descends_and_expires_the_grace_period() {
    let mut s = GameSession::new(PieceType::T, PieceType::Z, PieceType::L, PieceType::Square);
    s.toggle_pause();
    let r = refills(PieceType::T);
    let soft = pressing(|i| i.soft_drop = true);
    // Each soft-drop tick descends one row without waiting for gravity.
    s.tick(soft, 0, &r);
    assert_eq!(s.active.anchor_row, 2);
    // Riding the soft drop to the floor locks without a grace wait.
    let mut locked = false;
    for _ in 0..20 {
        let ev = s.tick(soft, 0, &r);
        if ev.iter().any(|e| matches!(e, GameEvent::PiecePlaced)) {
            locked = true;
            break;
        }
    }
    assert!(locked);
    assert_eq!(occupied_count(&s), 4);
    assert!(s.board.is_occupied(19, 5));
    assert!(s.board.is_occupied(18, 5));
}

#[test]
fn grace_period_allows_a_last_second_shift() {
    let mut s = GameSession::new(PieceType::T, PieceType::Z, PieceType::L, PieceType::Square);
    s.toggle_pause();
    let r = refills(PieceType::T);
    let none = InputState::none();
    // Bring the piece one row above the floor with whole fall intervals.
    for _ in 0..17 {
        s.tick(none, 500, &r);
    }
    assert_eq!(s.active.anchor_row, 18);
    // Land it with two half intervals: the second one arms the pending lock
    // but leaves most of the grace period unspent.
    s.tick(none, 250, &r);
    s.tick(none, 250, &r);
    assert_eq!(s.active.anchor_row, 19);
    assert!(s.pending_lock);
    assert_eq!(occupied_count(&s), 0);
    // A sideways move within the grace period still works.
    let ev = s.tick(pressing(|i| i.move_right = true), 100, &r);
    assert!(ev.iter().any(|e| matches!(e, GameEvent::Moved)));
    assert_eq!(s.active.anchor_col, 6);
    assert_eq!(occupied_count(&s), 0);
}

#[test]
fn block_ids_map_back_to_their_kind() {
    let mut s = GameSession::new(PieceType::Straight, PieceType::T, PieceType::Z, PieceType::L);
    s.toggle_pause();
    s.tick(pressing(|i| i.hard_drop = true), 0, &refills(PieceType::Square));
    let id = s.board.cell(19, 4).expect("the locked piece owns this cell");
    assert_eq!(s.block_kind(id), Some(PieceType::Straight));
    assert_eq!(s.block_kind(999), None);
}
