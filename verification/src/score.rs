//! Scoring and levelling: the line-clear award table, the placement-depth
//! award, the ten-line level counter, and the fall-interval curve.

use vstd::prelude::*;

use crate::piece::{cells_view, GridPos};

verus! {

/// Base award for clearing `n` rows at once: 100, 300, 500 or 800 for one
/// to four rows, nothing otherwise.
pub open spec fn spec_line_base(n: int) -> int {
    if n == 1 {
        100
    } else if n == 2 {
        300
    } else if n == 3 {
        500
    } else if n == 4 {
        800
    } else {
        0
    }
}

/// The base award for a clear of `rows_cleared` rows.
pub fn get_score(rows_cleared: u32) -> (r: u32)
    ensures
        r as int == spec_line_base(rows_cleared as int),
{
    match rows_cleared {
        1 => 100,
        2 => 300,
        3 => 500,
        4 => 800,
        _ => 0,
    }
}

/// The full award for a clear: the base for the row count, multiplied by
/// the current level.
pub fn line_score(rows_cleared: u32, level: u32) -> (r: u64)
    ensures
        r as int == spec_line_base(rows_cleared as int) * level,
{
    let base = get_score(rows_cleared) as u64;
    let r = base * (level as u64);
    proof {
        assert(base * level <= 800 * 0xffff_ffffu64) by (nonlinear_arith)
            requires
                base <= 800,
                level <= 0xffff_ffffu64,
        ;
    }
    r
}

/// Clearing exactly 1, 2, 3 or 4 rows at level `level` awards
/// `100*level`, `300*level`, `500*level` or `800*level`; clearing no rows
/// awards no line score.
pub proof fn lemma_line_score_table(level: int)
    ensures
        spec_line_base(1) * level == 100 * level,
        spec_line_base(2) * level == 300 * level,
        spec_line_base(3) * level == 500 * level,
        spec_line_base(4) * level == 800 * level,
        spec_line_base(0) * level == 0,
{
}

/// A row index clamped into the field, as the placement award measures it.
pub open spec fn clamp_row(r: int) -> int {
    if r < 0 {
        0
    } else if r > 19 {
        19
    } else {
        r
    }
}

/// The least clamped row index among the piece's cells: how high the piece
/// came to rest.
pub open spec fn min_clamped_row(cs: Seq<(int, int)>) -> int
    decreases cs.len(),
{
    if cs.len() <= 1 {
        clamp_row(cs[0].0)
    } else {
        let rest = min_clamped_row(cs.drop_first());
        let first = clamp_row(cs[0].0);
        if first <= rest {
            first
        } else {
            rest
        }
    }
}

/// The placement award: one point per row of depth above the topmost cell
/// of the locked piece, and nothing for a piece resting at the very top.
pub open spec fn spec_placement_score(cs: Seq<(int, int)>) -> int {
    if min_clamped_row(cs) > 0 {
        min_clamped_row(cs) - 1
    } else {
        0
    }
}

/// The points awarded for locking a piece at the given cells: deeper
/// placements award more.
pub fn placement_score(cells: &Vec<GridPos>) -> (r: u32)
    requires
        cells@.len() == 4,
    ensures
        r as int == spec_placement_score(cells_view(cells@)),
        r <= 18,
{
    let ghost cv = cells_view(cells@);
    let mut min_row: i32 = clamp_row_exec(cells[0].row);
    proof {
        assert(cv.len() == 4);
        assert(cv.subrange(0, 1) =~= seq![cv[0]]);
        assert(min_clamped_row(cv.subrange(0, 1)) == clamp_row(cv[0].0));
    }
    let mut i: usize = 1;
    while i < 4
        invariant
            cells@.len() == 4,
            cv == cells_view(cells@),
            1 <= i <= 4,
            0 <= min_row <= 19,
            min_row as int == min_clamped_row(cv.subrange(0, i as int)),
        decreases 4 - i,
    {
        let ghost pre = cv.subrange(0, i as int);
        let c = clamp_row_exec(cells[i].row);
        if c < min_row {
            min_row = c;
        }
        proof {
            assert(cv[i as int] == (cells@[i as int].row as int, cells@[i as int].col as int));
            lemma_min_clamped_push(pre, cv[i as int]);
            assert(cv.subrange(0, i as int + 1) =~= pre.push(cv[i as int]));
        }
        i = i + 1;
    }
    proof {
        assert(cv.subrange(0, 4) =~= cv);
    }
    if min_row > 0 {
        (min_row - 1) as u32
    } else {
        0
    }
}

/// Appending a cell to a non-empty list takes the minimum of the old
/// minimum and the new cell's clamped row.
proof fn lemma_min_clamped_push(cs: Seq<(int, int)>, p: (int, int))
    requires
        cs.len() >= 1,
    ensures
        min_clamped_row(cs.push(p)) == if clamp_row(p.0) <= min_clamped_row(cs) {
            clamp_row(p.0)
        } else {
            min_clamped_row(cs)
        },
    decreases cs.len(),
{
    let ext = cs.push(p);
    assert(ext[0] == cs[0]);
    if cs.len() == 1 {
        assert(ext.drop_first() =~= seq![p]);
        assert(min_clamped_row(seq![p]) == clamp_row(p.0));
        assert(min_clamped_row(ext) == if clamp_row(cs[0].0) <= clamp_row(p.0) {
            clamp_row(cs[0].0)
        } else {
            clamp_row(p.0)
        });
        assert(min_clamped_row(cs) == clamp_row(cs[0].0));
    } else {
        assert(ext.drop_first() =~= cs.drop_first().push(p));
        lemma_min_clamped_push(cs.drop_first(), p);
    }
}

/// The row index clamped into `[0, 19]`.
fn clamp_row_exec(r: i32) -> (c: i32)
    ensures
        c as int == clamp_row(r as int),
        0 <= c <= 19,
{
    if r < 0 {
        0
    } else if r > 19 {
        19
    } else {
        r
    }
}

/// Whether a level is one at which a level-up still shortens the fall
/// interval: every level up to 10, then only the milestone levels.
pub open spec fn speeds_up(level: int) -> bool {
    ||| level <= 10
    ||| level == 13
    ||| level == 16
    ||| level == 19
    ||| level == 29
}

/// The fall interval after a level-up to `new_level`: shortened by the
/// fixed decrement at speed-up levels (never below zero), else unchanged.
pub open spec fn spec_next_interval(cur: u64, new_level: int) -> int {
    if speeds_up(new_level) {
        if cur >= 60 {
            cur - 60
        } else {
            0
        }
    } else {
        cur as int
    }
}

/// The fall interval in milliseconds after a level-up to `new_level`.
pub fn next_fall_interval(cur: u64, new_level: u32) -> (r: u64)
    ensures
        r as int == spec_next_interval(cur, new_level as int),
{
    if new_level <= 10 || new_level == 13 || new_level == 16 || new_level == 19 || new_level == 29 {
        if cur >= 60 {
            cur - 60
        } else {
            0
        }
    } else {
        cur
    }
}

/// The level after a clear or a manual trigger: one more if the running
/// line counter reached ten or the trigger was manual, else unchanged.
pub open spec fn spec_level_after(level: u32, lines: u32, cleared: u32, manual: bool) -> int {
    if lines + cleared >= 10 || manual {
        if level < 0xffff_ffffu32 {
            level + 1
        } else {
            level as int
        }
    } else {
        level as int
    }
}

/// The running line counter after a clear: advanced by the cleared rows,
/// wrapped modulo ten on a level-up, carrying the remainder forward.
pub open spec fn spec_lines_after(lines: u32, cleared: u32, manual: bool) -> int {
    if lines + cleared >= 10 || manual {
        (lines + cleared) % 10
    } else {
        lines + cleared
    }
}

/// Advances the level state by a clear of `cleared` rows (or a manual
/// trigger): returns the new level, the new line counter, and whether a
/// level-up happened. The counter stays below ten.
pub fn update_level(level: u32, lines: u32, cleared: u32, manual: bool) -> (r: (u32, u32, bool))
    requires
        lines < 10,
        cleared <= 20,
    ensures
        r.0 as int == spec_level_after(level, lines, cleared, manual),
        r.1 as int == spec_lines_after(lines, cleared, manual),
        r.2 == (lines + cleared >= 10 || manual),
        r.1 < 10,
        r.0 >= level,
{
    let total = lines + cleared;
    if total >= 10 || manual {
        let new_level = if level < 0xffff_ffff { level + 1 } else { level };
        (new_level, total % 10, true)
    } else {
        (level, total, false)
    }
}

} // verus!
