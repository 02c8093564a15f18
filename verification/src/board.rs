//! The board: a 10 x 20 grid of optional placed blocks.
//!
//! Each occupied cell holds the integer id of the block that owns it; ids are
//! handed out by the session's block arena. The grid is stored flat, row by
//! row, with row 0 the top row. Out-of-range queries to the left, right and
//! below count as occupied (the walls and the floor), while cells above the
//! top row count as empty so that a piece may enter the field from above.

use vstd::prelude::*;

use crate::piece::GridPos;

verus! {

/// A well-formed board view: exactly 20 rows of 10 columns, flattened.
pub open spec fn board_wf(g: Seq<Option<u64>>) -> bool {
    g.len() == 200
}

/// Whether `(row, col)` lies inside the visible field.
pub open spec fn in_field(row: int, col: int) -> bool {
    &&& 0 <= row < 20
    &&& 0 <= col < 10
}

/// The cell of a flattened grid at `(row, col)`.
pub open spec fn at(g: Seq<Option<u64>>, row: int, col: int) -> Option<u64> {
    g[row * 10 + col]
}

/// The uniform collision predicate: walls, floor and placed blocks are
/// occupied; cells above the top row are free.
pub open spec fn occ(g: Seq<Option<u64>>, row: int, col: int) -> bool {
    ||| col < 0
    ||| col >= 10
    ||| row >= 20
    ||| (0 <= row && at(g, row, col) is Some)
}

/// Whether every column of `row` holds a block.
pub open spec fn row_full(g: Seq<Option<u64>>, row: int) -> bool {
    forall|c: int| 0 <= c < 10 ==> #[trigger] at(g, row, c) is Some
}

/// Whether no column of `row` holds a block.
pub open spec fn row_empty(g: Seq<Option<u64>>, row: int) -> bool {
    forall|c: int| 0 <= c < 10 ==> #[trigger] at(g, row, c) is None
}

/// The indices of the full rows among the first `n`, in ascending order.
pub open spec fn full_rows_upto(g: Seq<Option<u64>>, n: int) -> Seq<usize>
    decreases n,
{
    if n <= 0 {
        Seq::empty()
    } else if row_full(g, n - 1) {
        full_rows_upto(g, n - 1).push((n - 1) as usize)
    } else {
        full_rows_upto(g, n - 1)
    }
}

/// The row indices among the first `n` that are not in `cleared`, ascending:
/// the rows that survive a clear, in their original relative order.
pub open spec fn kept_indices(n: int, cleared: Seq<usize>) -> Seq<int>
    decreases n,
{
    if n <= 0 {
        Seq::empty()
    } else if cleared.contains((n - 1) as usize) {
        kept_indices(n - 1, cleared)
    } else {
        kept_indices(n - 1, cleared).push(n - 1)
    }
}

/// How many of the integers in `[0, n)` appear in `cleared`.
pub open spec fn count_cleared(n: int, cleared: Seq<usize>) -> int
    decreases n,
{
    if n <= 0 {
        0
    } else {
        count_cleared(n - 1, cleared) + if cleared.contains((n - 1) as usize) {
            1int
        } else {
            0int
        }
    }
}

/// A strictly increasing sequence of row indices, as `full_rows` returns.
pub open spec fn strictly_increasing(s: Seq<usize>) -> bool {
    forall|i: int, j: int| 0 <= i < j < s.len() ==> s[i] < s[j]
}

/// Kept rows are exactly the non-cleared rows below `n`, kept in ascending
/// order, and there are `n - count_cleared(n)` of them.
pub proof fn lemma_kept_indices(n: int, cleared: Seq<usize>)
    requires
        0 <= n <= 20,
    ensures
        kept_indices(n, cleared).len() == n - count_cleared(n, cleared),
        0 <= count_cleared(n, cleared) <= n,
        forall|i: int|
            0 <= i < kept_indices(n, cleared).len() ==> {
                let r = #[trigger] kept_indices(n, cleared)[i];
                0 <= r < n && !cleared.contains(r as usize)
            },
        forall|i: int, j: int|
            0 <= i < j < kept_indices(n, cleared).len()
                ==> #[trigger] kept_indices(n, cleared)[i] < #[trigger] kept_indices(
                n,
                cleared,
            )[j],
        forall|r: int|
            0 <= r < n && !cleared.contains(r as usize) ==> kept_indices(n, cleared).contains(r),
    decreases n,
{
    if n > 0 {
        lemma_kept_indices(n - 1, cleared);
        let prev = kept_indices(n - 1, cleared);
        if !cleared.contains((n - 1) as usize) {
            let cur = prev.push(n - 1);
            assert forall|r: int|
                0 <= r < n && !cleared.contains(r as usize) implies cur.contains(r) by {
                if r < n - 1 {
                    assert(prev.contains(r));
                    let i = choose|i: int| 0 <= i < prev.len() && prev[i] == r;
                    assert(cur[i] == r);
                } else {
                    assert(cur[cur.len() - 1] == r);
                }
            }
        } else {
            assert forall|r: int|
                0 <= r < n && !cleared.contains(r as usize) implies kept_indices(
                n,
                cleared,
            ).contains(r) by {
                assert(r != n - 1);
            }
        }
    }
}

/// For a strictly increasing sequence of rows all below `n`, the number of
/// integers in `[0, n)` that appear in it is its length: no row is counted
/// twice and none is missed.
pub proof fn lemma_count_cleared(n: int, cleared: Seq<usize>)
    requires
        0 <= n <= 20,
        strictly_increasing(cleared),
        forall|i: int| 0 <= i < cleared.len() ==> (#[trigger] cleared[i]) < n,
    ensures
        count_cleared(n, cleared) == cleared.len(),
    decreases cleared.len(),
{
    if cleared.len() == 0 {
        assert(cleared =~= Seq::<usize>::empty());
        lemma_count_cleared_empty(n);
    } else {
        let front = cleared.drop_last();
        let last = cleared.last();
        assert forall|x: usize| #[trigger] cleared.contains(x) implies front.contains(x) || x
            == last by {
            let i = choose|i: int| 0 <= i < cleared.len() && cleared[i] == x;
            if i < cleared.len() - 1 {
                assert(front[i] == x);
            }
        }
        assert forall|x: usize| #[trigger] front.contains(x) implies cleared.contains(x) by {
            let i = choose|i: int| 0 <= i < front.len() && front[i] == x;
            assert(cleared[i] == x);
        }
        assert(!front.contains(last)) by {
            if front.contains(last) {
                let i = choose|i: int| 0 <= i < front.len() && front[i] == last;
                assert(cleared[i] < cleared[cleared.len() - 1]);
            }
        }
        assert forall|i: int, j: int| 0 <= i < j < front.len() implies front[i] < front[j] by {
            assert(cleared[i] < cleared[j]);
        }
        assert forall|i: int| 0 <= i < front.len() implies (#[trigger] front[i]) < n by {
            assert(cleared[i] < n);
        }
        lemma_count_split(n, cleared, front, last);
        lemma_count_cleared(n, front);
    }
}

/// Counting membership of `[0, n)` in a sequence splits off its last element.
proof fn lemma_count_split(n: int, cleared: Seq<usize>, front: Seq<usize>, last: usize)
    requires
        n <= 20,
        forall|x: usize| cleared.contains(x) <==> front.contains(x) || x == last,
        !front.contains(last),
        0 <= last < n,
    ensures
        count_cleared(n, cleared) == count_cleared(n, front) + 1,
    decreases n,
{
    if n <= 0 {
    } else {
        if last < n - 1 {
            lemma_count_split(n - 1, cleared, front, last);
        } else {
            assert(last == n - 1);
            assert((n - 1) as usize == last);
            assert(cleared.contains(last));
            assert(!front.contains((n - 1) as usize));
            lemma_count_same_below(n - 1, cleared, front, last);
        }
    }
}

/// Below the last element the two sequences agree on membership, so the
/// counts agree.
proof fn lemma_count_same_below(n: int, cleared: Seq<usize>, front: Seq<usize>, last: usize)
    requires
        n <= 20,
        forall|x: usize| cleared.contains(x) <==> front.contains(x) || x == last,
        n <= last,
    ensures
        count_cleared(n, cleared) == count_cleared(n, front),
    decreases n,
{
    if n > 0 {
        lemma_count_same_below(n - 1, cleared, front, last);
    }
}

/// Nothing below `n` is a member of the empty sequence.
proof fn lemma_count_cleared_empty(n: int)
    ensures
        count_cleared(n, Seq::<usize>::empty()) == 0,
    decreases n,
{
    if n > 0 {
        lemma_count_cleared_empty(n - 1);
    }
}

/// `full_rows_upto` lists exactly the full rows below `n`, ascending.
pub proof fn lemma_full_rows_upto(g: Seq<Option<u64>>, n: int)
    requires
        0 <= n <= 20,
    ensures
        forall|i: int|
            0 <= i < full_rows_upto(g, n).len() ==> {
                let r = #[trigger] full_rows_upto(g, n)[i];
                0 <= r < n && row_full(g, r as int)
            },
        forall|i: int, j: int|
            0 <= i < j < full_rows_upto(g, n).len()
                ==> #[trigger] full_rows_upto(g, n)[i] < #[trigger] full_rows_upto(g, n)[j],
        forall|r: int|
            0 <= r < n && row_full(g, r) ==> full_rows_upto(g, n).contains(r as usize),
        full_rows_upto(g, n).len() <= n,
    decreases n,
{
    if n > 0 {
        lemma_full_rows_upto(g, n - 1);
        let prev = full_rows_upto(g, n - 1);
        assert forall|r: int|
            0 <= r < n && row_full(g, r) implies full_rows_upto(g, n).contains(r as usize) by {
            if r < n - 1 {
                assert(prev.contains(r as usize));
                let i = choose|i: int| 0 <= i < prev.len() && prev[i] == r as usize;
                if row_full(g, n - 1) {
                    assert(full_rows_upto(g, n)[i] == r as usize);
                } else {
                    assert(full_rows_upto(g, n)[i] == r as usize);
                }
            } else {
                assert(row_full(g, n - 1));
                assert(full_rows_upto(g, n).last() == (n - 1) as usize);
            }
        }
    }
}

/// The grid of placed blocks.
pub struct Board {
    cells: Vec<Option<u64>>,
}

impl View for Board {
    type V = Seq<Option<u64>>;

    closed spec fn view(&self) -> Seq<Option<u64>> {
        self.cells@
    }
}

impl Board {
    /// An empty board.
    pub fn new() -> (b: Board)
        ensures
            board_wf(b@),
            forall|r: int, c: int| in_field(r, c) ==> #[trigger] at(b@, r, c) is None,
    {
        let mut cells: Vec<Option<u64>> = Vec::new();
        let mut i: usize = 0;
        while i < 200
            invariant
                i <= 200,
                cells@.len() == i,
                forall|j: int| 0 <= j < i ==> cells@[j] is None,
            decreases 200 - i,
        {
            cells.push(None);
            i = i + 1;
        }
        Board { cells }
    }

    /// The uniform occupancy query: true on walls, the floor, and placed
    /// blocks; false inside the field on empty cells and above the top row.
    pub fn is_occupied(&self, row: i32, col: i32) -> (r: bool)
        requires
            board_wf(self@),
        ensures
            r == occ(self@, row as int, col as int),
    {
        if col < 0 || col >= 10 || row >= 20 {
            true
        } else if row < 0 {
            false
        } else {
            let idx: usize = (row as usize) * 10 + (col as usize);
            self.cells[idx].is_some()
        }
    }

    /// The block id at a cell of the field.
    pub fn cell(&self, row: usize, col: usize) -> (r: Option<u64>)
        requires
            board_wf(self@),
            row < 20,
            col < 10,
        ensures
            r == at(self@, row as int, col as int),
    {
        self.cells[row * 10 + col]
    }

    /// Marks the four given cells as owned by blocks `first_id` to
    /// `first_id + 3`, in order. The cells must lie in the field, be empty,
    /// and be pairwise distinct; everything else is untouched.
    pub fn place_cells(&mut self, cells: &Vec<GridPos>, first_id: u64)
        requires
            board_wf(old(self)@),
            cells@.len() == 4,
            first_id + 4 <= u64::MAX,
            forall|i: int|
                0 <= i < 4 ==> in_field((#[trigger] cells@[i]).row as int, cells@[i].col as int),
            forall|i: int|
                0 <= i < 4 ==> !occ(
                    old(self)@,
                    (#[trigger] cells@[i]).row as int,
                    cells@[i].col as int,
                ),
            forall|i: int, j: int| 0 <= i < j < 4 ==> cells@[i] != cells@[j],
        ensures
            board_wf(final(self)@),
            forall|i: int|
                0 <= i < 4 ==> at(
                    final(self)@,
                    (#[trigger] cells@[i]).row as int,
                    cells@[i].col as int,
                ) == Some((first_id + i) as u64),
            forall|r: int, c: int|
                in_field(r, c) && (forall|i: int|
                    0 <= i < 4 ==> !((#[trigger] cells@[i]).row as int == r && cells@[i].col as int
                        == c)) ==> #[trigger] at(final(self)@, r, c) == at(old(self)@, r, c),
    {
        let mut i: usize = 0;
        while i < 4
            invariant
                board_wf(self@),
                cells@.len() == 4,
                first_id + 4 <= u64::MAX,
                i <= 4,
                forall|k: int|
                    0 <= k < 4 ==> in_field(
                        (#[trigger] cells@[k]).row as int,
                        cells@[k].col as int,
                    ),
                forall|k: int, j: int| 0 <= k < j < 4 ==> cells@[k] != cells@[j],
                forall|k: int|
                    0 <= k < i ==> at(
                        self@,
                        (#[trigger] cells@[k]).row as int,
                        cells@[k].col as int,
                    ) == Some((first_id + k) as u64),
                forall|r: int, c: int|
                    in_field(r, c) && (forall|k: int|
                        0 <= k < i ==> !((#[trigger] cells@[k]).row as int == r
                            && cells@[k].col as int == c)) ==> #[trigger] at(self@, r, c) == at(
                        old(self)@,
                        r,
                        c,
                    ),
            decreases 4 - i,
        {
            let p = cells[i];
            let ghost pre = self@;
            let idx: usize = (p.row as usize) * 10 + (p.col as usize);
            self.cells.set(idx, Some(first_id + i as u64));
            proof {
                assert(self@ == pre.update(idx as int, Some((first_id + i) as u64)));
                assert forall|r: int, c: int| in_field(r, c) && !(p.row as int == r
                    && p.col as int == c) implies #[trigger] at(self@, r, c) == at(pre, r, c) by {
                    assert(r * 10 + c != idx as int);
                }
                assert(at(self@, p.row as int, p.col as int) == Some((first_id + i) as u64));
            }
            i = i + 1;
        }
    }

    /// The indices of the rows in which every column is occupied, ascending.
    pub fn full_rows(&self) -> (rows: Vec<usize>)
        requires
            board_wf(self@),
        ensures
            rows@ == full_rows_upto(self@, 20),
            strictly_increasing(rows@),
            forall|i: int| 0 <= i < rows@.len() ==> (#[trigger] rows@[i]) < 20,
            rows@.len() <= 20,
        {
        let mut rows: Vec<usize> = Vec::new();
        let mut r: usize = 0;
        while r < 20
            invariant
                board_wf(self@),
                r <= 20,
                rows@ == full_rows_upto(self@, r as int),
            decreases 20 - r,
        {
            let mut c: usize = 0;
            let mut full = true;
            while c < 10
                invariant
                    board_wf(self@),
                    r < 20,
                    c <= 10,
                    full == (forall|k: int| 0 <= k < c ==> #[trigger] at(self@, r as int, k) is Some),
                decreases 10 - c,
            {
                let v = self.cells[r * 10 + c];
                proof {
                    assert(v == at(self@, r as int, c as int));
                }
                if v.is_none() {
                    full = false;
                }
                c = c + 1;
            }
            if full {
                rows.push(r);
            }
            r = r + 1;
        }
        proof {
            lemma_full_rows_upto(self@, 20);
        }
        rows
    }

    /// Removes the given rows and shifts every surviving row down by the
    /// number of cleared rows below it, in their original relative order;
    /// the vacated top rows become empty. `rows` must be ascending and
    /// within the field, as `full_rows` returns them.
    pub fn clear_and_shift(&mut self, rows: &Vec<usize>)
        requires
            board_wf(old(self)@),
            strictly_increasing(rows@),
            forall|i: int| 0 <= i < rows@.len() ==> (#[trigger] rows@[i]) < 20,
        ensures
            board_wf(final(self)@),
            kept_indices(20, rows@).len() == 20 - rows@.len(),
            forall|r: int, c: int|
                0 <= r < rows@.len() && 0 <= c < 10 ==> #[trigger] at(final(self)@, r, c) is None,
            forall|r: int, c: int|
                rows@.len() <= r < 20 && 0 <= c < 10 ==> #[trigger] at(final(self)@, r, c) == at(
                    old(self)@,
                    kept_indices(20, rows@)[r - rows@.len()],
                    c,
                ),
    {
        proof {
            lemma_kept_indices(20, rows@);
            lemma_count_cleared(20, rows@);
        }
        let ghost old_g = self@;
        let mut kept: Vec<Option<u64>> = Vec::new();
        let mut r: usize = 0;
        while r < 20
            invariant
                board_wf(old_g),
                self@ == old_g,
                r <= 20,
                kept@.len() == 10 * kept_indices(r as int, rows@).len(),
                forall|i: int, c: int|
                    0 <= i < kept_indices(r as int, rows@).len() && 0 <= c < 10
                        ==> #[trigger] at(kept@, i, c) == at(
                        old_g,
                        kept_indices(r as int, rows@)[i],
                        c,
                    ),
                forall|i: int|
                    0 <= i < kept_indices(r as int, rows@).len()
                        ==> 0 <= #[trigger] kept_indices(r as int, rows@)[i] < r,
            decreases 20 - r,
        {
            proof {
                lemma_kept_indices(r as int + 1, rows@);
            }
            if !contains_row(rows, r) {
                let ghost kept_before = kept@;
                let ghost ki = kept_indices(r as int, rows@).len() as int;
                let mut c: usize = 0;
                while c < 10
                    invariant
                        board_wf(old_g),
                        self@ == old_g,
                        r < 20,
                        c <= 10,
                        kept@.len() == kept_before.len() + c,
                        kept@ == kept_before + old_g.subrange(r as int * 10, r as int * 10 + c),
                    decreases 10 - c,
                {
                    let v = self.cells[r * 10 + c];
                    kept.push(v);
                    proof {
                        assert(kept@ =~= kept_before + old_g.subrange(
                            r as int * 10,
                            r as int * 10 + c + 1,
                        ));
                    }
                    c = c + 1;
                }
                proof {
                    assert(kept_indices(r as int + 1, rows@) == kept_indices(r as int, rows@).push(
                        r as int,
                    ));
                    assert forall|i: int, cc: int|
                        0 <= i < kept_indices(r as int + 1, rows@).len() && 0 <= cc
                            < 10 implies #[trigger] at(kept@, i, cc) == at(
                        old_g,
                        kept_indices(r as int + 1, rows@)[i],
                        cc,
                    ) by {
                        if i < ki {
                            assert(kept@[i * 10 + cc] == kept_before[i * 10 + cc]);
                            assert(at(kept_before, i, cc) == at(
                                old_g,
                                kept_indices(r as int, rows@)[i],
                                cc,
                            ));
                        } else {
                            assert(kept@[i * 10 + cc] == old_g.subrange(
                                r as int * 10,
                                r as int * 10 + 10,
                            )[cc]);
                        }
                    }
                }
            }
            r = r + 1;
        }
        let pad: usize = 200 - kept.len();
        let mut fresh: Vec<Option<u64>> = Vec::new();
        let mut i: usize = 0;
        while i < pad
            invariant
                i <= pad,
                fresh@.len() == i,
                forall|j: int| 0 <= j < i ==> fresh@[j] is None,
            decreases pad - i,
        {
            fresh.push(None);
            i = i + 1;
        }
        let mut j: usize = 0;
        let klen = kept.len();
        while j < klen
            invariant
                klen == kept@.len(),
                j <= klen,
                fresh@.len() == pad + j,
                pad == 200 - klen,
                forall|t: int| 0 <= t < pad ==> fresh@[t] is None,
                forall|t: int| 0 <= t < j ==> fresh@[pad + t] == kept@[t],
            decreases klen - j,
        {
            fresh.push(kept[j]);
            j = j + 1;
        }
        self.cells = fresh;
        proof {
            let kseq = kept_indices(20, rows@);
            let nkept = kseq.len();
            let ncleared = rows@.len() as int;
            assert(nkept == 20 - ncleared);
            assert(klen == 10 * nkept);
            assert(pad == 10 * ncleared);
            assert forall|r: int, c: int|
                0 <= r < ncleared && 0 <= c < 10 implies #[trigger] at(self@, r, c) is None by {
                assert(r * 10 + c < pad);
                assert(self@[r * 10 + c] is None);
            }
            assert forall|r: int, c: int|
                ncleared <= r < 20 && 0 <= c < 10 implies #[trigger] at(self@, r, c) == at(
                old_g,
                kseq[r - ncleared],
                c,
            ) by {
                let t = (r - ncleared) * 10 + c;
                assert(0 <= t < klen);
                assert(self@[pad + t] == kept@[t]);
                assert(pad + t == r * 10 + c);
                assert(at(kept@, r - ncleared, c) == at(old_g, kseq[r - ncleared], c));
            }
        }
    }
}

/// Whether `rows` contains `r`.
fn contains_row(rows: &Vec<usize>, r: usize) -> (b: bool)
    ensures
        b == rows@.contains(r),
{
    let mut i: usize = 0;
    while i < rows.len()
        invariant
            i <= rows@.len(),
            forall|j: int| 0 <= j < i ==> rows@[j] != r,
        decreases rows@.len() - i,
    {
        if rows[i] == r {
            assert(rows@[i as int] == r);
            return true;
        }
        i = i + 1;
    }
    false
}

} // verus!
