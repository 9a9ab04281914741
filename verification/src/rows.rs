//! Full-row detection, clearing and compaction.
//!
//! The scan walks the 20 rows from top to bottom. A row is full when all of
//! its 10 cells are `Locked`. Each full row is cleared and every row above it
//! is copied one row down, cell by cell, skipping cells that belong to the
//! still-active piece on either side of the copy. Row 0 keeps its own cells
//! (it is copied down, not moved), exactly as the scan describes.

use vstd::prelude::*;

use crate::board::{board_view, board_wf, empty_row, set_cell, Cell, Grid};

verus! {

broadcast use vstd::array::group_array_axioms;

/// A full row: all 10 cells `Locked`.
pub open spec fn row_full(row: Seq<Cell>) -> bool {
    forall|x: int| 0 <= x < 10 ==> row[x] == Cell::Locked
}

/// What one downward copy leaves in a cell: the cell above moves in unless
/// either side of the copy belongs to the active piece.
pub open spec fn merge_cell(above: Cell, below: Cell) -> Cell {
    if above != Cell::Active && below != Cell::Active {
        above
    } else {
        below
    }
}

/// Every row of `b` at or above row `i` copied one row down (row 0 keeps its
/// own cells); rows below `i` are unchanged.
pub open spec fn collapse_above(b: Seq<Seq<Cell>>, i: int) -> Seq<Seq<Cell>> {
    Seq::new(
        20,
        |r: int|
            if 1 <= r <= i {
                Seq::new(10, |x: int| merge_cell(b[r - 1][x], b[r][x]))
            } else {
                b[r]
            },
    )
}

/// One step of the scan at row `i`: if the row is full, clear it and compact
/// everything above it one row down; otherwise leave the board alone.
pub open spec fn clear_step(b: Seq<Seq<Cell>>, i: int) -> Seq<Seq<Cell>> {
    if row_full(b[i]) {
        collapse_above(b.update(i, empty_row()), i)
    } else {
        b
    }
}

/// The scan from row `i` to the bottom.
pub open spec fn clear_from(b: Seq<Seq<Cell>>, i: int) -> Seq<Seq<Cell>>
    decreases 20 - i,
{
    if i < 0 || i >= 20 {
        b
    } else {
        clear_from(clear_step(b, i), i + 1)
    }
}

/// The board after a whole clearing scan.
pub open spec fn cleared(b: Seq<Seq<Cell>>) -> Seq<Seq<Cell>> {
    clear_from(b, 0)
}

/// The number of full rows at or below row `i`.
pub open spec fn full_from(b: Seq<Seq<Cell>>, i: int) -> int
    decreases 20 - i,
{
    if i < 0 || i >= 20 {
        0
    } else {
        full_from(b, i + 1) + if row_full(b[i]) {
            1int
        } else {
            0int
        }
    }
}

/// The number of full rows of the board.
pub open spec fn full_count(b: Seq<Seq<Cell>>) -> int {
    full_from(b, 0)
}

/// The number of `Locked` cells in one row.
pub open spec fn row_locked(row: Seq<Cell>) -> int
    decreases row.len(),
{
    if row.len() == 0 {
        0
    } else {
        row_locked(row.drop_last()) + if row.last() == Cell::Locked {
            1int
        } else {
            0int
        }
    }
}

/// The number of `Locked` cells in rows `i` (inclusive) to `j` (exclusive).
pub open spec fn locked_between(b: Seq<Seq<Cell>>, i: int, j: int) -> int
    decreases j - i,
{
    if i >= j {
        0
    } else {
        row_locked(b[i]) + locked_between(b, i + 1, j)
    }
}

/// The number of `Locked` cells on the board.
pub open spec fn locked_count(b: Seq<Seq<Cell>>) -> int {
    locked_between(b, 0, 20)
}

/// One scan step keeps the board well-formed and never touches a row below
/// the scanned one.
pub proof fn lemma_clear_step_frame(b: Seq<Seq<Cell>>, i: int)
    requires
        board_wf(b),
        0 <= i < 20,
    ensures
        board_wf(clear_step(b, i)),
        forall|r: int| i < r < 20 ==> clear_step(b, i)[r] == b[r],
{
    if row_full(b[i]) {
        let bu = b.update(i, empty_row());
        assert forall|r: int| i < r < 20 implies clear_step(b, i)[r] == b[r] by {
            assert(collapse_above(bu, i)[r] == bu[r]);
        }
    }
}

/// One scan step changes which cells are `Active` nowhere.
pub proof fn lemma_clear_step_active(b: Seq<Seq<Cell>>, i: int)
    requires
        board_wf(b),
        0 <= i < 20,
    ensures
        forall|x: int, y: int|
            0 <= x < 10 && 0 <= y < 20 ==> (((#[trigger] clear_step(b, i)[y][x]) == Cell::Active)
                <==> (b[y][x] == Cell::Active)),
{
    if row_full(b[i]) {
        let bu = b.update(i, empty_row());
        let c = collapse_above(bu, i);
        assert forall|x: int, y: int| 0 <= x < 10 && 0 <= y < 20 implies (((#[trigger] c[y][x])
            == Cell::Active) <==> (b[y][x] == Cell::Active)) by {
            if 1 <= y <= i {
                assert(c[y][x] == merge_cell(bu[y - 1][x], bu[y][x]));
                if y == i {
                    assert(b[y][x] == Cell::Locked);
                    assert(bu[y][x] == Cell::Empty);
                } else {
                    assert(bu[y][x] == b[y][x]);
                }
            } else {
                assert(c[y][x] == bu[y][x]);
                if y == i {
                    assert(y == 0 && i == 0);
                    assert(b[y][x] == Cell::Locked);
                    assert(bu[y][x] == Cell::Empty);
                }
            }
        }
    }
}

/// A whole scan changes which cells are `Active` nowhere, and keeps the board
/// well-formed.
pub proof fn lemma_clear_from_active(b: Seq<Seq<Cell>>, i: int)
    requires
        board_wf(b),
    ensures
        board_wf(clear_from(b, i)),
        forall|x: int, y: int|
            0 <= x < 10 && 0 <= y < 20 ==> (((#[trigger] clear_from(b, i)[y][x]) == Cell::Active)
                <==> (b[y][x] == Cell::Active)),
    decreases 20 - i,
{
    if i < 0 || i >= 20 {
    } else {
        lemma_clear_step_frame(b, i);
        lemma_clear_step_active(b, i);
        lemma_clear_from_active(clear_step(b, i), i + 1);
    }
}

/// Two boards that agree on every row at or below `i` have the same number of
/// full rows there.
pub proof fn lemma_full_from_congruent(b1: Seq<Seq<Cell>>, b2: Seq<Seq<Cell>>, i: int)
    requires
        forall|r: int| i <= r < 20 ==> b1[r] == b2[r],
    ensures
        full_from(b1, i) == full_from(b2, i),
    decreases 20 - i,
{
    if i < 0 || i >= 20 {
    } else {
        lemma_full_from_congruent(b1, b2, i + 1);
    }
}

pub proof fn lemma_full_from_bounds(b: Seq<Seq<Cell>>, i: int)
    requires
        0 <= i <= 20,
    ensures
        0 <= full_from(b, i) <= 20 - i,
    decreases 20 - i,
{
    if i < 20 {
        lemma_full_from_bounds(b, i + 1);
    }
}

/// A scan over rows that are none of them full leaves the board alone.
pub proof fn lemma_clear_from_no_full(b: Seq<Seq<Cell>>, i: int)
    requires
        forall|r: int| i <= r < 20 ==> !row_full(#[trigger] b[r]),
    ensures
        clear_from(b, i) == b,
    decreases 20 - i,
{
    if i < 0 || i >= 20 {
    } else {
        assert(clear_step(b, i) == b);
        lemma_clear_from_no_full(b, i + 1);
    }
}

/// The scan skips rows that are not full: it jumps straight to the first full
/// row `f`.
pub proof fn lemma_clear_from_skip_to(b: Seq<Seq<Cell>>, i: int, f: int)
    requires
        0 <= i <= f < 20,
        forall|r: int| i <= r < f ==> !row_full(#[trigger] b[r]),
    ensures
        clear_from(b, i) == clear_from(clear_step(b, f), f + 1),
    decreases f - i,
{
    if i == f {
    } else {
        assert(clear_step(b, i) == b);
        lemma_clear_from_skip_to(b, i + 1, f);
    }
}

/// Rows that are not full do not count: the tally from `i` equals the tally
/// from `j` when no row in between is full.
pub proof fn lemma_full_from_skip(b: Seq<Seq<Cell>>, i: int, j: int)
    requires
        0 <= i <= j <= 20,
        forall|r: int| i <= r < j ==> !row_full(#[trigger] b[r]),
    ensures
        full_from(b, i) == full_from(b, j),
    decreases j - i,
{
    if i < j {
        lemma_full_from_skip(b, i + 1, j);
    }
}

/// A row of 10 `Locked` cells counts 10.
pub proof fn lemma_row_locked_all(row: Seq<Cell>)
    requires
        forall|x: int| 0 <= x < row.len() ==> row[x] == Cell::Locked,
    ensures
        row_locked(row) == row.len(),
    decreases row.len(),
{
    if row.len() > 0 {
        lemma_row_locked_all(row.drop_last());
    }
}

/// A row without `Locked` cells counts 0.
pub proof fn lemma_row_locked_none(row: Seq<Cell>)
    requires
        forall|x: int| 0 <= x < row.len() ==> row[x] != Cell::Locked,
    ensures
        row_locked(row) == 0,
    decreases row.len(),
{
    if row.len() > 0 {
        lemma_row_locked_none(row.drop_last());
    }
}

/// Two boards that agree on rows [i, j) hold the same number of `Locked`
/// cells there.
pub proof fn lemma_locked_between_congruent(b1: Seq<Seq<Cell>>, b2: Seq<Seq<Cell>>, i: int, j: int)
    requires
        forall|r: int| i <= r < j ==> b1[r] == b2[r],
    ensures
        locked_between(b1, i, j) == locked_between(b2, i, j),
    decreases j - i,
{
    if i < j {
        lemma_locked_between_congruent(b1, b2, i + 1, j);
    }
}

pub proof fn lemma_locked_between_split(b: Seq<Seq<Cell>>, i: int, k: int, j: int)
    requires
        i <= k <= j,
    ensures
        locked_between(b, i, j) == locked_between(b, i, k) + locked_between(b, k, j),
    decreases k - i,
{
    if i < k {
        lemma_locked_between_split(b, i + 1, k, j);
    }
}

/// If rows [i, j) of `b2` are rows [i-1, j-1) of `b1`, the `Locked` counts
/// over those spans agree.
pub proof fn lemma_locked_between_shift(b1: Seq<Seq<Cell>>, b2: Seq<Seq<Cell>>, i: int, j: int)
    requires
        forall|r: int| i <= r < j ==> b2[r] == b1[r - 1],
    ensures
        locked_between(b2, i, j) == locked_between(b1, i - 1, j - 1),
    decreases j - i,
{
    if i < j {
        lemma_locked_between_shift(b1, b2, i + 1, j);
        assert(locked_between(b1, i - 1, j - 1) == row_locked(b1[i - 1]) + locked_between(
            b1,
            i,
            j - 1,
        ));
    }
}

/// Is row `i` of the grid full?
#[verifier::loop_isolation(false)]
fn row_is_full(g: &Grid, i: usize) -> (r: bool)
    requires
        i < 20,
    ensures
        r == row_full(board_view(*g)[i as int]),
{
    let mut j: usize = 0;
    while j < 10
        invariant
            j <= 10,
            i < 20,
            forall|x: int| 0 <= x < j ==> board_view(*g)[i as int][x] == Cell::Locked,
        decreases 10 - j,
    {
        if g[i][j] != Cell::Locked {
            proof {
                assert(board_view(*g)[i as int][j as int] != Cell::Locked);
            }
            return false;
        }
        proof {
            assert(board_view(*g)[i as int][j as int] == g[i as int]@[j as int]);
        }
        j = j + 1;
    }
    true
}

/// Clear row `i` to `Empty`.
#[verifier::loop_isolation(false)]
fn clear_row_exec(g: &mut Grid, i: usize)
    requires
        i < 20,
    ensures
        board_view(*final (g)) == board_view(*old(g)).update(i as int, empty_row()),
{
    let ghost b0 = board_view(*old(g));
    proof {
        crate::board::lemma_board_view_wf(*old(g));
        assert(b0.update(i as int, Seq::new(10, |x: int| if x < 0 {
            Cell::Empty
        } else {
            b0[i as int][x]
        })) =~~= b0);
    }
    let mut j: usize = 0;
    while j < 10
        invariant
            j <= 10,
            i < 20,
            board_view(*g) == b0.update(i as int, Seq::new(10, |x: int| if x < j {
                Cell::Empty
            } else {
                b0[i as int][x]
            })),
        decreases 10 - j,
    {
        set_cell(g, j, i, Cell::Empty);
        proof {
            assert(board_view(*g) =~~= b0.update(i as int, Seq::new(10, |x: int| if x < j + 1 {
                Cell::Empty
            } else {
                b0[i as int][x]
            })));
        }
        j = j + 1;
    }
    proof {
        assert(board_view(*g) =~~= b0.update(i as int, empty_row()));
    }
}

/// Copy row `k - 1` down into row `k`, skipping active cells on either side.
#[verifier::loop_isolation(false)]
fn merge_row_down(g: &mut Grid, k: usize)
    requires
        1 <= k < 20,
    ensures
        board_view(*final (g)) == board_view(*old(g)).update(
            k as int,
            Seq::new(10, |x: int| merge_cell(board_view(*old(g))[k - 1][x], board_view(*old(g))[k as int][x])),
        ),
{
    let ghost b0 = board_view(*old(g));
    proof {
        crate::board::lemma_board_view_wf(*old(g));
        assert(b0.update(k as int, Seq::new(10, |x: int| if x < 0 {
            merge_cell(b0[k - 1][x], b0[k as int][x])
        } else {
            b0[k as int][x]
        })) =~~= b0);
    }
    let mut j: usize = 0;
    while j < 10
        invariant
            j <= 10,
            1 <= k < 20,
            board_view(*g) == b0.update(k as int, Seq::new(10, |x: int| if x < j {
                merge_cell(b0[k - 1][x], b0[k as int][x])
            } else {
                b0[k as int][x]
            })),
        decreases 10 - j,
    {
        let above = g[k - 1][j];
        let below = g[k][j];
        proof {
            assert(board_view(*g)[k - 1] == g[k - 1 as int]@);
            assert(above == b0[k - 1][j as int]);
            assert(board_view(*g)[k as int][j as int] == b0[k as int][j as int]);
            assert(below == b0[k as int][j as int]);
        }
        if above != Cell::Active && below != Cell::Active {
            set_cell(g, j, k, above);
        }
        proof {
            assert(board_view(*g) =~~= b0.update(k as int, Seq::new(10, |x: int| if x < j + 1 {
                merge_cell(b0[k - 1][x], b0[k as int][x])
            } else {
                b0[k as int][x]
            })));
        }
        j = j + 1;
    }
    proof {
        assert(board_view(*g) =~~= b0.update(k as int, Seq::new(10, |x: int| merge_cell(
            b0[k - 1][x],
            b0[k as int][x],
        ))));
    }
}

/// Compact every row above row `i` one row down, top row last.
#[verifier::loop_isolation(false)]
fn collapse_rows(g: &mut Grid, i: usize)
    requires
        i < 20,
    ensures
        board_view(*final (g)) == collapse_above(board_view(*old(g)), i as int),
{
    let ghost b0 = board_view(*old(g));
    proof {
        crate::board::lemma_board_view_wf(*old(g));
        assert(Seq::new(20, |r: int| if i < r <= i as int {
            Seq::new(10, |x: int| merge_cell(b0[r - 1][x], b0[r][x]))
        } else {
            b0[r]
        }) =~~= b0);
    }
    let mut k: usize = i;
    while k >= 1
        invariant
            k <= i < 20,
            board_view(*g) == Seq::new(20, |r: int| if k < r <= i as int {
                Seq::new(10, |x: int| merge_cell(b0[r - 1][x], b0[r][x]))
            } else {
                b0[r]
            }),
        decreases k,
    {
        proof {
            assert(board_view(*g)[k as int] == b0[k as int]);
            assert(board_view(*g)[k - 1] == b0[k - 1]);
        }
        merge_row_down(g, k);
        proof {
            assert(board_view(*g) =~~= Seq::new(20, |r: int| if k - 1 < r <= i as int {
                Seq::new(10, |x: int| merge_cell(b0[r - 1][x], b0[r][x]))
            } else {
                b0[r]
            }));
        }
        k = k - 1;
    }
    proof {
        assert(board_view(*g) =~~= collapse_above(b0, i as int));
    }
}

/// Scan all 20 rows top to bottom, clear each full one and compact the rows
/// above it; return how many rows were cleared.
#[verifier::loop_isolation(false)]
pub fn clear_full_rows(g: &mut Grid) -> (r: i64)
    ensures
        board_view(*final (g)) == cleared(board_view(*old(g))),
        r == full_count(board_view(*old(g))),
        0 <= r <= 20,
{
    let ghost b0 = board_view(*old(g));
    proof {
        crate::board::lemma_board_view_wf(*old(g));
    }
    let mut res: i64 = 0;
    let mut i: usize = 0;
    while i < 20
        invariant
            i <= 20,
            0 <= res <= i,
            board_wf(board_view(*g)),
            clear_from(board_view(*g), i as int) == clear_from(b0, 0),
            res + full_from(board_view(*g), i as int) == full_count(b0),
        decreases 20 - i,
    {
        let ghost b_pre = board_view(*g);
        if row_is_full(g, i) {
            clear_row_exec(g, i);
            collapse_rows(g, i);
            proof {
                assert(board_view(*g) == clear_step(b_pre, i as int));
            }
            res = res + 1;
        } else {
            proof {
                assert(board_view(*g) == clear_step(b_pre, i as int));
            }
        }
        proof {
            crate::board::lemma_board_view_wf(*g);
            lemma_clear_step_frame(b_pre, i as int);
            lemma_full_from_congruent(board_view(*g), b_pre, i + 1);
            assert(clear_from(b_pre, i as int) == clear_from(board_view(*g), i + 1));
            assert(full_from(b_pre, i as int) == full_from(b_pre, i + 1) + if row_full(
                b_pre[i as int],
            ) {
                1int
            } else {
                0int
            });
        }
        i = i + 1;
    }
    proof {
        assert(clear_from(board_view(*g), 20) == board_view(*g));
        assert(full_from(board_view(*g), 20) == 0);
    }
    res
}

} // verus!
