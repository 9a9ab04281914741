//! Properties of the engine that relate several operations, stated over the
//! same spec functions that the engine's contracts use and proved once and
//! for all.

use vstd::prelude::*;

use crate::board::{board_wf, empty_board, no_active, occupies, paint, piece_wf, Cell, Coord};
use crate::rows::{
    cleared, clear_step, collapse_above, full_count, full_from, lemma_clear_from_no_full,
    lemma_clear_from_skip_to, lemma_full_from_skip, lemma_locked_between_congruent,
    lemma_locked_between_shift, lemma_locked_between_split, lemma_row_locked_all,
    lemma_row_locked_none, locked_between, locked_count, row_full, row_locked,
};
use crate::state::{
    can_descend, can_move_left, gravity_rel, is_square, left_result, line_bonus, lock_mid,
    lock_rel, rotate_result, rotated, rotation_fits, score_after, shift_piece, spawn_blocked,
    state_wf, State,
};

verus! {

/// A fresh board holds exactly the cells of the spawned piece: a cell is
/// occupied iff the piece covers it, and nothing is `Locked` yet. With the
/// piece's 4 cells pairwise distinct, exactly 4 cells are occupied.
pub proof fn lemma_fresh_board_occupancy(piece: Seq<Coord>)
    requires
        piece_wf(piece),
    ensures
        forall|x: int, y: int|
            0 <= x < 10 && 0 <= y < 20 ==> (((#[trigger] paint(
                empty_board(),
                piece,
                Cell::Active,
            )[y][x]) != Cell::Empty) <==> occupies(piece, x, y)),
        forall|x: int, y: int|
            0 <= x < 10 && 0 <= y < 20 ==> (#[trigger] paint(empty_board(), piece, Cell::Active)[y][x])
                != Cell::Locked,
{
}

/// Bounds invariant: in every well-formed running state — and every engine
/// operation promises to leave the state well-formed — the active piece is 4
/// distinct cells whose columns lie in 0..=9 and rows in 0..=19; every other
/// occupied cell is a cell of the fixed 20 x 10 board by construction.
pub proof fn lemma_piece_in_bounds(s: State)
    requires
        state_wf(s),
        !s.over,
    ensures
        forall|i: int| 0 <= i < 4 ==> (#[trigger] s.piece[i]).0 < 10 && s.piece[i].1 < 20,
{
}

/// No-op safety of `Left`: when some cell of the active piece stands at
/// column 0 the move is illegal, so the board, the score and the
/// active-position set are all left unchanged.
pub proof fn lemma_left_at_wall_noop(s: State)
    requires
        exists|i: int| 0 <= i < 4 && (#[trigger] s.piece[i]).0 == 0,
    ensures
        left_result(s) == s,
{
    let i = choose|i: int| 0 <= i < 4 && (#[trigger] s.piece[i]).0 == 0;
    assert(!can_move_left(s.board, s.piece));
}

/// Rotation rejection: if a computed new cell of the piece would land on a
/// `Locked` cell, `Rotate` leaves the state unchanged — it is a silent
/// no-op, not an error.
pub proof fn lemma_rotation_rejected(s: State, i: int)
    requires
        0 <= i < 4,
        0 <= rotated(s.piece)[i].0 < 10,
        0 <= rotated(s.piece)[i].1 < 20,
        s.board[rotated(s.piece)[i].1][rotated(s.piece)[i].0] == Cell::Locked,
    ensures
        rotate_result(s) == s,
{
    assert(!rotation_fits(s.board, s.piece));
}

/// The square piece never rotates: `Rotate` is the identity on such a state,
/// and therefore any number of consecutive `Rotate` calls leaves the
/// active-position set exactly where it was.
pub proof fn lemma_square_rotation_identity(s: State)
    requires
        is_square(s.piece),
    ensures
        rotate_result(s) == s,
        rotate_result(rotate_result(s)) == s,
{
}

proof fn lemma_full_from_unique(b: Seq<Seq<Cell>>, i: int, f: int)
    requires
        0 <= i <= 20,
        0 <= f < 20,
        row_full(b[f]),
        forall|r: int| 0 <= r < 20 && r != f ==> !row_full(#[trigger] b[r]),
    ensures
        full_from(b, i) == if i <= f {
            1int
        } else {
            0int
        },
    decreases 20 - i,
{
    if i < 20 {
        lemma_full_from_unique(b, i + 1, f);
    }
}

/// Single-row clear. At the moment a lock leaves exactly one full row `f`
/// (and no cell is `Active` any more, the piece having just settled):
/// the clear is worth 0 points — the single-line bonus is zero by design —
/// it removes exactly 10 `Locked` cells, and every row above `f` moves down
/// one row while the rows below keep their cells. Row 0 is copied down, not
/// moved, so the 10-cell drop in the `Locked` count asks that row 0 hold no
/// `Locked` cell; a `Locked` cell there would be duplicated by the copy.
pub proof fn lemma_single_row_clear(b: Seq<Seq<Cell>>, f: int)
    requires
        board_wf(b),
        no_active(b),
        0 <= f < 20,
        row_full(b[f]),
        forall|r: int| 0 <= r < 20 && r != f ==> !row_full(#[trigger] b[r]),
        forall|x: int| 0 <= x < 10 ==> b[0][x] != Cell::Locked,
    ensures
        full_count(b) == 1,
        line_bonus(full_count(b)) == 0,
        cleared(b)[0] == b[0],
        forall|r: int| 0 <= r < f ==> cleared(b)[r + 1] == b[r],
        forall|r: int| f < r < 20 ==> cleared(b)[r] == b[r],
        locked_count(cleared(b)) == locked_count(b) - 10,
{
    assert(f >= 1) by {
        if f == 0 {
            assert(b[0][0] == Cell::Locked);
        }
    }
    lemma_full_from_unique(b, 0, f);

    let bu = b.update(f, crate::board::empty_row());
    let bc = collapse_above(bu, f);
    assert(clear_step(b, f) == bc);
    lemma_clear_from_skip_to(b, 0, f);

    // The collapsed board row by row.
    assert(bc[0] == b[0]);
    assert forall|r: int| 1 <= r <= f implies bc[r] == b[r - 1] by {
        assert forall|x: int| 0 <= x < 10 implies bc[r][x] == b[r - 1][x] by {
            assert(bu[r - 1][x] != Cell::Active);
            if r == f {
                assert(bu[r][x] == Cell::Empty);
            } else {
                assert(bu[r][x] == b[r][x]);
            }
        }
        assert(bc[r] =~= b[r - 1]);
    }
    assert forall|r: int| f < r < 20 implies bc[r] == b[r] by {
        assert(bc[r] == bu[r]);
    }

    // Nothing below f is full any more, so the scan stops changing things.
    assert forall|r: int| f + 1 <= r < 20 implies !row_full(#[trigger] bc[r]) by {
        assert(bc[r] == b[r]);
    }
    lemma_clear_from_no_full(bc, f + 1);
    assert(cleared(b) == bc);

    // Count the Locked cells of the collapsed board span by span.
    lemma_row_locked_none(b[0]);
    assert(row_locked(bc[0]) == 0);
    lemma_locked_between_shift(b, bc, 1, f + 1);
    assert(locked_between(bc, 1, f + 1) == locked_between(b, 0, f));
    lemma_locked_between_congruent(bc, b, f + 1, 20);
    lemma_locked_between_split(bc, 0, 1, 20);
    lemma_locked_between_split(bc, 1, f + 1, 20);
    assert(locked_between(bc, 0, 1) == row_locked(bc[0]));
    assert(locked_count(bc) == locked_between(b, 0, f) + locked_between(b, f + 1, 20));

    lemma_locked_between_split(b, 0, f, 20);
    lemma_locked_between_split(b, f, f + 1, 20);
    assert(locked_between(b, f, f + 1) == row_locked(b[f]));
    lemma_row_locked_all(b[f]);
    assert(row_locked(b[f]) == 10);
}

/// Triple-row clear. At the moment a lock fills the one missing cell of row
/// 17 above the already full rows 18 and 19, the board holds exactly three
/// full rows, and the clear is worth 10 * (3 * 3 - 1) = 80 points.
pub proof fn lemma_triple_row_score(b: Seq<Seq<Cell>>)
    requires
        board_wf(b),
        row_full(b[17]),
        row_full(b[18]),
        row_full(b[19]),
        forall|r: int| 0 <= r < 17 ==> !row_full(#[trigger] b[r]),
    ensures
        full_count(b) == 3,
        line_bonus(full_count(b)) == 80,
{
    lemma_full_from_skip(b, 0, 17);
    assert(full_from(b, 20) == 0);
    assert(full_from(b, 19) == 1);
    assert(full_from(b, 18) == 2);
    assert(full_from(b, 17) == 3);
}

/// Gravity progression: one gravity tick moves the active piece down exactly
/// one row — same columns, every row one deeper, score and latch untouched —
/// as long as it can still fall; the tick on which it no longer can is a
/// lock event.
pub proof fn lemma_gravity_tick(pre: State, post: State)
    requires
        gravity_rel(pre, post),
    ensures
        can_descend(pre.board, pre.piece) ==> post.piece == shift_piece(pre.piece, 0, 1)
            && post.score == pre.score && post.over == pre.over,
        !can_descend(pre.board, pre.piece) ==> lock_rel(pre, post),
{
}

/// Line-clear scoring through a whole tick: a gravity tick that locks the
/// piece and thereby leaves exactly one full row adds nothing to the score.
pub proof fn lemma_single_clear_tick(pre: State, post: State, f: int)
    requires
        state_wf(pre),
        !pre.over,
        gravity_rel(pre, post),
        !can_descend(pre.board, pre.piece),
        0 <= f < 20,
        row_full(paint(pre.board, pre.piece, Cell::Locked)[f]),
        forall|r: int|
            0 <= r < 20 && r != f ==> !row_full(
                #[trigger] paint(pre.board, pre.piece, Cell::Locked)[r],
            ),
    ensures
        post.score == pre.score,
{
    let b1 = paint(pre.board, pre.piece, Cell::Locked);
    crate::board::lemma_paint_wf(pre.board, pre.piece, Cell::Locked);
    lemma_full_from_unique(b1, 0, f);
    assert(lock_mid(pre).score == score_after(pre.score, 1));
}

/// Multi-row scoring through a whole tick: a gravity tick that locks the
/// piece and thereby leaves exactly the three bottom rows full is worth
/// 10 * (3 * 3 - 1) = 80 points (provided the counter has room for them).
pub proof fn lemma_triple_clear_tick(pre: State, post: State)
    requires
        state_wf(pre),
        !pre.over,
        pre.score + 80 <= i64::MAX,
        gravity_rel(pre, post),
        !can_descend(pre.board, pre.piece),
        row_full(paint(pre.board, pre.piece, Cell::Locked)[17]),
        row_full(paint(pre.board, pre.piece, Cell::Locked)[18]),
        row_full(paint(pre.board, pre.piece, Cell::Locked)[19]),
        forall|r: int|
            0 <= r < 17 ==> !row_full(#[trigger] paint(pre.board, pre.piece, Cell::Locked)[r]),
    ensures
        post.score == pre.score + 80,
{
    let b1 = paint(pre.board, pre.piece, Cell::Locked);
    crate::board::lemma_paint_wf(pre.board, pre.piece, Cell::Locked);
    lemma_triple_row_score(b1);
    assert(lock_mid(pre).score == score_after(pre.score, 3));
}

/// Game-over determinism: when the cells where the next shape would spawn
/// are still settled after the lock's row clear, that lock event sets the
/// latch, and the board keeps exactly the cells the clear left — the failed
/// spawn modifies nothing.
pub proof fn lemma_blocked_spawn_tick(pre: State, post: State)
    requires
        gravity_rel(pre, post),
        !can_descend(pre.board, pre.piece),
        spawn_blocked(lock_mid(pre).board, pre.next.spawn),
    ensures
        post.over,
        post.board == lock_mid(pre).board,
        post.score == lock_mid(pre).score,
{
}

} // verus!
