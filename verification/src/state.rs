//! The mathematical state of the engine and the transition that each action
//! performs on it.
//!
//! Every public contract of the engine speaks in terms of `State`: the board
//! model, the score, the 4 coordinates of the active piece, the model of the
//! next shape, and the game-over latch. Deterministic actions are spec
//! functions from state to state; the two places where the engine draws a
//! random shape are relations, stating what holds of every possible draw.

use vstd::prelude::*;

use crate::board::{
    active_exactly, board_wf, in_bounds, moved, no_active, occupies, paint, piece_wf, Cell, Coord,
};
use crate::rows::{cleared, full_count};
use crate::shape::{in_catalog, ShapeModel};

verus! {

/// The observable state of the engine.
#[verifier::ext_equal]
pub ghost struct State {
    pub board: Seq<Seq<Cell>>,
    pub score: int,
    pub piece: Seq<Coord>,
    pub next: ShapeModel,
    pub over: bool,
}

/// A well-formed engine state. While the game is running the active piece is
/// 4 distinct in-bounds cells and its cells are exactly the `Active` ones;
/// once the game is over no cell is `Active` any more.
pub open spec fn state_wf(s: State) -> bool {
    &&& board_wf(s.board)
    &&& 0 <= s.score <= i64::MAX
    &&& in_catalog(s.next)
    &&& if s.over {
        no_active(s.board)
    } else {
        piece_wf(s.piece) && active_exactly(s.board, s.piece)
    }
}

/// May every cell of the piece move one column left: nothing at the wall and
/// nothing `Locked` to its left?
pub open spec fn can_move_left(b: Seq<Seq<Cell>>, piece: Seq<Coord>) -> bool {
    forall|i: int|
        0 <= i < 4 ==> (#[trigger] piece[i]).0 >= 1 && b[piece[i].1 as int][piece[i].0 - 1]
            != Cell::Locked
}

pub open spec fn can_move_right(b: Seq<Seq<Cell>>, piece: Seq<Coord>) -> bool {
    forall|i: int|
        0 <= i < 4 ==> (#[trigger] piece[i]).0 + 1 <= 9 && b[piece[i].1 as int][piece[i].0 + 1]
            != Cell::Locked
}

/// May every cell of the piece move one row down: nothing at the floor and
/// nothing `Locked` below it?
pub open spec fn can_descend(b: Seq<Seq<Cell>>, piece: Seq<Coord>) -> bool {
    forall|i: int|
        0 <= i < 4 ==> (#[trigger] piece[i]).1 + 1 <= 19 && b[piece[i].1 + 1][piece[i].0 as int]
            != Cell::Locked
}

pub open spec fn shift_piece(piece: Seq<Coord>, dx: int, dy: int) -> Seq<Coord> {
    Seq::new(piece.len(), |i: int| (((piece[i].0 + dx) as usize), ((piece[i].1 + dy) as usize)))
}

/// The state after a legal one-column or one-row translation.
pub open spec fn shifted_state(s: State, dx: int, dy: int) -> State {
    State {
        board: moved(s.board, s.piece, shift_piece(s.piece, dx, dy)),
        piece: shift_piece(s.piece, dx, dy),
        ..s
    }
}

/// The `Left` action: translate the piece one column left if every target
/// cell is inside the board and not `Locked`; otherwise do nothing.
pub open spec fn left_result(s: State) -> State {
    if can_move_left(s.board, s.piece) {
        shifted_state(s, -1, 0)
    } else {
        s
    }
}

pub open spec fn right_result(s: State) -> State {
    if can_move_right(s.board, s.piece) {
        shifted_state(s, 1, 0)
    } else {
        s
    }
}

/// Does the piece fill a 2 x 2 block (the square tetromino, detected
/// structurally)?
pub open spec fn is_square(piece: Seq<Coord>) -> bool {
    exists|x: int, y: int|
        #[trigger] occupies(piece, x, y) && occupies(piece, x + 1, y) && occupies(piece, x, y + 1)
            && occupies(piece, x + 1, y + 1)
}

/// The four cells of the piece rotated 90 degrees clockwise about its second
/// cell, in integer coordinates: the offset (dx, dy) from the pivot becomes
/// (dy, -dx).
pub open spec fn rotated(piece: Seq<Coord>) -> Seq<(int, int)> {
    let cx = piece[1].0 as int;
    let cy = piece[1].1 as int;
    Seq::new(4, |i: int| (cx + piece[i].1 - cy, cx + cy - piece[i].0))
}

/// Does the rotated layout stay on the board and clear of `Locked` cells?
/// A candidate cell that leaves the grid on any side rejects the rotation.
pub open spec fn rotation_fits(b: Seq<Seq<Cell>>, piece: Seq<Coord>) -> bool {
    forall|i: int|
        0 <= i < 4 ==> {
            let x = (#[trigger] rotated(piece)[i]).0;
            let y = rotated(piece)[i].1;
            0 <= x < 10 && 0 <= y < 20 && b[y][x] != Cell::Locked
        }
}

/// Does every rotated cell stay at or past column 0 and row 0? A piece whose
/// rotation would leave the grid on the left or the top cannot rotate.
pub open spec fn rotation_nonneg(piece: Seq<Coord>) -> bool {
    forall|i: int|
        0 <= i < 4 ==> (#[trigger] rotated(piece)[i]).0 >= 0 && rotated(piece)[i].1 >= 0
}

/// The rotated piece as board coordinates (meaningful when the rotation
/// fits).
pub open spec fn rotated_piece(piece: Seq<Coord>) -> Seq<Coord> {
    Seq::new(4, |i: int| ((rotated(piece)[i].0 as usize), (rotated(piece)[i].1 as usize)))
}

/// The `Rotate` action: the square piece never rotates; any other piece
/// rotates about its second cell if the rotated layout fits, and otherwise
/// the state is unchanged.
pub open spec fn rotate_result(s: State) -> State {
    if is_square(s.piece) {
        s
    } else if rotation_fits(s.board, s.piece) {
        State {
            board: moved(s.board, s.piece, rotated_piece(s.piece)),
            piece: rotated_piece(s.piece),
            ..s
        }
    } else {
        s
    }
}

/// A rotation that fits yields a well-formed piece: rotation is a rigid
/// motion of the plane, so distinct cells stay distinct.
pub proof fn lemma_rotated_piece_wf(b: Seq<Seq<Cell>>, piece: Seq<Coord>)
    requires
        piece_wf(piece),
        rotation_fits(b, piece),
    ensures
        piece_wf(rotated_piece(piece)),
{
    assert forall|i: int| 0 <= i < 4 implies in_bounds(#[trigger] rotated_piece(piece)[i]) by {
        assert(0 <= rotated(piece)[i].0 < 10);
        assert(0 <= rotated(piece)[i].1 < 20);
    }
    assert forall|i: int, j: int| 0 <= i < j < 4 implies rotated_piece(piece)[i] != rotated_piece(
        piece,
    )[j] by {
        assert(piece[i] != piece[j]);
        assert(0 <= rotated(piece)[i].0 && 0 <= rotated(piece)[i].1);
        assert(0 <= rotated(piece)[j].0 && 0 <= rotated(piece)[j].1);
        if rotated_piece(piece)[i] == rotated_piece(piece)[j] {
            assert(rotated(piece)[i].0 == rotated(piece)[j].0);
            assert(rotated(piece)[i].1 == rotated(piece)[j].1);
            assert(piece[i].1 == piece[j].1);
            assert(piece[i].0 == piece[j].0);
        }
    }
}

/// Two boards with the same `Locked` cells agree on where a piece can fall.
pub proof fn lemma_can_descend_same_locked(
    b1: Seq<Seq<Cell>>,
    b2: Seq<Seq<Cell>>,
    piece: Seq<Coord>,
)
    requires
        piece_wf(piece),
        forall|x: int, y: int|
            0 <= x < 10 && 0 <= y < 20 ==> (((#[trigger] b1[y][x]) == Cell::Locked) <==> (b2[y][x]
                == Cell::Locked)),
    ensures
        can_descend(b1, piece) == can_descend(b2, piece),
{
    if can_descend(b1, piece) {
        assert forall|i: int|
            0 <= i < 4 implies (#[trigger] piece[i]).1 + 1 <= 19 && b2[piece[i].1 + 1][piece[i].0 as int]
            != Cell::Locked by {
            assert(b1[piece[i].1 + 1][piece[i].0 as int] != Cell::Locked);
            assert(in_bounds(piece[i]));
        }
    }
    if can_descend(b2, piece) {
        assert forall|i: int|
            0 <= i < 4 implies (#[trigger] piece[i]).1 + 1 <= 19 && b1[piece[i].1 + 1][piece[i].0 as int]
            != Cell::Locked by {
            assert(b2[piece[i].1 + 1][piece[i].0 as int] != Cell::Locked);
            assert(in_bounds(piece[i]));
        }
    }
}

/// The score bonus for clearing `n` rows at once: 10 * (n^2 - 1) for n >= 1,
/// nothing for n = 0. One row on its own is worth 0 points.
pub open spec fn line_bonus(n: int) -> int {
    if n == 0 {
        0
    } else {
        10 * (n * n - 1)
    }
}

/// The score after a lock that cleared `n` rows; an addition past `i64::MAX`
/// stops there, keeping the counter monotone.
pub open spec fn score_after(s: int, n: int) -> int {
    if s + line_bonus(n) <= i64::MAX {
        s + line_bonus(n)
    } else {
        i64::MAX as int
    }
}

/// Does any spawn cell of the incoming shape already hold a `Locked` cell?
pub open spec fn spawn_blocked(b: Seq<Seq<Cell>>, cells: Seq<Coord>) -> bool {
    exists|i: int|
        0 <= i < 4 && b[(#[trigger] cells[i]).1 as int][cells[i].0 as int] == Cell::Locked
}

/// The spawn step at the end of a lock: if the next shape's spawn cells are
/// blocked the game-over latch trips and the board keeps its cells; otherwise
/// the spawn cells become the new active piece and a fresh catalog shape is
/// drawn into the next-shape slot.
pub open spec fn spawn_rel(pre: State, post: State) -> bool {
    if spawn_blocked(pre.board, pre.next.spawn) {
        post == State { over: true, ..pre }
    } else {
        exists|m: ShapeModel|
            in_catalog(m) && post == State {
                board: paint(pre.board, pre.next.spawn, Cell::Active),
                piece: pre.next.spawn,
                next: m,
                ..pre
            }
    }
}

/// The state in the middle of a lock event: the piece's cells settle as
/// `Locked`, full rows are cleared, and the score takes the bonus for the
/// number of rows that were full at that moment.
pub open spec fn lock_mid(pre: State) -> State {
    let locked_board = paint(pre.board, pre.piece, Cell::Locked);
    State {
        board: cleared(locked_board),
        score: score_after(pre.score, full_count(locked_board)),
        ..pre
    }
}

/// A whole lock event: settle, clear, score, then spawn.
pub open spec fn lock_rel(pre: State, post: State) -> bool {
    spawn_rel(lock_mid(pre), post)
}

/// A gravity tick: the piece falls one row if it can, and otherwise locks.
pub open spec fn gravity_rel(pre: State, post: State) -> bool {
    if can_descend(pre.board, pre.piece) {
        post == shifted_state(pre, 0, 1)
    } else {
        lock_rel(pre, post)
    }
}

/// The piece translated straight down by `d` rows.
pub open spec fn dropped_state(s: State, d: int) -> State {
    State {
        board: moved(s.board, s.piece, shift_piece(s.piece, 0, d)),
        piece: shift_piece(s.piece, 0, d),
        ..s
    }
}

/// A hard drop: the piece falls the unique distance `d` after which it can no
/// longer descend, while every earlier position still could. The piece does
/// not lock; the next gravity tick does that.
pub open spec fn drop_rel(pre: State, post: State) -> bool {
    exists|d: int|
        {
            &&& 0 <= d
            &&& post == #[trigger] dropped_state(pre, d)
            &&& !can_descend(pre.board, shift_piece(pre.piece, 0, d))
            &&& forall|e: int| 0 <= e < d ==> can_descend(pre.board, shift_piece(pre.piece, 0, e))
        }
}

} // verus!
