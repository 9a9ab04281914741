//! The game engine: a pure, synchronous reducer over one player action per
//! tick.
//!
//! `new` spawns a random piece on an empty board, `next` consumes one action,
//! `view` projects a render-ready snapshot and `is_game_over` reads the
//! one-way latch. Once the latch is set every action is a no-op, so no
//! transition ever leaves the terminal state.

use vstd::prelude::*;

use crate::board::{
    active_exactly, board_view, coords_contain, empty_board, in_bounds, lemma_board_view_wf,
    lemma_lock_no_active, lemma_moved_active, lemma_moved_compose, lemma_moved_locked,
    lemma_moved_self, lemma_occupies_intro, lemma_paint_wf, lemma_spawn_active, moved, no_active,
    occupies, paint, paint_cells, piece_wf, set_cell, Cell, Coord, Grid,
};
use crate::rng::{draw_below, fresh_rng};
use crate::rows::{cleared, clear_full_rows, full_count, lemma_clear_from_active};
use crate::shape::{
    catalog_models, catalog_wf, in_catalog, lemma_in_catalog_spawn_wf, make_catalog, Shape,
};
use crate::state::{
    can_descend, can_move_left, can_move_right, dropped_state, drop_rel, gravity_rel, is_square,
    left_result, lemma_can_descend_same_locked, lemma_rotated_piece_wf, lock_mid, lock_rel,
    right_result, rotate_result, rotated, rotated_piece, rotation_fits, rotation_nonneg,
    score_after, shifted_state, shift_piece, spawn_blocked, spawn_rel, state_wf, State,
};

verus! {

broadcast use vstd::array::group_array_axioms;

/// A player action: move left, move right, rotate, hard-drop, or let gravity
/// act for one tick.
pub enum UserAction {
    Left,
    Right,
    Rotate,
    Down,
    Idle,
}

/// What one action does to the observable state. The game-over state absorbs
/// every action.
pub open spec fn next_rel(pre: State, post: State, action: UserAction) -> bool {
    if pre.over {
        post == pre
    } else {
        match action {
            UserAction::Left => post == left_result(pre),
            UserAction::Right => post == right_result(pre),
            UserAction::Rotate => post == rotate_result(pre),
            UserAction::Down => drop_rel(pre, post),
            UserAction::Idle => gravity_rel(pre, post),
        }
    }
}

/// The engine: board, score, active piece, shape catalog, next-shape slot,
/// random source and the game-over latch.
#[derive(Debug)]
pub struct Tetris {
    main_view: Grid,
    score: i64,
    next_shape: Shape,
    current_shape_coords: [Coord; 4],
    possible_shapes: [Shape; 7],
    rng: rand::rngs::ThreadRng,
    is_game_over: bool,
}

impl Tetris {
    /// The observable state of the engine.
    pub closed spec fn state(self) -> State {
        State {
            board: board_view(self.main_view),
            score: self.score as int,
            piece: self.current_shape_coords@,
            next: self.next_shape.model(),
            over: self.is_game_over,
        }
    }

    /// The engine's invariant: a well-formed state and the canonical catalog.
    pub closed spec fn inv(self) -> bool {
        &&& catalog_wf(self.possible_shapes)
        &&& state_wf(self.state())
    }

    /// Start a game: an empty board, a random catalog shape spawned as the
    /// active piece, a second random draw in the next-shape slot, score 0.
    pub fn new() -> (t: Tetris)
        ensures
            t.inv(),
            !t.state().over,
            t.state().score == 0,
            exists|k: int| 0 <= k < 7 && t.state().piece == (#[trigger] catalog_models()[k]).spawn,
            t.state().board == paint(empty_board(), t.state().piece, Cell::Active),
    {
        let possible_shapes = make_catalog();
        let mut main_view: Grid = [[Cell::Empty; 10]; 20];
        proof {
            assert(board_view(main_view) =~~= empty_board());
        }
        let mut rng = fresh_rng();
        let current_shape_index = draw_below(&mut rng, 7);
        let current_shape = possible_shapes[current_shape_index];
        let current_shape_coords = current_shape.position;
        proof {
            assert(current_shape.model() == catalog_models()[current_shape_index as int]);
            crate::shape::lemma_catalog_spawns_wf();
            assert(piece_wf(current_shape_coords@));
        }
        paint_cells(&mut main_view, &current_shape_coords, Cell::Active);
        let next_shape_index = draw_below(&mut rng, 7);
        let next_shape = possible_shapes[next_shape_index];
        let t = Tetris {
            main_view,
            score: 0,
            next_shape,
            current_shape_coords,
            possible_shapes,
            rng,
            is_game_over: false,
        };
        proof {
            assert(t.state().board == paint(empty_board(), current_shape_coords@, Cell::Active));
            lemma_spawn_active(empty_board(), current_shape_coords@);
            assert(t.next_shape.model() == catalog_models()[next_shape_index as int]);
            assert(in_catalog(t.state().next));
            lemma_paint_wf(empty_board(), current_shape_coords@, Cell::Active);
        }
        t
    }

    /// A render-ready snapshot: the board as occupied/unoccupied cells, the
    /// score, and the 4 x 4 pattern of the next shape.
    pub fn view(&self) -> (r: ([[bool; 10]; 20], i64, [[bool; 4]; 4]))
        ensures
            forall|x: int, y: int|
                0 <= x < 10 && 0 <= y < 20 ==> (#[trigger] r.0[y][x]) == (self.state().board[y][x]
                    != Cell::Empty),
            r.1 == self.state().score,
            forall|i: int, j: int|
                0 <= i < 4 && 0 <= j < 4 ==> (#[trigger] r.2[i][j]) == (self.state().next.pattern[i][j]
                    != 0),
    {
        let mut grid: [[bool; 10]; 20] = [[false; 10]; 20];
        let mut y: usize = 0;
        #[verifier::loop_isolation(false)]
        while y < 20
            invariant
                y <= 20,
                forall|yy: int, xx: int|
                    0 <= yy < y && 0 <= xx < 10 ==> (#[trigger] grid[yy][xx]) == (
                    self.main_view[yy][xx] != Cell::Empty),
            decreases 20 - y,
        {
            let mut x: usize = 0;
            while x < 10
                invariant
                    y < 20,
                    x <= 10,
                    forall|yy: int, xx: int|
                        0 <= yy < y && 0 <= xx < 10 ==> (#[trigger] grid[yy][xx]) == (
                        self.main_view[yy][xx] != Cell::Empty),
                    forall|xx: int|
                        0 <= xx < x ==> (#[trigger] grid[y as int][xx]) == (
                        self.main_view[y as int][xx] != Cell::Empty),
                decreases 10 - x,
            {
                grid[y][x] = self.main_view[y][x] != Cell::Empty;
                x = x + 1;
            }
            y = y + 1;
        }
        let mut preview: [[bool; 4]; 4] = [[false; 4]; 4];
        let mut i: usize = 0;
        #[verifier::loop_isolation(false)]
        while i < 4
            invariant
                i <= 4,
                forall|ii: int, jj: int|
                    0 <= ii < i && 0 <= jj < 4 ==> (#[trigger] preview[ii][jj]) == (
                    self.next_shape.shape[ii][jj] != 0),
            decreases 4 - i,
        {
            let mut j: usize = 0;
            while j < 4
                invariant
                    i < 4,
                    j <= 4,
                    forall|ii: int, jj: int|
                        0 <= ii < i && 0 <= jj < 4 ==> (#[trigger] preview[ii][jj]) == (
                        self.next_shape.shape[ii][jj] != 0),
                    forall|jj: int|
                        0 <= jj < j ==> (#[trigger] preview[i as int][jj]) == (
                        self.next_shape.shape[i as int][jj] != 0),
                decreases 4 - j,
            {
                preview[i][j] = self.next_shape.shape[i][j] != 0;
                j = j + 1;
            }
            i = i + 1;
        }
        proof {
            assert forall|x: int, y: int| 0 <= x < 10 && 0 <= y < 20 implies (#[trigger] grid[y][x])
                == (self.state().board[y][x] != Cell::Empty) by {
                assert(self.state().board[y][x] == self.main_view[y][x]);
            }
            assert forall|i: int, j: int| 0 <= i < 4 && 0 <= j < 4 implies (#[trigger] preview[i][j])
                == (self.state().next.pattern[i][j] != 0) by {
                assert(self.state().next.pattern[i][j] == self.next_shape.shape[i][j]);
            }
        }
        (grid, self.score, preview)
    }

    /// Has the game ended? Pure accessor of the one-way latch.
    pub fn is_game_over(&self) -> (r: bool)
        ensures
            r == self.state().over,
    {
        self.is_game_over
    }

    /// Mark one board cell permanently settled, so that callers (tests above
    /// all) can build a stack without playing it out. A cell outside the
    /// board or belonging to the active piece is left alone.
    pub fn set_locked(&mut self, x: usize, y: usize)
        requires
            old(self).inv(),
        ensures
            final (self).inv(),
            final (self).state() == set_locked_result(old(self).state(), x as int, y as int),
    {
        if x < 10 && y < 20 {
            let c = self.main_view[y][x];
            if c != Cell::Active {
                set_cell(&mut self.main_view, x, y, Cell::Locked);
                proof {
                    let pre = old(self).state();
                    let post = self.state();
                    assert(post.board == pre.board.update(
                        y as int,
                        pre.board[y as int].update(x as int, Cell::Locked),
                    ));
                    assert forall|xx: int, yy: int| 0 <= xx < 10 && 0 <= yy < 20 implies ((
                    #[trigger] post.board[yy][xx]) == Cell::Active <==> pre.board[yy][xx]
                        == Cell::Active) by {}
                    if !pre.over {
                        assert(active_exactly(post.board, post.piece));
                    }
                    lemma_board_view_wf(self.main_view);
                }
            }
        }
    }

    /// Repaint the active piece at the given cells and replace the
    /// active-position set: the old cells are emptied, the new cells marked.
    fn apply_move(&mut self, new_coords: [Coord; 4])
        requires
            old(self).inv(),
            !old(self).state().over,
            piece_wf(new_coords@),
        ensures
            final (self).inv(),
            final (self).state() == (State {
                board: moved(old(self).state().board, old(self).state().piece, new_coords@),
                piece: new_coords@,
                ..old(self).state()
            }),
    {
        let coords = self.current_shape_coords;
        paint_cells(&mut self.main_view, &coords, Cell::Empty);
        paint_cells(&mut self.main_view, &new_coords, Cell::Active);
        self.current_shape_coords = new_coords;
        proof {
            lemma_moved_active(old(self).state().board, coords@, new_coords@);
            lemma_board_view_wf(self.main_view);
        }
    }

    /// Translate the active piece one column left; a move that would leave
    /// the board or enter a `Locked` cell is a silent no-op.
    fn move_left(&mut self)
        requires
            old(self).inv(),
            !old(self).state().over,
        ensures
            final (self).inv(),
            final (self).state() == left_result(old(self).state()),
    {
        let ghost pre = old(self).state();
        let coords = self.current_shape_coords;
        let mut i: usize = 0;
        #[verifier::loop_isolation(false)]
        while i < 4
            invariant
                i <= 4,
                forall|k: int|
                    0 <= k < i ==> (#[trigger] coords@[k]).0 >= 1 && pre.board[coords@[k].1 as int][coords@[k].0
                        - 1] != Cell::Locked,
            decreases 4 - i,
        {
            let (x, y) = coords[i];
            if x == 0 || self.main_view[y][x - 1] == Cell::Locked {
                proof {
                    assert(!can_move_left(pre.board, pre.piece));
                }
                return ;
            }
            i = i + 1;
        }
        assert(can_move_left(pre.board, pre.piece));
        let new_coords: [Coord; 4] = [
            (coords[0].0 - 1, coords[0].1),
            (coords[1].0 - 1, coords[1].1),
            (coords[2].0 - 1, coords[2].1),
            (coords[3].0 - 1, coords[3].1),
        ];
        proof {
            assert forall|k: int| 0 <= k < 4 implies new_coords@[k] == shift_piece(pre.piece, -1, 0)[k] by {
                if k == 0 {
                } else if k == 1 {
                } else if k == 2 {
                } else {
                    assert(k == 3);
                }
            }
            assert(new_coords@ =~= shift_piece(pre.piece, -1, 0));
            assert forall|a: int, c: int| 0 <= a < c < 4 implies new_coords@[a] != new_coords@[c] by {
                assert(pre.piece[a] != pre.piece[c]);
            }
        }
        self.apply_move(new_coords);
    }

    /// Translate the active piece one column right; a move that would leave
    /// the board or enter a `Locked` cell is a silent no-op.
    fn move_right(&mut self)
        requires
            old(self).inv(),
            !old(self).state().over,
        ensures
            final (self).inv(),
            final (self).state() == right_result(old(self).state()),
    {
        let ghost pre = old(self).state();
        let coords = self.current_shape_coords;
        let mut i: usize = 0;
        #[verifier::loop_isolation(false)]
        while i < 4
            invariant
                i <= 4,
                forall|k: int|
                    0 <= k < i ==> (#[trigger] coords@[k]).0 + 1 <= 9 && pre.board[coords@[k].1 as int][coords@[k].0
                        + 1] != Cell::Locked,
            decreases 4 - i,
        {
            let (x, y) = coords[i];
            if x == 9 || self.main_view[y][x + 1] == Cell::Locked {
                proof {
                    assert(!can_move_right(pre.board, pre.piece));
                }
                return ;
            }
            i = i + 1;
        }
        assert(can_move_right(pre.board, pre.piece));
        let new_coords: [Coord; 4] = [
            (coords[0].0 + 1, coords[0].1),
            (coords[1].0 + 1, coords[1].1),
            (coords[2].0 + 1, coords[2].1),
            (coords[3].0 + 1, coords[3].1),
        ];
        proof {
            assert forall|k: int| 0 <= k < 4 implies new_coords@[k] == shift_piece(pre.piece, 1, 0)[k] by {
                if k == 0 {
                } else if k == 1 {
                } else if k == 2 {
                } else {
                    assert(k == 3);
                }
            }
            assert(new_coords@ =~= shift_piece(pre.piece, 1, 0));
            assert forall|a: int, c: int| 0 <= a < c < 4 implies new_coords@[a] != new_coords@[c] by {
                assert(pre.piece[a] != pre.piece[c]);
            }
        }
        self.apply_move(new_coords);
    }

    /// The piece rotated 90 degrees clockwise about its second cell, in pure
    /// integer arithmetic: the offset (dx, dy) from the pivot becomes
    /// (dy, -dx). The square piece comes back unchanged; `None` means a
    /// rotated cell would leave the grid past column 0 or row 0, which
    /// rejects the rotation.
    fn spin_90_degree(coords: [Coord; 4]) -> (r: Option<[Coord; 4]>)
        requires
            piece_wf(coords@),
        ensures
            is_square(coords@) ==> r == Some(coords),
            !is_square(coords@) && rotation_nonneg(coords@) ==> (r matches Some(nc) && nc@
                == rotated_piece(coords@)),
            !is_square(coords@) && !rotation_nonneg(coords@) ==> r is None,
    {
        if is_square_exec(&coords) {
            return Some(coords);
        }
        let cx = coords[1].0;
        let cy = coords[1].1;
        let mut out: [Coord; 4] = [(0, 0); 4];
        let mut i: usize = 0;
        #[verifier::loop_isolation(false)]
        while i < 4
            invariant
                i <= 4,
                cx == coords@[1].0,
                cy == coords@[1].1,
                forall|k: int|
                    0 <= k < i ==> {
                        &&& (#[trigger] rotated(coords@)[k]).0 >= 0
                        &&& rotated(coords@)[k].1 >= 0
                        &&& out@[k].0 == rotated(coords@)[k].0
                        &&& out@[k].1 == rotated(coords@)[k].1
                    },
            decreases 4 - i,
        {
            let nx: i64 = cx as i64 + coords[i].1 as i64 - cy as i64;
            let ny: i64 = cx as i64 + cy as i64 - coords[i].0 as i64;
            proof {
                assert(in_bounds(coords@[i as int]));
                assert(nx == rotated(coords@)[i as int].0);
                assert(ny == rotated(coords@)[i as int].1);
            }
            if nx < 0 || ny < 0 {
                proof {
                    assert(!rotation_nonneg(coords@));
                }
                return None;
            }
            out[i] = (nx as usize, ny as usize);
            i = i + 1;
        }
        proof {
            assert(rotation_nonneg(coords@));
            assert(out@ =~= rotated_piece(coords@));
        }
        Some(out)
    }

    /// Rotate the active piece 90 degrees clockwise about its second cell.
    /// The square piece never rotates; a rotation whose cells would leave the
    /// board or land on a `Locked` cell is a silent no-op. After the game is
    /// over the call does nothing.
    pub fn rotate(&mut self)
        requires
            old(self).inv(),
        ensures
            final (self).inv(),
            next_rel(old(self).state(), final (self).state(), UserAction::Rotate),
    {
        if self.is_game_over {
            return ;
        }
        let ghost pre = old(self).state();
        let new_coords_opt = Self::spin_90_degree(self.current_shape_coords);
        let new_coords = match new_coords_opt {
            Some(nc) => nc,
            None => {
                proof {
                    assert(!rotation_fits(pre.board, pre.piece));
                }
                return ;
            },
        };
        let mut i: usize = 0;
        #[verifier::loop_isolation(false)]
        while i < 4
            invariant
                i <= 4,
                forall|k: int|
                    0 <= k < i ==> {
                        &&& (#[trigger] new_coords@[k]).0 <= 9
                        &&& new_coords@[k].1 <= 19
                        &&& pre.board[new_coords@[k].1 as int][new_coords@[k].0 as int]
                            != Cell::Locked
                    },
            decreases 4 - i,
        {
            let (x, y) = new_coords[i];
            if x > 9 || y > 19 || self.main_view[y][x] == Cell::Locked {
                proof {
                    if is_square(pre.piece) {
                        assert(new_coords@ == pre.piece);
                        assert(in_bounds(pre.piece[i as int]));
                        assert(occupies(pre.piece, x as int, y as int)) by {
                            lemma_occupies_intro(pre.piece, i as int, x as int, y as int);
                        }
                        assert(pre.board[y as int][x as int] == Cell::Active);
                        assert(false);
                    } else {
                        assert(rotated(pre.piece)[i as int].0 == new_coords@[i as int].0);
                        assert(rotated(pre.piece)[i as int].1 == new_coords@[i as int].1);
                        assert(!rotation_fits(pre.board, pre.piece));
                    }
                }
                return ;
            }
            i = i + 1;
        }
        proof {
            if is_square(pre.piece) {
            } else {
                assert forall|k: int| 0 <= k < 4 implies {
                    let x = (#[trigger] rotated(pre.piece)[k]).0;
                    let y = rotated(pre.piece)[k].1;
                    0 <= x < 10 && 0 <= y < 20 && pre.board[y][x] != Cell::Locked
                } by {
                    assert(rotated(pre.piece)[k].0 == new_coords@[k].0);
                    assert(rotated(pre.piece)[k].1 == new_coords@[k].1);
                }
                assert(rotation_fits(pre.board, pre.piece));
                lemma_rotated_piece_wf(pre.board, pre.piece);
            }
        }
        self.apply_move(new_coords);
        proof {
            if is_square(pre.piece) {
                lemma_moved_self(pre.board, pre.piece);
                assert(self.state() =~= pre);
            } else {
                assert(self.state() =~= rotate_result(pre));
            }
        }
    }

    /// May the active piece fall one more row: nothing at the floor and
    /// nothing `Locked` below any of its cells?
    fn can_fall(&self) -> (r: bool)
        requires
            piece_wf(self.state().piece),
        ensures
            r == can_descend(self.state().board, self.state().piece),
    {
        let coords = self.current_shape_coords;
        let mut i: usize = 0;
        #[verifier::loop_isolation(false)]
        while i < 4
            invariant
                i <= 4,
                forall|k: int|
                    0 <= k < i ==> (#[trigger] coords@[k]).1 + 1 <= 19
                        && self.state().board[coords@[k].1 + 1][coords@[k].0 as int]
                        != Cell::Locked,
            decreases 4 - i,
        {
            let (x, y) = coords[i];
            if y + 1 > 19 || self.main_view[y + 1][x] == Cell::Locked {
                proof {
                    assert(!can_descend(self.state().board, self.state().piece));
                }
                return false;
            }
            i = i + 1;
        }
        true
    }

    /// Clear every full row (all 10 cells `Locked`), compact the stack
    /// downward, and return how many rows were cleared. Everything but the
    /// board is left alone.
    pub fn check_full_rows(&mut self) -> (r: i64)
        ensures
            r == full_count(old(self).state().board),
            0 <= r <= 20,
            final (self).state() == (State {
                board: cleared(old(self).state().board),
                ..old(self).state()
            }),
            old(self).inv() ==> final (self).inv(),
    {
        let r = clear_full_rows(&mut self.main_view);
        proof {
            let pre = old(self).state();
            let post = self.state();
            assert(post =~= (State { board: cleared(pre.board), ..pre }));
            lemma_board_view_wf(old(self).main_view);
            lemma_clear_from_active(pre.board, 0);
            if old(self).inv() {
                if pre.over {
                    assert forall|x: int, y: int| 0 <= x < 10 && 0 <= y < 20 implies (
                    #[trigger] post.board[y][x]) != Cell::Active by {
                        assert(pre.board[y][x] != Cell::Active);
                    }
                } else {
                    assert forall|x: int, y: int|
                        0 <= x < 10 && 0 <= y < 20 implies ((#[trigger] post.board[y][x])
                        == Cell::Active <==> occupies(post.piece, x, y)) by {
                        assert((pre.board[y][x] == Cell::Active) <==> occupies(pre.piece, x, y));
                    }
                }
            }
        }
        r
    }

    /// Add the bonus for the rows one lock cleared: nothing for no rows,
    /// otherwise 10 * (n^2 - 1) points, so a single row on its own is worth
    /// 0. The counter stops at `i64::MAX` rather than overflow.
    fn update_score(&mut self, full_rows: i64)
        requires
            0 <= full_rows <= 20,
            old(self).score >= 0,
        ensures
            final (self).score == score_after(old(self).score as int, full_rows as int),
            final (self).score >= 0,
            final (self).main_view == old(self).main_view,
            final (self).next_shape == old(self).next_shape,
            final (self).current_shape_coords == old(self).current_shape_coords,
            final (self).possible_shapes == old(self).possible_shapes,
            final (self).is_game_over == old(self).is_game_over,
    {
        if full_rows == 0 {
            return ;
        }
        proof {
            assert(1 <= full_rows * full_rows <= 400) by (nonlinear_arith)
                requires
                    1 <= full_rows <= 20,
            ;
        }
        let bonus: i64 = 10 * (full_rows * full_rows - 1);
        if self.score <= i64::MAX - bonus {
            self.score = self.score + bonus;
        } else {
            self.score = i64::MAX;
        }
    }

    /// Spawn the shape waiting in the next-shape slot. If any of its spawn
    /// cells is already `Locked` the game-over latch trips and the board is
    /// left untouched; otherwise the spawn cells become the new active piece
    /// and a fresh random catalog shape fills the slot.
    fn update_next_shape(&mut self)
        requires
            !old(self).is_game_over,
            old(self).score >= 0,
            catalog_wf(old(self).possible_shapes),
            in_catalog(old(self).next_shape.model()),
            no_active(old(self).state().board),
        ensures
            final (self).inv(),
            spawn_rel(old(self).state(), final (self).state()),
    {
        let ghost pre = old(self).state();
        proof {
            lemma_in_catalog_spawn_wf(pre.next);
            lemma_board_view_wf(old(self).main_view);
        }
        let pos = self.next_shape.position;
        let mut i: usize = 0;
        #[verifier::loop_isolation(false)]
        while i < 4
            invariant
                i <= 4,
                *self == *old(self),
                forall|k: int|
                    0 <= k < i ==> pre.board[(#[trigger] pos@[k]).1 as int][pos@[k].0 as int]
                        != Cell::Locked,
            decreases 4 - i,
        {
            let (x, y) = pos[i];
            proof {
                assert(in_bounds(pos@[i as int]));
                assert(pre.board[y as int][x as int] == self.main_view[y as int]@[x as int]);
            }
            if self.main_view[y][x] == Cell::Locked {
                self.is_game_over = true;
                proof {
                    assert(spawn_blocked(pre.board, pre.next.spawn));
                    assert(self.state() =~= (State { over: true, ..pre }));
                }
                return ;
            }
            i = i + 1;
        }
        proof {
            assert(!spawn_blocked(pre.board, pre.next.spawn)) by {
                if spawn_blocked(pre.board, pre.next.spawn) {
                    let k = choose|k: int|
                        0 <= k < 4 && pre.board[(#[trigger] pre.next.spawn[k]).1 as int][pre.next.spawn[k].0 as int]
                            == Cell::Locked;
                    assert(pre.board[pos@[k].1 as int][pos@[k].0 as int] == Cell::Locked);
                }
            }
        }
        paint_cells(&mut self.main_view, &pos, Cell::Active);
        self.current_shape_coords = pos;
        let idx = draw_below(&mut self.rng, 7);
        self.next_shape = self.possible_shapes[idx];
        proof {
            let post = self.state();
            let m = self.next_shape.model();
            assert(self.next_shape == old(self).possible_shapes[idx as int]);
            assert(old(self).possible_shapes[idx as int].model() == catalog_models()[idx as int]);
            assert(in_catalog(m));
            assert(post =~= (State {
                board: paint(pre.board, pre.next.spawn, Cell::Active),
                piece: pre.next.spawn,
                next: m,
                ..pre
            }));
            lemma_spawn_active(pre.board, pre.next.spawn);
            lemma_paint_wf(pre.board, pre.next.spawn, Cell::Active);
            lemma_board_view_wf(self.main_view);
        }
    }

    /// One gravity tick: the piece falls one row if it can; otherwise it
    /// locks where it rests, full rows are cleared and scored, and the next
    /// shape spawns (or the game ends on a blocked spawn).
    fn free_down(&mut self)
        requires
            old(self).inv(),
            !old(self).state().over,
        ensures
            final (self).inv(),
            gravity_rel(old(self).state(), final (self).state()),
    {
        let ghost pre = old(self).state();
        if self.can_fall() {
            let coords = self.current_shape_coords;
            proof {
                assert forall|k: int| 0 <= k < 4 implies (#[trigger] coords@[k]).1 + 1 <= 19 by {
                    assert(coords@[k].1 + 1 <= 19 && pre.board[coords@[k].1 + 1][coords@[k].0 as int]
                        != Cell::Locked);
                }
            }
            let new_coords: [Coord; 4] = [
                (coords[0].0, coords[0].1 + 1),
                (coords[1].0, coords[1].1 + 1),
                (coords[2].0, coords[2].1 + 1),
                (coords[3].0, coords[3].1 + 1),
            ];
            proof {
                assert forall|k: int| 0 <= k < 4 implies new_coords@[k] == shift_piece(
                    pre.piece,
                    0,
                    1,
                )[k] by {
                    if k == 0 {
                    } else if k == 1 {
                    } else if k == 2 {
                    } else {
                        assert(k == 3);
                    }
                }
                assert(new_coords@ =~= shift_piece(pre.piece, 0, 1));
                assert forall|a: int, c: int| 0 <= a < c < 4 implies new_coords@[a]
                    != new_coords@[c] by {
                    assert(pre.piece[a] != pre.piece[c]);
                }
            }
            self.apply_move(new_coords);
            proof {
                assert(self.state() =~= shifted_state(pre, 0, 1));
            }
        } else {
            let coords = self.current_shape_coords;
            paint_cells(&mut self.main_view, &coords, Cell::Locked);
            let ghost locked_board = paint(pre.board, pre.piece, Cell::Locked);
            proof {
                lemma_lock_no_active(pre.board, pre.piece);
                lemma_paint_wf(pre.board, pre.piece, Cell::Locked);
            }
            let full_rows = clear_full_rows(&mut self.main_view);
            proof {
                lemma_clear_from_active(locked_board, 0);
                assert forall|x: int, y: int|
                    0 <= x < 10 && 0 <= y < 20 implies (#[trigger] board_view(
                    self.main_view,
                )[y][x]) != Cell::Active by {
                    assert(locked_board[y][x] != Cell::Active);
                }
            }
            self.update_score(full_rows);
            proof {
                assert(self.state() =~= lock_mid(pre));
                assert(no_active(self.state().board));
            }
            self.update_next_shape();
            proof {
                assert(spawn_rel(lock_mid(pre), self.state()));
                assert(lock_rel(pre, self.state()));
            }
        }
    }
    /// Hard drop: the active piece falls straight to its resting position in
    /// one call. It does not lock there; the next gravity tick does. After
    /// the game is over the call does nothing.
    pub fn quick_down(&mut self)
        requires
            old(self).inv(),
        ensures
            final (self).inv(),
            next_rel(old(self).state(), final (self).state(), UserAction::Down),
    {
        if self.is_game_over {
            return ;
        }
        let ghost pre = old(self).state();
        let ghost mut d: int = 0;
        proof {
            lemma_moved_self(pre.board, pre.piece);
        }
        #[verifier::loop_isolation(false)]
        while self.can_fall()
            invariant
                self.inv(),
                !self.state().over,
                0 <= d,
                forall|k: int|
                    0 <= k < 4 ==> (#[trigger] self.state().piece[k]).0 == pre.piece[k].0
                        && self.state().piece[k].1 == pre.piece[k].1 + d,
                self.state().board == moved(pre.board, pre.piece, self.state().piece),
                self.state().score == pre.score,
                self.state().next == pre.next,
                forall|e: int| 0 <= e < d ==> can_descend(pre.board, shift_piece(pre.piece, 0, e)),
            decreases 19 - self.state().piece[0].1,
        {
            let ghost cur = self.state();
            proof {
                lemma_cur_cells_free(pre, cur, d);
                lemma_moved_locked(pre.board, pre.piece, cur.piece);
                lemma_can_descend_same_locked(cur.board, pre.board, cur.piece);
                assert(cur.piece =~= shift_piece(pre.piece, 0, d));
            }
            self.free_down();
            proof {
                let post = self.state();
                assert(post == shifted_state(cur, 0, 1));
                assert forall|k: int| 0 <= k < 4 implies (#[trigger] post.piece[k]).0
                    == pre.piece[k].0 && post.piece[k].1 == pre.piece[k].1 + (d + 1) by {
                    assert(post.piece[k] == shift_piece(cur.piece, 0, 1)[k]);
                    assert(cur.piece[k].1 + 1 <= 19);
                }
                lemma_moved_compose(pre.board, pre.piece, cur.piece, post.piece);
                d = d + 1;
            }
        }
        proof {
            let post = self.state();
            lemma_cur_cells_free(pre, post, d);
            lemma_moved_locked(pre.board, pre.piece, post.piece);
            lemma_can_descend_same_locked(post.board, pre.board, post.piece);
            assert(post.piece =~= shift_piece(pre.piece, 0, d));
            assert(post =~= dropped_state(pre, d));
            assert(!can_descend(pre.board, shift_piece(pre.piece, 0, d)));
            assert(drop_rel(pre, post));
        }
    }

    /// Consume one action: move, rotate, hard-drop, or advance gravity by
    /// one tick. After the game is over every action is a no-op.
    pub fn next(&mut self, action: UserAction)
        requires
            old(self).inv(),
        ensures
            final (self).inv(),
            next_rel(old(self).state(), final (self).state(), action),
    {
        if self.is_game_over {
            return ;
        }
        match action {
            UserAction::Left => {
                self.move_left();
            },
            UserAction::Right => {
                self.move_right();
            },
            UserAction::Rotate => {
                self.rotate();
            },
            UserAction::Down => {
                self.quick_down();
            },
            UserAction::Idle => {
                self.free_down();
            },
        }
    }
}

/// During a straight descent every cell of the piece's current position was
/// free on the original board, or belonged to the piece's own spawn cells:
/// the position one row up could descend, so nothing `Locked` stood here.
proof fn lemma_cur_cells_free(pre: State, cur: State, d: int)
    requires
        state_wf(pre),
        !pre.over,
        0 <= d,
        cur.piece.len() == 4,
        piece_wf(cur.piece),
        forall|k: int|
            0 <= k < 4 ==> (#[trigger] cur.piece[k]).0 == pre.piece[k].0 && cur.piece[k].1
                == pre.piece[k].1 + d,
        forall|e: int| 0 <= e < d ==> can_descend(pre.board, shift_piece(pre.piece, 0, e)),
    ensures
        forall|i: int|
            0 <= i < 4 ==> occupies(pre.piece, (#[trigger] cur.piece[i]).0 as int, cur.piece[i].1 as int)
                || pre.board[cur.piece[i].1 as int][cur.piece[i].0 as int] == Cell::Empty,
        forall|i: int|
            0 <= i < 4 ==> pre.board[(#[trigger] cur.piece[i]).1 as int][cur.piece[i].0 as int]
                != Cell::Locked,
{
    if d == 0 {
        assert forall|i: int|
            0 <= i < 4 implies occupies(pre.piece, (#[trigger] cur.piece[i]).0 as int, cur.piece[i].1 as int)
            && pre.board[cur.piece[i].1 as int][cur.piece[i].0 as int] != Cell::Locked by {
            lemma_occupies_intro(pre.piece, i, cur.piece[i].0 as int, cur.piece[i].1 as int);
            assert(in_bounds(pre.piece[i]));
            assert(pre.board[cur.piece[i].1 as int][cur.piece[i].0 as int] == Cell::Active);
        }
    } else {
        let up = shift_piece(pre.piece, 0, d - 1);
        assert(can_descend(pre.board, up));
        assert forall|i: int|
            0 <= i < 4 implies pre.board[(#[trigger] cur.piece[i]).1 as int][cur.piece[i].0 as int]
            != Cell::Locked by {
            assert(in_bounds(pre.piece[i]));
            assert(up[i].0 == pre.piece[i].0 && up[i].1 == pre.piece[i].1 + d - 1);
            assert(pre.board[up[i].1 + 1][up[i].0 as int] != Cell::Locked);
            assert(up[i].1 + 1 == cur.piece[i].1);
        }
        assert forall|i: int|
            0 <= i < 4 implies occupies(pre.piece, (#[trigger] cur.piece[i]).0 as int, cur.piece[i].1 as int)
            || pre.board[cur.piece[i].1 as int][cur.piece[i].0 as int] == Cell::Empty by {
            assert(in_bounds(cur.piece[i]));
            let cell = pre.board[cur.piece[i].1 as int][cur.piece[i].0 as int];
            if cell == Cell::Active {
                assert(occupies(pre.piece, cur.piece[i].0 as int, cur.piece[i].1 as int));
            }
        }
    }
}

/// Are all four cells of a 2 x 2 block with the given top-left corner part of
/// the piece?
fn block_at(cells: &[Coord; 4], x: usize, y: usize) -> (r: bool)
    requires
        x < 10,
        y < 20,
    ensures
        r == (occupies(cells@, x as int, y as int) && occupies(cells@, x + 1, y as int) && occupies(
            cells@,
            x as int,
            y + 1,
        ) && occupies(cells@, x + 1, y + 1)),
{
    coords_contain(cells, x, y) && coords_contain(cells, x + 1, y) && coords_contain(
        cells,
        x,
        y + 1,
    ) && coords_contain(cells, x + 1, y + 1)
}

/// Does the piece fill a 2 x 2 block? The corner of such a block is itself a
/// cell of the piece, so trying each cell as the corner decides it.
fn is_square_exec(cells: &[Coord; 4]) -> (r: bool)
    requires
        forall|i: int| 0 <= i < 4 ==> in_bounds(#[trigger] cells@[i]),
    ensures
        r == is_square(cells@),
{
    let r = block_at(cells, cells[0].0, cells[0].1) || block_at(cells, cells[1].0, cells[1].1)
        || block_at(cells, cells[2].0, cells[2].1) || block_at(cells, cells[3].0, cells[3].1);
    proof {
        if !r && is_square(cells@) {
            let (x, y) = choose|x: int, y: int|
                #[trigger] occupies(cells@, x, y) && occupies(cells@, x + 1, y) && occupies(
                    cells@,
                    x,
                    y + 1,
                ) && occupies(cells@, x + 1, y + 1);
            let i = choose|i: int| 0 <= i < cells@.len() && cells@[i].0 == x && cells@[i].1 == y;
            assert(i == 0 || i == 1 || i == 2 || i == 3);
        }
    }
    r
}

/// What `set_locked` does to the state: the one cell becomes `Locked` if it
/// is on the board and not under the active piece.
pub open spec fn set_locked_result(s: State, x: int, y: int) -> State {
    if 0 <= x < 10 && 0 <= y < 20 && s.board[y][x] != Cell::Active {
        State { board: s.board.update(y, s.board[y].update(x, Cell::Locked)), ..s }
    } else {
        s
    }
}

} // verus!
