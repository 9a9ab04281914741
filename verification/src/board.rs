//! The playfield: a fixed 20-row x 10-column grid of cells, together with the
//! mathematical model used by every contract (a sequence of rows), the piece
//! coordinates, and small verified helpers that write cells.

use vstd::prelude::*;

verus! {

broadcast use vstd::array::group_array_axioms;

/// The model of a grid always has 20 rows of 10 cells.
pub proof fn lemma_board_view_wf(g: Grid)
    ensures
        board_wf(board_view(g)),
{
    assert forall|y: int| 0 <= y < 20 implies (#[trigger] board_view(g)[y]).len() == 10 by {
        assert(board_view(g)[y] == g[y]@);
    }
}

/// One cell of the playfield.
///
/// `Active` cells belong to the piece currently under player control;
/// `Locked` cells are permanently settled and only disappear when a full
/// row is cleared.
#[derive(Clone, Copy, PartialEq, Eq, Structural, Debug)]
pub enum Cell {
    Empty,
    Active,
    Locked,
}

/// The playfield: 20 rows of 10 columns, row 0 at the top.
pub type Grid = [[Cell; 10]; 20];

/// A board coordinate: column (0..=9) first, then row (0..=19).
pub type Coord = (usize, usize);

/// The mathematical model of a grid: a sequence of 20 rows, each a sequence
/// of 10 cells.
pub open spec fn board_view(g: Grid) -> Seq<Seq<Cell>> {
    Seq::new(20, |y: int| g[y]@)
}

/// A well-formed board model: 20 rows of 10 cells each.
pub open spec fn board_wf(b: Seq<Seq<Cell>>) -> bool {
    b.len() == 20 && forall|y: int| 0 <= y < 20 ==> (#[trigger] b[y]).len() == 10
}

pub open spec fn in_bounds(p: Coord) -> bool {
    p.0 < 10 && p.1 < 20
}

/// Does the piece occupy column x, row y?
pub open spec fn occupies(piece: Seq<Coord>, x: int, y: int) -> bool {
    exists|i: int| 0 <= i < piece.len() && piece[i].0 == x && piece[i].1 == y
}

/// A well-formed active piece: exactly 4 pairwise distinct in-bounds cells.
pub open spec fn piece_wf(piece: Seq<Coord>) -> bool {
    &&& piece.len() == 4
    &&& forall|i: int| 0 <= i < 4 ==> in_bounds(#[trigger] piece[i])
    &&& forall|i: int, j: int| 0 <= i < j < 4 ==> piece[i] != piece[j]
}

/// The cells of the piece, and no others, are `Active`.
pub open spec fn active_exactly(b: Seq<Seq<Cell>>, piece: Seq<Coord>) -> bool {
    forall|x: int, y: int|
        0 <= x < 10 && 0 <= y < 20 ==> ((#[trigger] b[y][x]) == Cell::Active <==> occupies(
            piece,
            x,
            y,
        ))
}

/// No cell of the board is `Active`.
pub open spec fn no_active(b: Seq<Seq<Cell>>) -> bool {
    forall|x: int, y: int| 0 <= x < 10 && 0 <= y < 20 ==> (#[trigger] b[y][x]) != Cell::Active
}

/// The board with every listed cell painted `c` and all other cells unchanged.
pub open spec fn paint(b: Seq<Seq<Cell>>, cells: Seq<Coord>, c: Cell) -> Seq<Seq<Cell>> {
    Seq::new(
        20,
        |y: int|
            Seq::new(
                10,
                |x: int|
                    if occupies(cells, x, y) {
                        c
                    } else {
                        b[y][x]
                    },
            ),
    )
}

/// The board after the piece moves from `from` to `to`: the old cells are
/// emptied first, then the new cells are marked `Active`, so a cell in both
/// sets ends up `Active`.
pub open spec fn moved(b: Seq<Seq<Cell>>, from: Seq<Coord>, to: Seq<Coord>) -> Seq<Seq<Cell>> {
    paint(paint(b, from, Cell::Empty), to, Cell::Active)
}

pub open spec fn empty_row() -> Seq<Cell> {
    Seq::new(10, |x: int| Cell::Empty)
}

pub open spec fn empty_board() -> Seq<Seq<Cell>> {
    Seq::new(20, |y: int| empty_row())
}

pub proof fn lemma_occupies_intro(piece: Seq<Coord>, i: int, x: int, y: int)
    requires
        0 <= i < piece.len(),
        piece[i].0 == x,
        piece[i].1 == y,
    ensures
        occupies(piece, x, y),
{
}

/// Painting a well-formed board keeps it well-formed.
pub proof fn lemma_paint_wf(b: Seq<Seq<Cell>>, cells: Seq<Coord>, c: Cell)
    requires
        board_wf(b),
    ensures
        board_wf(paint(b, cells, c)),
{
}

/// After a move, the `Active` cells are exactly the target cells: painting the
/// old cells `Empty` and the new cells `Active` leaves no stray `Active` cell,
/// provided the old cells were exactly the `Active` ones before.
pub proof fn lemma_moved_active(b: Seq<Seq<Cell>>, from: Seq<Coord>, to: Seq<Coord>)
    requires
        board_wf(b),
        active_exactly(b, from),
    ensures
        active_exactly(moved(b, from, to), to),
{
}

/// Moving a piece onto its own cells changes nothing.
pub proof fn lemma_moved_self(b: Seq<Seq<Cell>>, piece: Seq<Coord>)
    requires
        board_wf(b),
        active_exactly(b, piece),
    ensures
        moved(b, piece, piece) == b,
{
    assert(moved(b, piece, piece) =~~= b);
}

/// Locking the active cells leaves a board with no `Active` cell.
pub proof fn lemma_lock_no_active(b: Seq<Seq<Cell>>, piece: Seq<Coord>)
    requires
        board_wf(b),
        active_exactly(b, piece),
    ensures
        no_active(paint(b, piece, Cell::Locked)),
{
}

/// Painting cells `Active` on a board without `Active` cells makes the painted
/// cells exactly the `Active` ones.
pub proof fn lemma_spawn_active(b: Seq<Seq<Cell>>, cells: Seq<Coord>)
    requires
        board_wf(b),
        no_active(b),
    ensures
        active_exactly(paint(b, cells, Cell::Active), cells),
{
}

/// A `Locked` cell is never part of what `paint` writes when the painted value
/// is not `Locked`, so the set of `Locked` cells survives such a paint exactly
/// where the painted cells do not cover it.
pub proof fn lemma_paint_point(b: Seq<Seq<Cell>>, cells: Seq<Coord>, c: Cell, x: int, y: int)
    requires
        0 <= x < 10,
        0 <= y < 20,
    ensures
        paint(b, cells, c)[y][x] == if occupies(cells, x, y) {
            c
        } else {
            b[y][x]
        },
{
}

/// Two legal moves in a row amount to one: moving the piece from `p` to `q`
/// and then from `q` to `r` leaves the same board as moving it from `p`
/// straight to `r`, provided every cell of `q` was free (or the piece's own)
/// to begin with.
pub proof fn lemma_moved_compose(b: Seq<Seq<Cell>>, p: Seq<Coord>, q: Seq<Coord>, r: Seq<Coord>)
    requires
        board_wf(b),
        active_exactly(b, p),
        piece_wf(q),
        forall|i: int|
            0 <= i < 4 ==> occupies(p, (#[trigger] q[i]).0 as int, q[i].1 as int) || b[q[i].1 as int][q[i].0 as int]
                == Cell::Empty,
    ensures
        moved(moved(b, p, q), q, r) == moved(b, p, r),
{
    let lhs = moved(moved(b, p, q), q, r);
    let rhs = moved(b, p, r);
    assert forall|x: int, y: int| 0 <= x < 10 && 0 <= y < 20 implies lhs[y][x] == rhs[y][x] by {
        if !occupies(r, x, y) && occupies(q, x, y) && !occupies(p, x, y) {
            let i = choose|i: int| 0 <= i < q.len() && q[i].0 == x && q[i].1 == y;
            assert(b[y][x] == Cell::Empty);
        }
    }
    assert(lhs =~~= rhs);
}

/// A legal move changes no `Locked` cell: the piece's old cells were
/// `Active`, and its new cells were free or its own.
pub proof fn lemma_moved_locked(b: Seq<Seq<Cell>>, p: Seq<Coord>, q: Seq<Coord>)
    requires
        board_wf(b),
        active_exactly(b, p),
        forall|i: int|
            0 <= i < q.len() ==> b[(#[trigger] q[i]).1 as int][q[i].0 as int] != Cell::Locked,
    ensures
        forall|x: int, y: int|
            0 <= x < 10 && 0 <= y < 20 ==> (((#[trigger] moved(b, p, q)[y][x]) == Cell::Locked)
                <==> (b[y][x] == Cell::Locked)),
{
    assert forall|x: int, y: int| 0 <= x < 10 && 0 <= y < 20 implies (((#[trigger] moved(
        b,
        p,
        q,
    )[y][x]) == Cell::Locked) <==> (b[y][x] == Cell::Locked)) by {
        if occupies(q, x, y) {
            let i = choose|i: int| 0 <= i < q.len() && q[i].0 == x && q[i].1 == y;
            assert(b[y][x] != Cell::Locked);
        } else if occupies(p, x, y) {
            assert(b[y][x] == Cell::Active);
        }
    }
}

/// Write one cell of the grid.
pub fn set_cell(g: &mut Grid, x: usize, y: usize, c: Cell)
    requires
        x < 10,
        y < 20,
    ensures
        board_view(*final (g)) == board_view(*old(g)).update(
            y as int,
            board_view(*old(g))[y as int].update(x as int, c),
        ),
{
    g[y][x] = c;
    proof {
        assert(board_view(*g) =~~= board_view(*old(g)).update(
            y as int,
            board_view(*old(g))[y as int].update(x as int, c),
        ));
    }
}

proof fn lemma_paint_push(b: Seq<Seq<Cell>>, cells: Seq<Coord>, p: Coord, c: Cell)
    requires
        in_bounds(p),
    ensures
        paint(b, cells.push(p), c) == paint(b, cells, c).update(
            p.1 as int,
            paint(b, cells, c)[p.1 as int].update(p.0 as int, c),
        ),
{
    let lhs = paint(b, cells.push(p), c);
    let rhs = paint(b, cells, c).update(
        p.1 as int,
        paint(b, cells, c)[p.1 as int].update(p.0 as int, c),
    );
    assert forall|x: int, y: int| 0 <= x < 10 && 0 <= y < 20 implies lhs[y][x] == rhs[y][x] by {
        if occupies(cells.push(p), x, y) {
            let i = choose|i: int|
                0 <= i < cells.push(p).len() && cells.push(p)[i].0 == x && cells.push(p)[i].1 == y;
            if i < cells.len() {
                lemma_occupies_intro(cells, i, x, y);
            } else {
                assert(p.0 == x && p.1 == y);
            }
        } else {
            assert(!occupies(cells, x, y)) by {
                if occupies(cells, x, y) {
                    let i = choose|i: int|
                        0 <= i < cells.len() && cells[i].0 == x && cells[i].1 == y;
                    lemma_occupies_intro(cells.push(p), i, x, y);
                }
            }
            assert(!(p.0 == x && p.1 == y)) by {
                if p.0 == x && p.1 == y {
                    lemma_occupies_intro(cells.push(p), cells.len() as int, x, y);
                }
            }
        }
    }
    assert(lhs =~~= rhs);
}

/// Paint the four given cells with the value `c`.
pub fn paint_cells(g: &mut Grid, cells: &[Coord; 4], c: Cell)
    requires
        forall|i: int| 0 <= i < 4 ==> in_bounds(#[trigger] cells@[i]),
    ensures
        board_view(*final (g)) == paint(board_view(*old(g)), cells@, c),
{
    let ghost b0 = board_view(*old(g));
    proof {
        lemma_board_view_wf(*old(g));
        assert(paint(b0, cells@.take(0), c) =~~= b0);
    }
    let mut i: usize = 0;
    while i < 4
        invariant
            i <= 4,
            forall|k: int| 0 <= k < 4 ==> in_bounds(#[trigger] cells@[k]),
            board_view(*g) == paint(b0, cells@.take(i as int), c),
        decreases 4 - i,
    {
        let (x, y) = cells[i];
        set_cell(g, x, y, c);
        proof {
            assert(cells@.take(i + 1) =~= cells@.take(i as int).push(cells@[i as int]));
            lemma_paint_push(b0, cells@.take(i as int), cells@[i as int], c);
        }
        i = i + 1;
    }
    proof {
        assert(cells@.take(4) =~= cells@);
    }
}

/// Does the piece contain the cell (x, y)?
pub fn coords_contain(cells: &[Coord; 4], x: usize, y: usize) -> (r: bool)
    ensures
        r == occupies(cells@, x as int, y as int),
{
    let r = (cells[0].0 == x && cells[0].1 == y) || (cells[1].0 == x && cells[1].1 == y) || (
    cells[2].0 == x && cells[2].1 == y) || (cells[3].0 == x && cells[3].1 == y);
    proof {
        if r {
            if cells@[0].0 == x && cells@[0].1 == y {
                lemma_occupies_intro(cells@, 0, x as int, y as int);
            } else if cells@[1].0 == x && cells@[1].1 == y {
                lemma_occupies_intro(cells@, 1, x as int, y as int);
            } else if cells@[2].0 == x && cells@[2].1 == y {
                lemma_occupies_intro(cells@, 2, x as int, y as int);
            } else {
                lemma_occupies_intro(cells@, 3, x as int, y as int);
            }
        } else {
            if occupies(cells@, x as int, y as int) {
                let i = choose|i: int|
                    0 <= i < cells@.len() && cells@[i].0 == x && cells@[i].1 == y;
                assert(i == 0 || i == 1 || i == 2 || i == 3);
            }
        }
    }
    r
}

} // verus!
