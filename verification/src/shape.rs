//! The fixed catalog of the seven standard tetromino shapes.
//!
//! Each shape carries a 4 x 4 occupancy pattern (used only for the
//! next-shape preview) and the 4 absolute board coordinates at which it
//! spawns. The catalog never changes at runtime; the spec level pins every
//! pattern and every spawn position exactly.

use vstd::prelude::*;

use crate::board::{in_bounds, piece_wf, Coord};

verus! {

broadcast use vstd::array::group_array_axioms;

/// One entry of the shape catalog.
#[derive(Debug, Copy, Clone)]
pub struct Shape {
    /// 4 x 4 occupancy pattern shown in the next-shape preview (0 = free).
    pub shape: [[u8; 4]; 4],
    /// The 4 board coordinates at which the shape spawns.
    pub position: [Coord; 4],
}

/// The mathematical model of a shape.
#[verifier::ext_equal]
pub ghost struct ShapeModel {
    pub pattern: Seq<Seq<u8>>,
    pub spawn: Seq<Coord>,
}

impl Shape {
    pub open spec fn model(self) -> ShapeModel {
        ShapeModel {
            pattern: Seq::new(4, |i: int| self.shape[i]@),
            spawn: self.position@,
        }
    }
}

pub open spec fn i_shape() -> ShapeModel {
    ShapeModel {
        pattern: seq![
            seq![0u8, 0u8, 0u8, 0u8],
            seq![1u8, 1u8, 1u8, 1u8],
            seq![0u8, 0u8, 0u8, 0u8],
            seq![0u8, 0u8, 0u8, 0u8],
        ],
        spawn: seq![(3usize, 0usize), (4usize, 0usize), (5usize, 0usize), (6usize, 0usize)],
    }
}

pub open spec fn l_shape() -> ShapeModel {
    ShapeModel {
        pattern: seq![
            seq![0u8, 0u8, 0u8, 0u8],
            seq![1u8, 1u8, 1u8, 0u8],
            seq![1u8, 0u8, 0u8, 0u8],
            seq![0u8, 0u8, 0u8, 0u8],
        ],
        spawn: seq![(3usize, 0usize), (4usize, 0usize), (5usize, 0usize), (3usize, 1usize)],
    }
}

pub open spec fn j_shape() -> ShapeModel {
    ShapeModel {
        pattern: seq![
            seq![0u8, 0u8, 0u8, 0u8],
            seq![1u8, 1u8, 1u8, 0u8],
            seq![0u8, 0u8, 1u8, 0u8],
            seq![0u8, 0u8, 0u8, 0u8],
        ],
        spawn: seq![(3usize, 0usize), (4usize, 0usize), (5usize, 0usize), (5usize, 1usize)],
    }
}

pub open spec fn o_shape() -> ShapeModel {
    ShapeModel {
        pattern: seq![
            seq![0u8, 0u8, 0u8, 0u8],
            seq![0u8, 1u8, 1u8, 0u8],
            seq![0u8, 1u8, 1u8, 0u8],
            seq![0u8, 0u8, 0u8, 0u8],
        ],
        spawn: seq![(4usize, 0usize), (5usize, 0usize), (4usize, 1usize), (5usize, 1usize)],
    }
}

pub open spec fn z_shape() -> ShapeModel {
    ShapeModel {
        pattern: seq![
            seq![0u8, 0u8, 0u8, 0u8],
            seq![1u8, 1u8, 0u8, 0u8],
            seq![0u8, 1u8, 1u8, 0u8],
            seq![0u8, 0u8, 0u8, 0u8],
        ],
        spawn: seq![(3usize, 0usize), (4usize, 0usize), (4usize, 1usize), (5usize, 1usize)],
    }
}

pub open spec fn s_shape() -> ShapeModel {
    ShapeModel {
        pattern: seq![
            seq![0u8, 0u8, 0u8, 0u8],
            seq![0u8, 1u8, 1u8, 0u8],
            seq![1u8, 1u8, 0u8, 0u8],
            seq![0u8, 0u8, 0u8, 0u8],
        ],
        spawn: seq![(5usize, 0usize), (4usize, 0usize), (3usize, 1usize), (4usize, 1usize)],
    }
}

pub open spec fn t_shape() -> ShapeModel {
    ShapeModel {
        pattern: seq![
            seq![0u8, 1u8, 0u8, 0u8],
            seq![1u8, 1u8, 1u8, 0u8],
            seq![0u8, 0u8, 0u8, 0u8],
            seq![0u8, 0u8, 0u8, 0u8],
        ],
        spawn: seq![(3usize, 1usize), (4usize, 1usize), (5usize, 1usize), (4usize, 0usize)],
    }
}

/// The fixed 7-entry shape catalog, in its one canonical order.
pub open spec fn catalog_models() -> Seq<ShapeModel> {
    seq![i_shape(), l_shape(), j_shape(), o_shape(), z_shape(), s_shape(), t_shape()]
}

/// Is this shape one of the seven catalog entries?
pub open spec fn in_catalog(m: ShapeModel) -> bool {
    exists|k: int| 0 <= k < 7 && catalog_models()[k] == m
}

/// The stored catalog is exactly the canonical one.
pub open spec fn catalog_wf(shapes: [Shape; 7]) -> bool {
    forall|k: int| 0 <= k < 7 ==> (#[trigger] shapes[k]).model() == catalog_models()[k]
}

proof fn lemma_spawn_wf_4(s: Seq<Coord>)
    requires
        s.len() == 4,
        in_bounds(s[0]),
        in_bounds(s[1]),
        in_bounds(s[2]),
        in_bounds(s[3]),
        s[0] != s[1],
        s[0] != s[2],
        s[0] != s[3],
        s[1] != s[2],
        s[1] != s[3],
        s[2] != s[3],
    ensures
        piece_wf(s),
{
    assert forall|i: int| 0 <= i < 4 implies in_bounds(#[trigger] s[i]) by {
        if i == 0 {
        } else if i == 1 {
        } else if i == 2 {
        } else {
            assert(i == 3);
        }
    }
    assert forall|i: int, j: int| 0 <= i < j < 4 implies s[i] != s[j] by {
        if i == 0 && j == 1 {
        } else if i == 0 && j == 2 {
        } else if i == 0 && j == 3 {
        } else if i == 1 && j == 2 {
        } else if i == 1 && j == 3 {
        } else {
            assert(i == 2 && j == 3);
        }
    }
}

/// Every catalog shape spawns as a well-formed piece: 4 pairwise distinct
/// in-bounds cells.
pub proof fn lemma_catalog_spawns_wf()
    ensures
        forall|k: int| 0 <= k < 7 ==> piece_wf((#[trigger] catalog_models()[k]).spawn),
{
    assert forall|k: int| 0 <= k < 7 implies piece_wf((#[trigger] catalog_models()[k]).spawn) by {
        if k == 0 {
            lemma_spawn_wf_4(i_shape().spawn);
        } else if k == 1 {
            lemma_spawn_wf_4(l_shape().spawn);
        } else if k == 2 {
            lemma_spawn_wf_4(j_shape().spawn);
        } else if k == 3 {
            lemma_spawn_wf_4(o_shape().spawn);
        } else if k == 4 {
            lemma_spawn_wf_4(z_shape().spawn);
        } else if k == 5 {
            lemma_spawn_wf_4(s_shape().spawn);
        } else {
            assert(k == 6);
            lemma_spawn_wf_4(t_shape().spawn);
        }
    }
}

/// A catalog member spawns as a well-formed piece.
pub proof fn lemma_in_catalog_spawn_wf(m: ShapeModel)
    requires
        in_catalog(m),
    ensures
        piece_wf(m.spawn),
{
    lemma_catalog_spawns_wf();
}

/// Build the catalog of the seven standard shapes.
pub fn make_catalog() -> (r: [Shape; 7])
    ensures
        catalog_wf(r),
{
    let i_piece = Shape {
        shape: [[0, 0, 0, 0], [1, 1, 1, 1], [0, 0, 0, 0], [0, 0, 0, 0]],
        position: [(3, 0), (4, 0), (5, 0), (6, 0)],
    };
    let l_piece = Shape {
        shape: [[0, 0, 0, 0], [1, 1, 1, 0], [1, 0, 0, 0], [0, 0, 0, 0]],
        position: [(3, 0), (4, 0), (5, 0), (3, 1)],
    };
    let j_piece = Shape {
        shape: [[0, 0, 0, 0], [1, 1, 1, 0], [0, 0, 1, 0], [0, 0, 0, 0]],
        position: [(3, 0), (4, 0), (5, 0), (5, 1)],
    };
    let o_piece = Shape {
        shape: [[0, 0, 0, 0], [0, 1, 1, 0], [0, 1, 1, 0], [0, 0, 0, 0]],
        position: [(4, 0), (5, 0), (4, 1), (5, 1)],
    };
    let z_piece = Shape {
        shape: [[0, 0, 0, 0], [1, 1, 0, 0], [0, 1, 1, 0], [0, 0, 0, 0]],
        position: [(3, 0), (4, 0), (4, 1), (5, 1)],
    };
    let s_piece = Shape {
        shape: [[0, 0, 0, 0], [0, 1, 1, 0], [1, 1, 0, 0], [0, 0, 0, 0]],
        position: [(5, 0), (4, 0), (3, 1), (4, 1)],
    };
    let t_piece = Shape {
        shape: [[0, 1, 0, 0], [1, 1, 1, 0], [0, 0, 0, 0], [0, 0, 0, 0]],
        position: [(3, 1), (4, 1), (5, 1), (4, 0)],
    };
    let r = [i_piece, l_piece, j_piece, o_piece, z_piece, s_piece, t_piece];
    proof {
        assert(r@[0].model() =~~= i_shape());
        assert(r@[1].model() =~~= l_shape());
        assert(r@[2].model() =~~= j_shape());
        assert(r@[3].model() =~~= o_shape());
        assert(r@[4].model() =~~= z_shape());
        assert(r@[5].model() =~~= s_shape());
        assert(r@[6].model() =~~= t_shape());
        assert forall|k: int| 0 <= k < 7 implies (#[trigger] r[k]).model() == catalog_models()[k] by {
            assert(r[k] == r@[k]);
            if k == 0 {
            } else if k == 1 {
            } else if k == 2 {
            } else if k == 3 {
            } else if k == 4 {
            } else if k == 5 {
            } else {
                assert(k == 6);
            }
        }
    }
    r
}

} // verus!
