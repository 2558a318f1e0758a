use vstd::prelude::*;

use crate::trusted::random_index_up_to_six;

verus! {

/// The seven falling-block shapes.
#[derive(Clone, Copy, PartialEq, Eq, Structural, Debug)]
pub enum TetrisShapes {
    I,
    O,
    T,
    S,
    Z,
    J,
    L,
}

/// The one-letter name under which a shape is sent to players.
pub open spec fn shape_name(shape: TetrisShapes) -> Seq<char> {
    match shape {
        TetrisShapes::I => seq!['I'],
        TetrisShapes::O => seq!['O'],
        TetrisShapes::T => seq!['T'],
        TetrisShapes::S => seq!['S'],
        TetrisShapes::Z => seq!['Z'],
        TetrisShapes::J => seq!['J'],
        TetrisShapes::L => seq!['L'],
    }
}

/// The four cells a shape covers, as (column, row) offsets from the piece's
/// position; rows grow downwards.
pub open spec fn shape_cells(shape: TetrisShapes) -> Seq<(int, int)> {
    match shape {
        TetrisShapes::I => seq![(0int, 0int), (1int, 0int), (2int, 0int), (3int, 0int)],
        TetrisShapes::O => seq![(0int, 0int), (1int, 0int), (0int, 1int), (1int, 1int)],
        TetrisShapes::T => seq![(1int, 0int), (0int, 1int), (1int, 1int), (2int, 1int)],
        TetrisShapes::S => seq![(1int, 0int), (2int, 0int), (0int, 1int), (1int, 1int)],
        TetrisShapes::Z => seq![(0int, 0int), (1int, 0int), (1int, 1int), (2int, 1int)],
        TetrisShapes::J => seq![(0int, 0int), (0int, 1int), (1int, 1int), (2int, 1int)],
        TetrisShapes::L => seq![(2int, 0int), (0int, 1int), (1int, 1int), (2int, 1int)],
    }
}

/// The shape drawn for a number from zero to six, in declaration order.
pub open spec fn shape_of_index(index: int) -> TetrisShapes {
    if index == 0 {
        TetrisShapes::I
    } else if index == 1 {
        TetrisShapes::O
    } else if index == 2 {
        TetrisShapes::T
    } else if index == 3 {
        TetrisShapes::S
    } else if index == 4 {
        TetrisShapes::Z
    } else if index == 5 {
        TetrisShapes::J
    } else {
        TetrisShapes::L
    }
}

impl TetrisShapes {
    /// The shape's one-letter name.
    pub fn as_str(&self) -> (name: &'static str)
        ensures
            name@ == shape_name(*self),
    {
        match self {
            TetrisShapes::I => {
                proof {
                    reveal_strlit("I");
                }
                "I"
            },
            TetrisShapes::O => {
                proof {
                    reveal_strlit("O");
                }
                "O"
            },
            TetrisShapes::T => {
                proof {
                    reveal_strlit("T");
                }
                "T"
            },
            TetrisShapes::S => {
                proof {
                    reveal_strlit("S");
                }
                "S"
            },
            TetrisShapes::Z => {
                proof {
                    reveal_strlit("Z");
                }
                "Z"
            },
            TetrisShapes::J => {
                proof {
                    reveal_strlit("J");
                }
                "J"
            },
            TetrisShapes::L => {
                proof {
                    reveal_strlit("L");
                }
                "L"
            },
        }
    }

    /// The four (column, row) offsets that the shape covers.
    pub fn get_shape_coords(&self) -> (coords: [[i32; 2]; 4])
        ensures
            forall|k: int|
                #![trigger coords@[k]]
                0 <= k < 4 ==> coords@[k]@[0] == shape_cells(*self)[k].0 && coords@[k]@[1]
                    == shape_cells(*self)[k].1,
    {
        match self {
            TetrisShapes::I => [[0, 0], [1, 0], [2, 0], [3, 0]],
            TetrisShapes::O => [[0, 0], [1, 0], [0, 1], [1, 1]],
            TetrisShapes::T => [[1, 0], [0, 1], [1, 1], [2, 1]],
            TetrisShapes::S => [[1, 0], [2, 0], [0, 1], [1, 1]],
            TetrisShapes::Z => [[0, 0], [1, 0], [1, 1], [2, 1]],
            TetrisShapes::J => [[0, 0], [0, 1], [1, 1], [2, 1]],
            TetrisShapes::L => [[2, 0], [0, 1], [1, 1], [2, 1]],
        }
    }
}

/// The shape numbered `index`, counting from zero in declaration order.
pub fn shape_from_index(index: u32) -> (shape: TetrisShapes)
    requires
        index <= 6,
    ensures
        shape == shape_of_index(index as int),
{
    match index {
        0 => TetrisShapes::I,
        1 => TetrisShapes::O,
        2 => TetrisShapes::T,
        3 => TetrisShapes::S,
        4 => TetrisShapes::Z,
        5 => TetrisShapes::J,
        _ => TetrisShapes::L,
    }
}

/// A shape drawn uniformly at random from the thread's generator.
pub fn get_random_tetris_shape() -> (shape: TetrisShapes)
    ensures
        exists|index: int| 0 <= index <= 6 && shape == shape_of_index(index),
{
    let index = random_index_up_to_six();
    shape_from_index(index)
}

/// Every shape covers four distinct cells inside a four-by-two box, and at
/// least one of them lies on the shape's top row.
pub proof fn shape_cells_fit(shape: TetrisShapes)
    ensures
        shape_cells(shape).len() == 4,
        forall|k: int|
            0 <= k < 4 ==> 0 <= #[trigger] shape_cells(shape)[k].0 <= 3 && 0
                <= shape_cells(shape)[k].1 <= 1,
        forall|a: int, b: int|
            0 <= a < b < 4 ==> #[trigger] shape_cells(shape)[a] != #[trigger] shape_cells(shape)[b],
        exists|k: int| 0 <= k < 4 && #[trigger] shape_cells(shape)[k].1 == 0,
{
    assert(shape_cells(shape)[0].1 == 0);
}

/// Distinct shapes have distinct names.
pub proof fn shape_names_distinct(a: TetrisShapes, b: TetrisShapes)
    requires
        a != b,
    ensures
        shape_name(a) != shape_name(b),
{
    assert(shape_name(a)[0] != shape_name(b)[0]);
}

/// Each of the seven numbers from zero to six draws a different shape, so
/// every shape can be drawn.
pub proof fn every_shape_has_an_index(shape: TetrisShapes)
    ensures
        exists|index: int| 0 <= index <= 6 && shape_of_index(index) == shape,
{
    match shape {
        TetrisShapes::I => assert(shape_of_index(0) == shape),
        TetrisShapes::O => assert(shape_of_index(1) == shape),
        TetrisShapes::T => assert(shape_of_index(2) == shape),
        TetrisShapes::S => assert(shape_of_index(3) == shape),
        TetrisShapes::Z => assert(shape_of_index(4) == shape),
        TetrisShapes::J => assert(shape_of_index(5) == shape),
        TetrisShapes::L => assert(shape_of_index(6) == shape),
    }
}

/// A cell lies in a shape's set of cells exactly when it is one of its four.
proof fn shape_cell_set_members(shape: TetrisShapes, c: (int, int))
    ensures
        shape_cells(shape).to_set().contains(c) <==> (c == shape_cells(shape)[0] || c == shape_cells(
            shape,
        )[1] || c == shape_cells(shape)[2] || c == shape_cells(shape)[3]),
{
    let cells = shape_cells(shape);
    assert(cells.len() == 4);
    if cells.contains(c) {
        let i = choose|i: int| 0 <= i < cells.len() && cells[i] == c;
        assert(i == 0 || i == 1 || i == 2 || i == 3);
    }
    if c == cells[0] {
        assert(cells.contains(c));
    } else if c == cells[1] {
        assert(cells.contains(c));
    } else if c == cells[2] {
        assert(cells.contains(c));
    } else if c == cells[3] {
        assert(cells.contains(c));
    }
}

/// Distinct shapes cover distinct sets of cells.
pub proof fn shape_cell_sets_distinct(a: TetrisShapes, b: TetrisShapes)
    requires
        a != b,
    ensures
        shape_cells(a).to_set() != shape_cells(b).to_set(),
{
    let probes = seq![(0int, 0int), (1int, 0int), (2int, 0int), (0int, 1int), (2int, 1int), (3int, 0int)];
    if shape_cells(a).to_set() == shape_cells(b).to_set() {
        shape_cell_set_members(a, probes[0]);
        shape_cell_set_members(b, probes[0]);
        shape_cell_set_members(a, probes[1]);
        shape_cell_set_members(b, probes[1]);
        shape_cell_set_members(a, probes[2]);
        shape_cell_set_members(b, probes[2]);
        shape_cell_set_members(a, probes[3]);
        shape_cell_set_members(b, probes[3]);
        shape_cell_set_members(a, probes[4]);
        shape_cell_set_members(b, probes[4]);
        shape_cell_set_members(a, probes[5]);
        shape_cell_set_members(b, probes[5]);
        match a {
            TetrisShapes::I => {},
            TetrisShapes::O => {},
            TetrisShapes::T => {},
            TetrisShapes::S => {},
            TetrisShapes::Z => {},
            TetrisShapes::J => {},
            TetrisShapes::L => {},
        }
    }
}

/// Different numbers from zero to six draw different shapes, so a draw
/// from zero to six picks each of the seven shapes for exactly one number.
pub proof fn shape_indices_distinct(i: int, j: int)
    requires
        0 <= i <= 6,
        0 <= j <= 6,
        i != j,
    ensures
        shape_of_index(i) != shape_of_index(j),
{
}

} // verus!
