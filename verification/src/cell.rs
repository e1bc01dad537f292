use vstd::prelude::*;

verus! {

/// A grid coordinate. Two cells are the same exactly when both
/// coordinates agree.
#[derive(Clone, Copy, PartialEq, Eq, Hash, Debug, Structural)]
pub struct Cell {
    pub x: i32,
    pub y: i32,
}

impl core::convert::From<(i32, i32)> for Cell {
    fn from(value: (i32, i32)) -> (r: Cell) {
        Cell { x: value.0, y: value.1 }
    }
}

impl vstd::std_specs::convert::FromSpecImpl<(i32, i32)> for Cell {
    open spec fn obeys_from_spec() -> bool {
        true
    }

    open spec fn from_spec(value: (i32, i32)) -> Cell {
        Cell { x: value.0, y: value.1 }
    }
}

impl core::convert::From<[i32; 2]> for Cell {
    fn from(value: [i32; 2]) -> (r: Cell) {
        Cell { x: value[0], y: value[1] }
    }
}

impl vstd::std_specs::convert::FromSpecImpl<[i32; 2]> for Cell {
    open spec fn obeys_from_spec() -> bool {
        true
    }

    open spec fn from_spec(value: [i32; 2]) -> Cell {
        Cell { x: value[0], y: value[1] }
    }
}

/// Two distinct cells are neighbors when each coordinate differs by at
/// most one: the eight cells surrounding a cell on the grid.
pub open spec fn is_neighbor(a: Cell, b: Cell) -> bool {
    &&& !(a.x == b.x && a.y == b.y)
    &&& -1 <= a.x - b.x <= 1
    &&& -1 <= a.y - b.y <= 1
}

/// The neighborhood relation does not depend on the order of its
/// arguments.
pub proof fn lemma_is_neighbor_symmetric(a: Cell, b: Cell)
    ensures
        is_neighbor(a, b) == is_neighbor(b, a),
{
}

/// A coordinate whose eight neighbors are themselves representable:
/// stepping one unit in any direction stays within `i32`.
pub open spec fn in_bounds(c: Cell) -> bool {
    &&& i32::MIN < c.x < i32::MAX
    &&& i32::MIN < c.y < i32::MAX
}

/// Decides `is_neighbor` on concrete cells; the differences are taken
/// in `i64`, so no coordinate range is excluded.
pub fn check_neighbor(a: Cell, b: Cell) -> (r: bool)
    ensures
        r == is_neighbor(a, b),
{
    let dx: i64 = a.x as i64 - b.x as i64;
    let dy: i64 = a.y as i64 - b.y as i64;
    (dx != 0 || dy != 0) && -1 <= dx && dx <= 1 && -1 <= dy && dy <= 1
}

/// Decides `in_bounds` on a concrete cell.
pub fn check_in_bounds(c: Cell) -> (r: bool)
    ensures
        r == in_bounds(c),
{
    i32::MIN < c.x && c.x < i32::MAX && i32::MIN < c.y && c.y < i32::MAX
}

/// The eight cells adjacent to `coords`: exactly the cells that
/// `is_neighbor` relates to `coords`, each listed once.
pub fn get_adjacent(coords: Cell) -> (adj: [Cell; 8])
    requires
        in_bounds(coords),
    ensures
        adj@.no_duplicates(),
        forall|i: int| 0 <= i < 8 ==> is_neighbor(#[trigger] adj@[i], coords),
        forall|n: Cell| is_neighbor(n, coords) ==> adj@.contains(n),
{
    let x = coords.x;
    let y = coords.y;
    let adj: [Cell; 8] = [
        Cell { x: x - 1, y: y - 1 },
        Cell { x: x - 1, y: y + 1 },
        Cell { x: x - 1, y },
        Cell { x, y: y - 1 },
        Cell { x, y: y + 1 },
        Cell { x: x + 1, y },
        Cell { x: x + 1, y: y - 1 },
        Cell { x: x + 1, y: y + 1 },
    ];
    proof {
        assert forall|n: Cell| is_neighbor(n, coords) implies adj@.contains(n) by {
            if n.x == x - 1 {
                if n.y == y - 1 {
                    assert(adj@[0] == n);
                } else if n.y == y + 1 {
                    assert(adj@[1] == n);
                } else {
                    assert(adj@[2] == n);
                }
            } else if n.x == x {
                if n.y == y - 1 {
                    assert(adj@[3] == n);
                } else {
                    assert(adj@[4] == n);
                }
            } else {
                if n.y == y {
                    assert(adj@[5] == n);
                } else if n.y == y - 1 {
                    assert(adj@[6] == n);
                } else {
                    assert(adj@[7] == n);
                }
            }
        }
    }
    adj
}

} // verus!
