use vstd::prelude::*;
use crate::direction::Direction;

verus! {

/// Number of cells in one row of the floor, edge cells included.
pub const FLOOR_CELLS_W: usize = 17;
/// Number of rows of the floor, edge rows included.
pub const FLOOR_CELLS_H: usize = 17;
/// Number of cells on the floor.
pub const FLOOR_CELLS_WH: usize = 289;

pub open spec fn spec_is_edge(x: int, y: int) -> bool {
    x == 0 || y == 0 || x == FLOOR_CELLS_W - 1 || y == FLOOR_CELLS_H - 1
}

pub open spec fn spec_is_corner(x: int, y: int) -> bool {
    (x == 0 || x == FLOOR_CELLS_W - 1) && (y == 0 || y == FLOOR_CELLS_H - 1)
}

pub open spec fn spec_is_middle(x: int, y: int) -> bool {
    0 < x < FLOOR_CELLS_W - 1 && 0 < y < FLOOR_CELLS_H - 1
}

pub open spec fn spec_is_edge_not_corner(x: int, y: int) -> bool {
    spec_is_edge(x, y) && !spec_is_corner(x, y)
}

/// Whether (x, y) is in the outer ring of the floor, where suppliers and demanders live.
pub fn is_edge(x: usize, y: usize) -> (r: bool)
    ensures
        r == spec_is_edge(x as int, y as int),
{
    x == 0 || y == 0 || x == FLOOR_CELLS_W - 1 || y == FLOOR_CELLS_H - 1
}

/// Whether (x, y) is on the outer ring but not one of its four corners.
pub fn is_edge_not_corner(x: usize, y: usize) -> (r: bool)
    ensures
        r == spec_is_edge_not_corner(x as int, y as int),
{
    is_edge(x, y) && !((x == 0 || x == FLOOR_CELLS_W - 1) && (y == 0 || y == FLOOR_CELLS_H - 1))
}

/// Whether (x, y) is strictly inside the outer ring, where belts and machines live.
pub fn is_middle(x: usize, y: usize) -> (r: bool)
    ensures
        r == spec_is_middle(x as int, y as int),
{
    x > 0 && y > 0 && x < FLOOR_CELLS_W - 1 && y < FLOOR_CELLS_H - 1
}

pub open spec fn spec_to_coord(x: int, y: int) -> int {
    x + y * FLOOR_CELLS_W
}

/// The index on the floor of the cell at (x, y).
pub fn to_coord(x: usize, y: usize) -> (c: usize)
    requires
        x < FLOOR_CELLS_W,
        y < FLOOR_CELLS_H,
    ensures
        c == spec_to_coord(x as int, y as int),
        c < FLOOR_CELLS_WH,
{
    x + y * FLOOR_CELLS_W
}

/// The (x, y) position of the cell at the given index of the floor.
pub fn to_xy(coord: usize) -> (r: (usize, usize))
    requires
        coord < FLOOR_CELLS_WH,
    ensures
        r.0 == coord % FLOOR_CELLS_W,
        r.1 == coord / FLOOR_CELLS_W,
        r.0 < FLOOR_CELLS_W,
        r.1 < FLOOR_CELLS_H,
        spec_to_coord(r.0 as int, r.1 as int) == coord,
{
    (coord % FLOOR_CELLS_W, coord / FLOOR_CELLS_W)
}

/// Converting a position to an index and back gives the position.
pub proof fn lemma_to_coord_to_xy(x: int, y: int)
    requires
        0 <= x < FLOOR_CELLS_W,
        0 <= y < FLOOR_CELLS_H,
    ensures
        0 <= spec_to_coord(x, y) < FLOOR_CELLS_WH,
        spec_to_coord(x, y) % (FLOOR_CELLS_W as int) == x,
        spec_to_coord(x, y) / (FLOOR_CELLS_W as int) == y,
{
}

/// The index of the cell above.
pub fn to_coord_up(coord: usize) -> (c: usize)
    requires
        coord >= FLOOR_CELLS_W,
    ensures
        c == coord - FLOOR_CELLS_W,
{
    coord - FLOOR_CELLS_W
}

/// The index of the cell to the right.
pub fn to_coord_right(coord: usize) -> (c: usize)
    requires
        coord < FLOOR_CELLS_WH,
    ensures
        c == coord + 1,
{
    coord + 1
}

/// The index of the cell below.
pub fn to_coord_down(coord: usize) -> (c: usize)
    requires
        coord < FLOOR_CELLS_WH,
    ensures
        c == coord + FLOOR_CELLS_W,
{
    coord + FLOOR_CELLS_W
}

/// The index of the cell to the left.
pub fn to_coord_left(coord: usize) -> (c: usize)
    requires
        coord >= 1,
    ensures
        c == coord - 1,
{
    coord - 1
}

/// The inner neighbor of an edge cell: its index, the side of the edge cell that faces it and
/// the side of the neighbor that faces the edge cell.
pub open spec fn spec_edge_neighbor(x: int, y: int, coord: int) -> (int, Direction, Direction) {
    if y == 0 {
        (coord + FLOOR_CELLS_W, Direction::Down, Direction::Up)
    } else if x == FLOOR_CELLS_W - 1 {
        (coord - 1, Direction::Left, Direction::Right)
    } else if y == FLOOR_CELLS_H - 1 {
        (coord - FLOOR_CELLS_W, Direction::Up, Direction::Down)
    } else {
        (coord + 1, Direction::Right, Direction::Left)
    }
}

/// See `spec_edge_neighbor`.
pub fn get_edge_neighbor(x: usize, y: usize, coord: usize) -> (r: (usize, Direction, Direction))
    requires
        x < FLOOR_CELLS_W,
        y < FLOOR_CELLS_H,
        coord == spec_to_coord(x as int, y as int),
    ensures
        r.0 as int == spec_edge_neighbor(x as int, y as int, coord as int).0,
        r.1 == spec_edge_neighbor(x as int, y as int, coord as int).1,
        r.2 == spec_edge_neighbor(x as int, y as int, coord as int).2,
{
    if y == 0 {
        (coord + FLOOR_CELLS_W, Direction::Down, Direction::Up)
    } else if x == FLOOR_CELLS_W - 1 {
        (coord - 1, Direction::Left, Direction::Right)
    } else if y == FLOOR_CELLS_H - 1 {
        (coord - FLOOR_CELLS_W, Direction::Up, Direction::Down)
    } else {
        (coord + 1, Direction::Right, Direction::Left)
    }
}

} // verus!
