use vstd::prelude::*;

verus! {

/// One of the four sides of a cell.
#[derive(Clone, Copy, Debug, PartialEq, Eq, Structural)]
pub enum Direction {
    Up,
    Right,
    Down,
    Left,
}

pub open spec fn spec_direction_reverse(dir: Direction) -> Direction {
    match dir {
        Direction::Up => Direction::Down,
        Direction::Right => Direction::Left,
        Direction::Down => Direction::Up,
        Direction::Left => Direction::Right,
    }
}

/// The opposite side.
pub fn direction_reverse(dir: Direction) -> (r: Direction)
    ensures
        r == spec_direction_reverse(dir),
{
    match dir {
        Direction::Up => Direction::Down,
        Direction::Right => Direction::Left,
        Direction::Down => Direction::Up,
        Direction::Left => Direction::Right,
    }
}

/// Reversing a direction twice gives the direction back.
pub proof fn lemma_direction_reverse_involutive(dir: Direction)
    ensures
        spec_direction_reverse(spec_direction_reverse(dir)) == dir,
{
}

/// The side of cell (x, y) that faces the adjacent cell (lx, ly).
pub open spec fn spec_from_dir_between_xy(lx: int, ly: int, x: int, y: int) -> Direction {
    if x > lx {
        Direction::Left
    } else if x < lx {
        Direction::Right
    } else if y > ly {
        Direction::Up
    } else {
        Direction::Down
    }
}

/// Given the previous cell (lx, ly) and the next cell (x, y) of a track, the side of the next
/// cell through which the track enters it.
pub fn get_from_dir_between_xy(lx: usize, ly: usize, x: usize, y: usize) -> (r: Direction)
    ensures
        r == spec_from_dir_between_xy(lx as int, ly as int, x as int, y as int),
{
    if x > lx {
        Direction::Left
    } else if x < lx {
        Direction::Right
    } else if y > ly {
        Direction::Up
    } else {
        Direction::Down
    }
}

} // verus!
