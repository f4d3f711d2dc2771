//! Grid geometry: cells, headings, the clockwise turn cycle, and one-step
//! movement of the snake's head.

use vstd::prelude::*;

verus! {

/// One square of the playing field, in grid coordinates.
#[derive(Clone, Copy, PartialEq, Eq, Structural, Debug)]
pub struct Cell {
    pub x: i32,
    pub y: i32,
}

/// A heading of the snake on the grid.
#[derive(Clone, Copy, PartialEq, Eq, Structural, Debug)]
pub enum Direction {
    Right,
    Left,
    Up,
    Down,
}

/// A cell lies on a `w` by `h` grid.
pub open spec fn in_bounds(c: Cell, w: int, h: int) -> bool {
    0 <= c.x < w && 0 <= c.y < h
}

/// Two cells are 4-connected neighbours: they differ by one step along one axis.
pub open spec fn adjacent(a: Cell, b: Cell) -> bool {
    ||| (b.x == a.x + 1 && b.y == a.y)
    ||| (b.x == a.x - 1 && b.y == a.y)
    ||| (b.x == a.x && b.y == a.y + 1)
    ||| (b.x == a.x && b.y == a.y - 1)
}

/// The next heading in the clockwise cycle right -> down -> left -> up -> right.
pub open spec fn spec_turn_right(d: Direction) -> Direction {
    match d {
        Direction::Right => Direction::Down,
        Direction::Down => Direction::Left,
        Direction::Left => Direction::Up,
        Direction::Up => Direction::Right,
    }
}

/// The previous heading in the clockwise cycle: the inverse of `spec_turn_right`.
pub open spec fn spec_turn_left(d: Direction) -> Direction {
    match d {
        Direction::Right => Direction::Up,
        Direction::Up => Direction::Left,
        Direction::Left => Direction::Down,
        Direction::Down => Direction::Right,
    }
}

/// The cell one step from `c` along `d`, with wrap-around truncation at the
/// extreme ends of the `i32` range (callers stay away from those by contract).
pub open spec fn spec_step(c: Cell, d: Direction) -> Cell {
    match d {
        Direction::Right => Cell { x: (c.x + 1) as i32, y: c.y },
        Direction::Left => Cell { x: (c.x - 1) as i32, y: c.y },
        Direction::Down => Cell { x: c.x, y: (c.y + 1) as i32 },
        Direction::Up => Cell { x: c.x, y: (c.y - 1) as i32 },
    }
}

pub fn turn_right(d: Direction) -> (r: Direction)
    ensures
        r == spec_turn_right(d),
{
    match d {
        Direction::Right => Direction::Down,
        Direction::Down => Direction::Left,
        Direction::Left => Direction::Up,
        Direction::Up => Direction::Right,
    }
}

pub fn turn_left(d: Direction) -> (r: Direction)
    ensures
        r == spec_turn_left(d),
{
    match d {
        Direction::Right => Direction::Up,
        Direction::Up => Direction::Left,
        Direction::Left => Direction::Down,
        Direction::Down => Direction::Right,
    }
}

pub fn step(c: Cell, d: Direction) -> (r: Cell)
    requires
        i32::MIN < c.x < i32::MAX,
        i32::MIN < c.y < i32::MAX,
    ensures
        r == spec_step(c, d),
        adjacent(c, r),
{
    match d {
        Direction::Right => Cell { x: c.x + 1, y: c.y },
        Direction::Left => Cell { x: c.x - 1, y: c.y },
        Direction::Down => Cell { x: c.x, y: c.y + 1 },
        Direction::Up => Cell { x: c.x, y: c.y - 1 },
    }
}

} // verus!
