use vstd::prelude::*;

verus! {

/// One of the four headings on the grid. `Up` increases `y`, `Right`
/// increases `x`.
#[derive(Debug, Clone, Copy, PartialEq, Eq, Structural)]
pub enum Direction {
    Up,
    Down,
    Left,
    Right,
}

/// Whether the integer point `(x, y)` is a cell of a `width` by `height` grid.
pub open spec fn in_grid(x: int, y: int, width: u64, height: u64) -> bool {
    0 <= x < width && 0 <= y < height
}

/// The cell one unit from `head` in direction `d`, or `None` when that step
/// leaves the grid.
pub open spec fn step_spec(head: (u64, u64), d: Direction, width: u64, height: u64) -> Option<
    (u64, u64),
> {
    let tx = head.0 + d.delta().0;
    let ty = head.1 + d.delta().1;
    if in_grid(tx, ty, width, height) {
        Some((tx as u64, ty as u64))
    } else {
        None
    }
}

impl Direction {
    /// The unit displacement of this heading.
    pub open spec fn delta(self) -> (int, int) {
        match self {
            Direction::Up => (0, 1),
            Direction::Down => (0, -1),
            Direction::Left => (-1, 0),
            Direction::Right => (1, 0),
        }
    }

    /// The heading that points the other way.
    pub open spec fn opposite_spec(self) -> Direction {
        match self {
            Direction::Up => Direction::Down,
            Direction::Down => Direction::Up,
            Direction::Left => Direction::Right,
            Direction::Right => Direction::Left,
        }
    }

    /// The heading that stands at place `i` of the table Up, Down, Left, Right.
    pub open spec fn from_index_spec(i: int) -> Option<Direction> {
        if i == 0 {
            Some(Direction::Up)
        } else if i == 1 {
            Some(Direction::Down)
        } else if i == 2 {
            Some(Direction::Left)
        } else if i == 3 {
            Some(Direction::Right)
        } else {
            None
        }
    }

    pub fn opposite(self) -> (r: Direction)
        ensures
            r == self.opposite_spec(),
    {
        match self {
            Direction::Up => Direction::Down,
            Direction::Down => Direction::Up,
            Direction::Left => Direction::Right,
            Direction::Right => Direction::Left,
        }
    }

    pub fn from_index(i: usize) -> (r: Option<Direction>)
        ensures
            r == Self::from_index_spec(i as int),
    {
        if i == 0 {
            Some(Direction::Up)
        } else if i == 1 {
            Some(Direction::Down)
        } else if i == 2 {
            Some(Direction::Left)
        } else if i == 3 {
            Some(Direction::Right)
        } else {
            None
        }
    }
}

/// Steps once from `head` towards `d` on a bounded grid.
pub fn step(head: (u64, u64), d: Direction, width: u64, height: u64) -> (r: Option<(u64, u64)>)
    ensures
        r == step_spec(head, d, width, height),
{
    let x = head.0;
    let y = head.1;
    match d {
        Direction::Up => if x < width && y < u64::MAX && y + 1 < height {
            Some((x, y + 1))
        } else {
            None
        },
        Direction::Down => if x < width && y >= 1 && y - 1 < height {
            Some((x, y - 1))
        } else {
            None
        },
        Direction::Left => if y < height && x >= 1 && x - 1 < width {
            Some((x - 1, y))
        } else {
            None
        },
        Direction::Right => if y < height && x < u64::MAX && x + 1 < width {
            Some((x + 1, y))
        } else {
            None
        },
    }
}

} // verus!
