use crate::direction::{step, step_spec, Direction};
use vstd::prelude::*;

verus! {

/// Why a move or a food placement was refused.
#[derive(Debug, Clone, Copy, PartialEq, Eq, Structural)]
pub enum SnakeException {
    /// The move points straight back along the current heading.
    InvalidMove,
    /// The move runs into a wall or into the snake's own body.
    DeadSnake,
    /// No cell of the grid is free.
    GridFull,
}

/// A snake: its cells from head (index 0) to tail, and its heading.
#[derive(Debug)]
pub struct Snake {
    pub id: usize,
    pub direction: Direction,
    pub positions: Vec<(u64, u64)>,
}

/// The mathematical value of a [`Snake`].
pub struct SnakeView {
    pub id: usize,
    pub direction: Direction,
    pub positions: Seq<(u64, u64)>,
}

impl View for Snake {
    type V = SnakeView;

    open spec fn view(&self) -> SnakeView {
        SnakeView { id: self.id, direction: self.direction, positions: self.positions@ }
    }
}

impl SnakeView {
    /// A body has at least a head and never holds a cell twice.
    pub open spec fn wf(self) -> bool {
        self.positions.len() >= 1 && self.positions.no_duplicates()
    }

    /// Every cell of the body lies on the grid.
    pub open spec fn within(self, width: u64, height: u64) -> bool {
        forall|i: int|
            0 <= i < self.positions.len() ==> (#[trigger] self.positions[i]).0 < width
                && self.positions[i].1 < height
    }

    /// The cell the head would enter by `d`, if that cell is on the grid and
    /// no segment of the body holds it.
    pub open spec fn target(self, d: Direction, width: u64, height: u64) -> Option<(u64, u64)> {
        match step_spec(self.positions[0], d, width, height) {
            Some(c) => if self.positions.contains(c) {
                None
            } else {
                Some(c)
            },
            None => None,
        }
    }

    /// The body after the head has entered `c` and every segment has taken
    /// the place of the one ahead of it.
    pub open spec fn shifted(self, d: Direction, c: (u64, u64)) -> SnakeView {
        SnakeView { id: self.id, direction: d, positions: seq![c] + self.positions.drop_last() }
    }

    /// The body after the head has entered `c` and the old tail cell has been
    /// kept as one more segment.
    pub open spec fn grown(self, d: Direction, c: (u64, u64)) -> SnakeView {
        SnakeView { id: self.id, direction: d, positions: seq![c] + self.positions }
    }
}

/// Entering a cell that the body does not hold keeps the body free of
/// repeats and on the grid, with or without growth.
pub proof fn lemma_advance_keeps_wf(s: SnakeView, d: Direction, width: u64, height: u64)
    requires
        s.wf(),
        s.within(width, height),
        s.target(d, width, height) is Some,
    ensures
        s.shifted(d, s.target(d, width, height).unwrap()).wf(),
        s.shifted(d, s.target(d, width, height).unwrap()).within(width, height),
        s.grown(d, s.target(d, width, height).unwrap()).wf(),
        s.grown(d, s.target(d, width, height).unwrap()).within(width, height),
{
    let c = s.target(d, width, height).unwrap();
    let a = s.shifted(d, c).positions;
    let b = s.grown(d, c).positions;
    assert forall|i: int, j: int| 0 <= i < a.len() && 0 <= j < a.len() && i != j implies a[i]
        != a[j] by {
        if i > 0 {
            assert(a[i] == s.positions[i - 1]);
        }
        if j > 0 {
            assert(a[j] == s.positions[j - 1]);
        }
    }
    assert forall|i: int, j: int| 0 <= i < b.len() && 0 <= j < b.len() && i != j implies b[i]
        != b[j] by {
        if i > 0 {
            assert(b[i] == s.positions[i - 1]);
        }
        if j > 0 {
            assert(b[j] == s.positions[j - 1]);
        }
    }
    assert forall|i: int| 0 <= i < a.len() implies (#[trigger] a[i]).0 < width && a[i].1
        < height by {
        if i > 0 {
            assert(a[i] == s.positions[i - 1]);
        }
    }
    assert forall|i: int| 0 <= i < b.len() implies (#[trigger] b[i]).0 < width && b[i].1
        < height by {
        if i > 0 {
            assert(b[i] == s.positions[i - 1]);
        }
    }
}

impl Snake {
    /// A snake of one cell in the middle of the grid, heading up.
    pub fn new(width: u64, height: u64, id: usize) -> (s: Snake)
        ensures
            s@.positions == seq![(width / 2, height / 2)],
            s@.direction == Direction::Up,
            s@.id == id,
            s@.wf(),
            width > 0 && height > 0 ==> s@.within(width, height),
    {
        Snake::from_initial_position(width / 2, height / 2, id)
    }

    /// A snake of one cell at `(x, y)`, heading up.
    pub fn from_initial_position(x: u64, y: u64, id: usize) -> (s: Snake)
        ensures
            s@.positions == seq![(x, y)],
            s@.direction == Direction::Up,
            s@.id == id,
            s@.wf(),
    {
        let mut positions: Vec<(u64, u64)> = Vec::new();
        positions.push((x, y));
        assert(positions@ =~= seq![(x, y)]);
        Snake { id, direction: Direction::Up, positions }
    }

    /// Whether some segment of the body holds the cell `(x, y)`.
    pub fn is_in_position(&self, x: u64, y: u64) -> (found: bool)
        ensures
            found == self@.positions.contains((x, y)),
    {
        let mut i: usize = 0;
        while i < self.positions.len()
            invariant
                i <= self.positions.len(),
                forall|j: int| 0 <= j < i ==> self.positions@[j] != (x, y),
            decreases self.positions.len() - i,
        {
            let p = self.positions[i];
            if p.0 == x && p.1 == y {
                return true;
            }
            i += 1;
        }
        false
    }

    /// Whether some segment of the body holds the cell `pos`.
    pub fn is_in_pos(&self, pos: (u64, u64)) -> (found: bool)
        ensures
            found == self@.positions.contains(pos),
    {
        self.is_in_position(pos.0, pos.1)
    }

    /// Appends `pos` behind the tail.
    pub fn add_tail(&mut self, pos: (u64, u64))
        ensures
            final(self)@.positions == old(self)@.positions.push(pos),
            final(self)@.direction == old(self)@.direction,
            final(self)@.id == old(self)@.id,
    {
        self.positions.push(pos);
    }

    /// Moves the head one cell towards `direction` and lets the body follow.
    /// A step off the grid or onto the body is fatal: it is refused and the
    /// snake is left as it was.
    pub fn move_head(&mut self, direction: Direction, width: u64, height: u64) -> (r: Result<
        (),
        SnakeException,
    >)
        requires
            old(self)@.positions.len() >= 1,
        ensures
            match old(self)@.target(direction, width, height) {
                Some(c) => r == Ok::<(), SnakeException>(()) && final(self)@ == old(self)@.shifted(
                    direction,
                    c,
                ),
                None => r == Err::<(), SnakeException>(SnakeException::DeadSnake) && final(self)@
                    == old(self)@,
            },
    {
        let head = self.positions[0];
        let c = match step(head, direction, width, height) {
            Some(c) => c,
            None => {
                return Err(SnakeException::DeadSnake);
            },
        };
        if self.is_in_pos(c) {
            return Err(SnakeException::DeadSnake);
        }
        let n = self.positions.len();
        let mut i: usize = n - 1;
        while i > 0
            invariant
                i < n,
                n == self.positions@.len(),
                n == old(self)@.positions.len(),
                self.id == old(self).id,
                self.direction == old(self).direction,
                forall|j: int| 0 <= j <= i ==> self.positions@[j] == old(self)@.positions[j],
                forall|j: int| i < j < n ==> self.positions@[j] == old(self)@.positions[j - 1],
            decreases i,
        {
            let ahead = self.positions[i - 1];
            self.positions.set(i, ahead);
            i -= 1;
        }
        self.positions.set(0, c);
        self.direction = direction;
        assert(self.positions@ =~= seq![c] + old(self)@.positions.drop_last());
        Ok(())
    }
}

} // verus!
