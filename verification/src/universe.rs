use crate::direction::Direction;
use crate::rng::random_below;
use crate::snake::{lemma_advance_keeps_wf, Snake, SnakeException, SnakeView};
use rand::rngs::StdRng;
use vstd::prelude::*;

verus! {

/// One food item, by the cell it lies on.
#[derive(Debug, Clone, Copy, PartialEq, Eq, Structural)]
pub struct Food(pub u64, pub u64);

/// A bounded grid with the snakes that live on it and the food that lies on it.
#[derive(Debug)]
pub struct Universe {
    pub width: u64,
    pub height: u64,
    pub snakes: Vec<Snake>,
    pub food: Vec<Food>,
}

/// The mathematical value of a [`Universe`].
pub struct UniverseView {
    pub width: u64,
    pub height: u64,
    pub snakes: Seq<SnakeView>,
    pub food: Seq<Food>,
}

impl View for Universe {
    type V = UniverseView;

    open spec fn view(&self) -> UniverseView {
        UniverseView {
            width: self.width,
            height: self.height,
            snakes: self.snakes@.map_values(|s: Snake| s@),
            food: self.food@,
        }
    }
}

impl UniverseView {
    /// Some snake's body holds the cell `(x, y)`.
    pub open spec fn occupied(self, x: u64, y: u64) -> bool {
        exists|i: int|
            0 <= i < self.snakes.len() && (#[trigger] self.snakes[i]).positions.contains((x, y))
    }

    /// The cell `(x, y)` is on the grid and holds neither a body segment nor
    /// food.
    pub open spec fn is_free(self, x: u64, y: u64) -> bool {
        x < self.width && y < self.height && !self.occupied(x, y) && !self.food.contains(
            Food(x, y),
        )
    }

    /// Some cell of the grid is free.
    pub open spec fn has_free_cell(self) -> bool {
        exists|x: u64, y: u64| self.is_free(x, y)
    }

    /// Every body is valid and on the grid; the food items are on the grid,
    /// pairwise distinct, and none lies under a body.
    pub open spec fn wf(self) -> bool {
        &&& forall|i: int|
            0 <= i < self.snakes.len() ==> (#[trigger] self.snakes[i]).wf()
                && self.snakes[i].within(self.width, self.height)
        &&& forall|j: int|
            0 <= j < self.food.len() ==> (#[trigger] self.food[j]).0 < self.width
                && self.food[j].1 < self.height
        &&& self.food.no_duplicates()
        &&& forall|j: int|
            0 <= j < self.food.len() ==> !self.occupied((#[trigger] self.food[j]).0, self.food[j].1)
    }

    /// This universe with one more food item, on `(x, y)`.
    pub open spec fn with_food(self, x: u64, y: u64) -> UniverseView {
        UniverseView {
            width: self.width,
            height: self.height,
            snakes: self.snakes,
            food: self.food.push(Food(x, y)),
        }
    }

    /// What a move of snake `id` towards `dir` comes to: refused as a
    /// reversal, fatal, or made, with or without a meal.
    pub open spec fn move_outcome(self, id: int, dir: Direction) -> Result<bool, SnakeException> {
        let s = self.snakes[id];
        if dir == s.direction.opposite_spec() {
            Err(SnakeException::InvalidMove)
        } else {
            match s.target(dir, self.width, self.height) {
                None => Err(SnakeException::DeadSnake),
                Some(c) => Ok(self.food.contains(Food(c.0, c.1))),
            }
        }
    }

    /// The universe after snake `id` has tried to move towards `dir`. A
    /// refused or fatal move changes nothing. A meal grows the snake by its
    /// old tail cell and takes the eaten item away.
    pub open spec fn after_move(self, id: int, dir: Direction) -> UniverseView {
        let s = self.snakes[id];
        match self.move_outcome(id, dir) {
            Ok(ate) => {
                let c = s.target(dir, self.width, self.height).unwrap();
                if ate {
                    UniverseView {
                        width: self.width,
                        height: self.height,
                        snakes: self.snakes.update(id, s.grown(dir, c)),
                        food: self.food.remove(self.food.index_of(Food(c.0, c.1))),
                    }
                } else {
                    UniverseView {
                        width: self.width,
                        height: self.height,
                        snakes: self.snakes.update(id, s.shifted(dir, c)),
                        food: self.food,
                    }
                }
            },
            Err(_) => self,
        }
    }

    /// The universe without snake `id`.
    pub open spec fn without_snake(self, id: int) -> UniverseView {
        UniverseView {
            width: self.width,
            height: self.height,
            snakes: self.snakes.remove(id),
            food: self.food,
        }
    }
}

/// A move, whatever it comes to, leaves a valid universe valid.
pub proof fn lemma_move_keeps_wf(u: UniverseView, id: int, dir: Direction)
    requires
        u.wf(),
        0 <= id < u.snakes.len(),
    ensures
        u.after_move(id, dir).wf(),
{
    let v = u.after_move(id, dir);
    let s = u.snakes[id];
    match u.move_outcome(id, dir) {
        Err(_) => {},
        Ok(ate) => {
            let c = s.target(dir, u.width, u.height).unwrap();
            lemma_advance_keeps_wf(s, dir, u.width, u.height);
            let k = u.food.index_of(Food(c.0, c.1));
            assert forall|j: int| 0 <= j < v.food.len() implies !v.occupied(
                (#[trigger] v.food[j]).0,
                v.food[j].1,
            ) by {
                let f = v.food[j];
                let jj = if ate && j >= k {
                    j + 1
                } else {
                    j
                };
                assert(f == u.food[jj]);
                assert(!u.occupied(f.0, f.1));
                if v.occupied(f.0, f.1) {
                    let i = choose|i: int|
                        0 <= i < v.snakes.len() && (#[trigger] v.snakes[i]).positions.contains(
                            (f.0, f.1),
                        );
                    if i != id {
                        assert(u.snakes[i].positions.contains((f.0, f.1)));
                    } else {
                        let body = v.snakes[id].positions;
                        let n = choose|n: int| 0 <= n < body.len() && body[n] == (f.0, f.1);
                        if n == 0 {
                            assert(f == Food(c.0, c.1));
                            if ate {
                                assert(u.food[k] == u.food[jj]);
                            } else {
                                assert(u.food.contains(f));
                            }
                        } else {
                            assert(s.positions[n - 1] == (f.0, f.1));
                            assert(u.snakes[id].positions.contains((f.0, f.1)));
                        }
                    }
                }
            }
            assert(v.food.no_duplicates()) by {
                if ate {
                    assert forall|a: int, b: int|
                        0 <= a < v.food.len() && 0 <= b < v.food.len() && a != b implies v.food[a]
                        != v.food[b] by {
                        let aa = if a >= k {
                            a + 1
                        } else {
                            a
                        };
                        let bb = if b >= k {
                            b + 1
                        } else {
                            b
                        };
                        assert(v.food[a] == u.food[aa]);
                        assert(v.food[b] == u.food[bb]);
                    }
                }
            }
            assert forall|j: int| 0 <= j < v.food.len() implies (#[trigger] v.food[j]).0 < v.width
                && v.food[j].1 < v.height by {
                let jj = if ate && j >= k {
                    j + 1
                } else {
                    j
                };
                assert(v.food[j] == u.food[jj]);
            }
        },
    }
}

/// A move that was made cannot be followed by its exact reverse: the second
/// move is refused as invalid, whatever the grid then holds.
pub proof fn lemma_reversal_refused(u: UniverseView, id: int, dir: Direction)
    requires
        u.wf(),
        0 <= id < u.snakes.len(),
        u.move_outcome(id, dir) is Ok,
    ensures
        u.after_move(id, dir).move_outcome(id, dir.opposite_spec()) == Err::<
            bool,
            SnakeException,
        >(SnakeException::InvalidMove),
{
    assert(u.after_move(id, dir).snakes[id].direction == dir);
}

/// The cell `a` stands before the cell `b` when the grid is read column by
/// column, and upwards within a column.
pub open spec fn comes_before(a: (u64, u64), b: (u64, u64)) -> bool {
    a.0 < b.0 || (a.0 == b.0 && a.1 < b.1)
}

/// How many random cells a food placement tries before it lists the free
/// cells and draws among them.
pub const SPAWN_ATTEMPTS: usize = 16;

impl Universe {
    /// A grid with no snake and no food.
    pub fn new_empty(width: u64, height: u64) -> (u: Universe)
        ensures
            u@.width == width,
            u@.height == height,
            u@.snakes == Seq::<SnakeView>::empty(),
            u@.food == Seq::<Food>::empty(),
            u@.wf(),
    {
        let u = Universe { width, height, snakes: Vec::new(), food: Vec::new() };
        assert(u@.snakes =~= Seq::<SnakeView>::empty());
        u
    }

    /// A grid with the given snakes and no food. It is valid if each snake is
    /// valid and on the grid.
    pub fn new(width: u64, height: u64, snakes: Vec<Snake>) -> (u: Universe)
        ensures
            u@.width == width,
            u@.height == height,
            u@.snakes == snakes@.map_values(|s: Snake| s@),
            u@.food == Seq::<Food>::empty(),
            (forall|i: int|
                0 <= i < snakes@.len() ==> (#[trigger] snakes@[i])@.wf() && snakes@[i]@.within(
                    width,
                    height,
                )) ==> u@.wf(),
    {
        Universe { width, height, snakes, food: Vec::new() }
    }

    /// Puts one more snake on the grid, behind those that are there. The
    /// universe stays valid if the snake is valid, on the grid and on no food.
    pub fn add_snake(&mut self, snake: Snake)
        ensures
            final(self)@.width == old(self)@.width,
            final(self)@.height == old(self)@.height,
            final(self)@.food == old(self)@.food,
            final(self)@.snakes == old(self)@.snakes.push(snake@),
            old(self)@.wf() && snake@.wf() && snake@.within(old(self)@.width, old(self)@.height)
                && (forall|j: int|
                0 <= j < old(self)@.food.len() ==> !snake@.positions.contains(
                    ((#[trigger] old(self)@.food[j]).0, old(self)@.food[j].1),
                )) ==> final(self)@.wf(),
    {
        let ghost before = self@;
        let ghost added = snake@;
        self.snakes.push(snake);
        proof {
            let after = self@;
            assert(after.snakes =~= before.snakes.push(added));
            if before.wf() && added.wf() && added.within(before.width, before.height) && (forall|
                j: int,
            |
                0 <= j < before.food.len() ==> !added.positions.contains(
                    ((#[trigger] before.food[j]).0, before.food[j].1),
                )) {
                assert forall|j: int| 0 <= j < after.food.len() implies !after.occupied(
                    (#[trigger] after.food[j]).0,
                    after.food[j].1,
                ) by {
                    let f = after.food[j];
                    assert(f == before.food[j]);
                    assert(!before.occupied(f.0, f.1));
                    if after.occupied(f.0, f.1) {
                        let i = choose|i: int|
                            0 <= i < after.snakes.len() && (
                            #[trigger] after.snakes[i]).positions.contains((f.0, f.1));
                        if i < before.snakes.len() {
                            assert(before.snakes[i].positions.contains((f.0, f.1)));
                        }
                    }
                }
            }
        }
    }

    /// Takes snake `id` off the grid; the snakes behind it move up one index.
    pub fn kill_snake(&mut self, id: usize)
        requires
            id < old(self)@.snakes.len(),
        ensures
            final(self)@ == old(self)@.without_snake(id as int),
            old(self)@.wf() ==> final(self)@.wf(),
    {
        let ghost before = self@;
        let _ = self.snakes.remove(id);
        proof {
            let after = self@;
            assert(after.snakes =~= before.snakes.remove(id as int));
            if before.wf() {
                assert forall|j: int| 0 <= j < after.food.len() implies !after.occupied(
                    (#[trigger] after.food[j]).0,
                    after.food[j].1,
                ) by {
                    let f = after.food[j];
                    assert(f == before.food[j]);
                    assert(!before.occupied(f.0, f.1));
                    if after.occupied(f.0, f.1) {
                        let i = choose|i: int|
                            0 <= i < after.snakes.len() && (
                            #[trigger] after.snakes[i]).positions.contains((f.0, f.1));
                        let ii = if i >= id {
                            i + 1
                        } else {
                            i
                        };
                        assert(before.snakes[ii].positions.contains((f.0, f.1)));
                    }
                }
                assert forall|i: int| 0 <= i < after.snakes.len() implies (
                #[trigger] after.snakes[i]).wf() && after.snakes[i].within(
                    after.width,
                    after.height,
                ) by {
                    let ii = if i >= id {
                        i + 1
                    } else {
                        i
                    };
                    assert(after.snakes[i] == before.snakes[ii]);
                }
            }
        }
    }

    /// Snake `id`, if there is one.
    pub fn get_snake(&self, id: usize) -> (r: Option<&Snake>)
        ensures
            id < self.snakes@.len() ==> r == Some(&self.snakes@[id as int]),
            id >= self.snakes@.len() ==> r is None,
    {
        if id < self.snakes.len() {
            Some(&self.snakes[id])
        } else {
            None
        }
    }

    /// Whether some snake's body holds the cell `(x, y)`.
    pub fn is_occupied(&self, x: u64, y: u64) -> (r: bool)
        ensures
            r == self@.occupied(x, y),
    {
        let mut i: usize = 0;
        while i < self.snakes.len()
            invariant
                i <= self.snakes@.len(),
                forall|j: int| 0 <= j < i ==> !(#[trigger] self@.snakes[j]).positions.contains((x, y)),
            decreases self.snakes.len() - i,
        {
            if self.snakes[i].is_in_position(x, y) {
                assert(self@.snakes[i as int].positions.contains((x, y)));
                return true;
            }
            i += 1;
        }
        false
    }

    /// The index of the food item on the cell `(x, y)`, if one lies there.
    pub fn food_index(&self, x: u64, y: u64) -> (r: Option<usize>)
        ensures
            match r {
                Some(k) => k < self@.food.len() && self@.food[k as int] == Food(x, y)
                    && forall|j: int| 0 <= j < k ==> self@.food[j] != Food(x, y),
                None => !self@.food.contains(Food(x, y)),
            },
    {
        let mut j: usize = 0;
        while j < self.food.len()
            invariant
                j <= self.food@.len(),
                forall|i: int| 0 <= i < j ==> self.food@[i] != Food(x, y),
            decreases self.food.len() - j,
        {
            let f = self.food[j];
            if f.0 == x && f.1 == y {
                return Some(j);
            }
            j += 1;
        }
        None
    }

    /// Whether the cell `(x, y)` is on the grid and holds neither body nor
    /// food.
    pub fn is_free(&self, x: u64, y: u64) -> (r: bool)
        ensures
            r == self@.is_free(x, y),
    {
        x < self.width && y < self.height && !self.is_occupied(x, y) && self.food_index(
            x,
            y,
        ).is_none()
    }

    /// Puts a food item on `(x, y)` if that cell is free, and says whether it
    /// did.
    pub fn try_place_food(&mut self, x: u64, y: u64) -> (placed: bool)
        requires
            old(self)@.wf(),
        ensures
            placed == old(self)@.is_free(x, y),
            placed ==> final(self)@ == old(self)@.with_food(x, y),
            !placed ==> final(self)@ == old(self)@,
            final(self)@.wf(),
    {
        if !self.is_free(x, y) {
            return false;
        }
        let ghost before = self@;
        self.food.push(Food(x, y));
        proof {
            let after = self@;
            assert(after.snakes =~= before.snakes);
            assert forall|j: int| 0 <= j < after.food.len() implies !after.occupied(
                (#[trigger] after.food[j]).0,
                after.food[j].1,
            ) by {
                let f = after.food[j];
                if j < before.food.len() {
                    assert(f == before.food[j]);
                    assert(!before.occupied(f.0, f.1));
                }
            }
            assert forall|a: int, b: int|
                0 <= a < after.food.len() && 0 <= b < after.food.len() && a != b implies after.food[a]
                != after.food[b] by {
                if a < before.food.len() {
                    assert(before.food[a] == after.food[a]);
                }
                if b < before.food.len() {
                    assert(before.food[b] == after.food[b]);
                }
            }
        }
        true
    }

    /// Moves snake `id` one cell towards `dir` and says whether it ate.
    ///
    /// A move that reverses the heading is refused with `InvalidMove`. A step
    /// off the grid or onto the snake's own body is refused with `DeadSnake`;
    /// the body is left on the grid for the caller to take away. On a meal
    /// the snake grows by its old tail cell and the item is gone.
    pub fn move_snake(&mut self, id: usize, dir: Direction) -> (r: Result<bool, SnakeException>)
        requires
            old(self)@.wf(),
            id < old(self)@.snakes.len(),
        ensures
            r == old(self)@.move_outcome(id as int, dir),
            final(self)@ == old(self)@.after_move(id as int, dir),
            final(self)@.wf(),
    {
        let ghost before = self@;
        proof {
            lemma_move_keeps_wf(before, id as int, dir);
        }
        assert(before.snakes[id as int].wf());
        if dir == self.snakes[id].direction.opposite() {
            return Err(SnakeException::InvalidMove);
        }
        let len = self.snakes[id].positions.len();
        let tail = self.snakes[id].positions[len - 1];
        let width = self.width;
        let height = self.height;
        match self.snakes[id].move_head(dir, width, height) {
            Ok(()) => {
                let head = self.snakes[id].positions[0];
                match self.food_index(head.0, head.1) {
                    Some(k) => {
                        self.snakes[id].add_tail(tail);
                        let _ = self.food.remove(k);
                        assert(self@.snakes[id as int].positions =~= before.snakes[id as int].grown(
                            dir,
                            head,
                        ).positions);
                        assert(before.food.index_of(Food(head.0, head.1)) == k as int);
                        assert(self@.snakes =~= before.after_move(id as int, dir).snakes);
                        Ok(true)
                    },
                    None => {
                        assert(self@.snakes =~= before.after_move(id as int, dir).snakes);
                        Ok(false)
                    },
                }
            },
            Err(_) => {
                assert(self@.snakes =~= before.snakes);
                Err(SnakeException::DeadSnake)
            },
        }
    }

    /// Lists the free cells of the grid, each once, column by column and
    /// upwards within a column.
    pub fn free_cells(&self) -> (cells: Vec<(u64, u64)>)
        ensures
            forall|i: int|
                0 <= i < cells@.len() ==> self@.is_free((#[trigger] cells@[i]).0, cells@[i].1),
            forall|x: u64, y: u64| #[trigger] self@.is_free(x, y) ==> cells@.contains((x, y)),
            forall|i: int, j: int|
                0 <= i < j < cells@.len() ==> comes_before(cells@[i], cells@[j]),
    {
        let mut cells: Vec<(u64, u64)> = Vec::new();
        let mut x: u64 = 0;
        while x < self.width
            invariant
                x <= self.width,
                forall|i: int|
                    0 <= i < cells@.len() ==> self@.is_free((#[trigger] cells@[i]).0, cells@[i].1),
                forall|a: u64, b: u64|
                    a < x && #[trigger] self@.is_free(a, b) ==> cells@.contains((a, b)),
                forall|i: int| 0 <= i < cells@.len() ==> (#[trigger] cells@[i]).0 < x,
                forall|i: int, j: int|
                    0 <= i < j < cells@.len() ==> comes_before(cells@[i], cells@[j]),
            decreases self.width - x,
        {
            let mut y: u64 = 0;
            while y < self.height
                invariant
                    x < self.width,
                    y <= self.height,
                    forall|i: int|
                        0 <= i < cells@.len() ==> self@.is_free(
                            (#[trigger] cells@[i]).0,
                            cells@[i].1,
                        ),
                    forall|a: u64, b: u64|
                        (a < x || (a == x && b < y)) && #[trigger] self@.is_free(a, b)
                            ==> cells@.contains((a, b)),
                    forall|i: int|
                        0 <= i < cells@.len() ==> comes_before(#[trigger] cells@[i], (x, y)),
                    forall|i: int, j: int|
                        0 <= i < j < cells@.len() ==> comes_before(cells@[i], cells@[j]),
                decreases self.height - y,
            {
                let ghost listed = cells@;
                if self.is_free(x, y) {
                    cells.push((x, y));
                    assert(cells@[listed.len() as int] == (x, y));
                }
                proof {
                    assert forall|a: u64, b: u64|
                        (a < x || (a == x && b < y + 1)) && #[trigger] self@.is_free(
                            a,
                            b,
                        ) implies cells@.contains((a, b)) by {
                        if a == x && b == y {
                        } else {
                            let i = choose|i: int| 0 <= i < listed.len() && listed[i] == (a, b);
                            assert(cells@[i] == (a, b));
                        }
                    }
                }
                y += 1;
            }
            x += 1;
        }
        cells
    }

    /// Puts one new food item on a free cell drawn at random and returns the
    /// cell. Fails with `GridFull`, changing nothing, exactly when no cell is
    /// free.
    ///
    /// A few random cells are tried first. If none of them is free, the free
    /// cells are listed and one of them is drawn.
    pub fn spawn_food(&mut self, rng: &mut StdRng) -> (r: Result<(u64, u64), SnakeException>)
        requires
            old(self)@.wf(),
        ensures
            match r {
                Ok(c) => old(self)@.is_free(c.0, c.1) && final(self)@ == old(self)@.with_food(
                    c.0,
                    c.1,
                ),
                Err(e) => e == SnakeException::GridFull && !old(self)@.has_free_cell()
                    && final(self)@ == old(self)@,
            },
            final(self)@.wf(),
    {
        if self.width > 0 && self.height > 0 {
            let mut attempt: usize = 0;
            while attempt < SPAWN_ATTEMPTS
                invariant
                    self@ == old(self)@,
                    self@.wf(),
                    self.width > 0,
                    self.height > 0,
                decreases SPAWN_ATTEMPTS - attempt,
            {
                let x = random_below(rng, self.width);
                let y = random_below(rng, self.height);
                if self.try_place_food(x, y) {
                    return Ok((x, y));
                }
                attempt += 1;
            }
        }
        let cells = self.free_cells();
        if cells.len() == 0 {
            assert forall|x: u64, y: u64| !#[trigger] self@.is_free(x, y) by {
                if self@.is_free(x, y) {
                    assert(cells@.contains((x, y)));
                }
            }
            return Err(SnakeException::GridFull);
        }
        let k = random_below(rng, cells.len() as u64) as usize;
        let c = cells[k];
        let placed = self.try_place_food(c.0, c.1);
        assert(placed);
        Ok(c)
    }
}

} // verus!
