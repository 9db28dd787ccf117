use crate::counting::lemma_room_for_food;
use crate::direction::Direction;
use crate::snake::{Snake, SnakeException, SnakeView};
use crate::universe::{Food, Universe, UniverseView};
use rand::rngs::StdRng;
use vstd::prelude::*;

verus! {

/// One controller: a private grid with at most one snake on it, the brain
/// that steers the snake, the score of this generation and the moves that are
/// left in it. The brain is carried, never looked into: `B` is whatever the
/// caller decides with.
#[derive(Debug)]
pub struct Model<B> {
    pub universe: Universe,
    pub brain: B,
    pub score: u32,
    pub allowed_moves_number: u64,
    pub moves_left: u64,
    pub id: usize,
}

/// The mathematical value of a [`Model`].
pub struct ModelView<B> {
    pub universe: UniverseView,
    pub brain: B,
    pub score: u32,
    pub allowed_moves_number: u64,
    pub moves_left: u64,
    pub id: usize,
}

impl<B> View for Model<B> {
    type V = ModelView<B>;

    open spec fn view(&self) -> ModelView<B> {
        ModelView {
            universe: self.universe@,
            brain: self.brain,
            score: self.score,
            allowed_moves_number: self.allowed_moves_number,
            moves_left: self.moves_left,
            id: self.id,
        }
    }
}

/// `k` is the place of the greatest of `values`, and the first such place.
pub open spec fn is_argmax(values: Seq<i64>, k: int) -> bool {
    &&& 0 <= k < values.len()
    &&& forall|j: int| 0 <= j < values.len() ==> values[j] <= values[k]
    &&& forall|j: int| 0 <= j < k ==> values[j] < values[k]
}

/// The first place of the greatest of `values`.
pub open spec fn argmax_spec(values: Seq<i64>) -> int {
    choose|k: int| is_argmax(values, k)
}

/// The move that four output scores ask for: the heading whose place in the
/// table Up, Down, Left, Right is that of the greatest score, the first of
/// them where several are greatest.
pub open spec fn decode_spec(output: Seq<i64>) -> Direction {
    Direction::from_index_spec(argmax_spec(output)).unwrap()
}

/// The greatest value has one first place only.
pub proof fn lemma_argmax_unique(values: Seq<i64>, a: int, b: int)
    requires
        is_argmax(values, a),
        is_argmax(values, b),
    ensures
        a == b,
{
    if a < b {
        assert(values[a] < values[b]);
        assert(values[b] <= values[a]);
    }
    if b < a {
        assert(values[b] < values[a]);
        assert(values[a] <= values[b]);
    }
}

/// Finds the first place of the greatest of four values.
pub fn argmax(values: &[i64; 4]) -> (k: usize)
    ensures
        is_argmax(values@, k as int),
        k as int == argmax_spec(values@),
{
    let mut best: usize = 0;
    let mut i: usize = 1;
    while i < 4
        invariant
            1 <= i <= 4,
            values@.len() == 4,
            best < i,
            forall|j: int| 0 <= j < i ==> values@[j] <= values@[best as int],
            forall|j: int| 0 <= j < best ==> values@[j] < values@[best as int],
        decreases 4 - i,
    {
        if values[i] > values[best] {
            best = i;
        }
        i += 1;
    }
    proof {
        lemma_argmax_unique(values@, best as int, argmax_spec(values@));
    }
    best
}

/// Reads the move out of the four output scores. The scores are integers
/// that stand in the order of the network's outputs.
pub fn decode(output: &[i64; 4]) -> (d: Direction)
    ensures
        d == decode_spec(output@),
        exists|k: int| is_argmax(output@, k) && Direction::from_index_spec(k) == Some(d),
{
    match Direction::from_index(argmax(output)) {
        Some(d) => d,
        None => Direction::Up,
    }
}

impl<B> ModelView<B> {
    /// The grid is valid and not empty, and at most one snake lives on it.
    pub open spec fn wf(self) -> bool {
        &&& self.universe.wf()
        &&& self.universe.snakes.len() <= 1
        &&& self.universe.width > 0
        &&& self.universe.height > 0
    }

    /// `other` is this controller at another time: it has the same number,
    /// the same brain and a grid of the same size.
    pub open spec fn same_frame(self, other: ModelView<B>) -> bool {
        &&& other.id == self.id
        &&& other.brain == self.brain
        &&& other.universe.width == self.universe.width
        &&& other.universe.height == self.universe.height
    }

    /// The controller has a body on the grid.
    pub open spec fn has_body(self) -> bool {
        self.universe.snakes.len() > 0
    }

    /// This controller on another grid.
    pub open spec fn with_universe(self, universe: UniverseView) -> ModelView<B> {
        ModelView {
            universe,
            brain: self.brain,
            score: self.score,
            allowed_moves_number: self.allowed_moves_number,
            moves_left: self.moves_left,
            id: self.id,
        }
    }

    /// This controller with another brain.
    pub open spec fn with_brain(self, brain: B) -> ModelView<B> {
        ModelView {
            universe: self.universe,
            brain,
            score: self.score,
            allowed_moves_number: self.allowed_moves_number,
            moves_left: self.moves_left,
            id: self.id,
        }
    }

    /// The controller eats on a step towards `dir`.
    pub open spec fn step_eats(self, dir: Direction) -> bool {
        self.has_body() && self.moves_left > 0 && self.universe.move_outcome(0, dir) == Ok::<
            bool,
            SnakeException,
        >(true)
    }

    /// The controller after one step towards `dir`, before any new food is
    /// laid out.
    ///
    /// Without a body nothing happens. With no move left the body is taken
    /// off the grid. A meal adds one to the score, up to the greatest score
    /// that can be held, and costs no move; a step without a meal costs one
    /// move. A fatal step takes the body off the grid and leaves no move. A
    /// reversal is refused and changes nothing.
    pub open spec fn after_step(self, dir: Direction) -> ModelView<B> {
        if !self.has_body() {
            self
        } else if self.moves_left == 0 {
            self.with_universe(self.universe.without_snake(0))
        } else {
            match self.universe.move_outcome(0, dir) {
                Ok(ate) => ModelView {
                    universe: self.universe.after_move(0, dir),
                    brain: self.brain,
                    score: if ate && self.score < u32::MAX {
                        (self.score + 1) as u32
                    } else {
                        self.score
                    },
                    allowed_moves_number: self.allowed_moves_number,
                    moves_left: if ate {
                        self.moves_left
                    } else {
                        (self.moves_left - 1) as u64
                    },
                    id: self.id,
                },
                Err(SnakeException::InvalidMove) => self,
                Err(_) => ModelView {
                    universe: self.universe.without_snake(0),
                    brain: self.brain,
                    score: self.score,
                    allowed_moves_number: self.allowed_moves_number,
                    moves_left: 0,
                    id: self.id,
                },
            }
        }
    }

    /// `input` is what the snake sees at sight `range`: for each of its
    /// eight rays in turn the obstacle signal and then the food signal.
    pub open spec fn is_vision(self, range: u64, input: Seq<u64>) -> bool {
        input.len() == 16 && forall|c: int|
            0 <= c < 16 ==> self.universe.is_signal(c / 2, c % 2 == 1, range, #[trigger] input[c])
    }

    /// `after` is this controller one step towards `dir` later, with one new
    /// food item on a cell that was free if the snake ate and there was such
    /// a cell.
    pub open spec fn steps_to(self, dir: Direction, after: ModelView<B>) -> bool {
        let stepped = self.after_step(dir);
        if self.step_eats(dir) && stepped.universe.has_free_cell() {
            exists|x: u64, y: u64|
                #[trigger] stepped.universe.is_free(x, y) && after == stepped.with_universe(
                    stepped.universe.with_food(x, y),
                )
        } else {
            after == stepped
        }
    }

    /// `after` is this controller one tick later, when `decide` reads the
    /// move out of the brain and what the snake sees: a controller without a
    /// body is left alone; another sees, decides and steps.
    pub open spec fn ticks_to<F: Fn(&B, &Vec<u64>) -> [i64; 4]>(
        self,
        range: u64,
        decide: F,
        after: ModelView<B>,
    ) -> bool {
        if self.has_body() {
            exists|input: Vec<u64>, output: [i64; 4]|
                self.is_vision(range, input@) && #[trigger] call_ensures(
                    decide,
                    (&self.brain, &input),
                    output,
                ) && self.steps_to(decode_spec(output@), after)
        } else {
            after == self
        }
    }

    /// The controller as a reset leaves it, before food is laid out: a fresh
    /// snake of one cell in the middle of an otherwise empty grid, no score,
    /// and `moves` moves to make.
    pub open spec fn fresh(self, moves: u64) -> ModelView<B> {
        ModelView {
            universe: UniverseView {
                width: self.universe.width,
                height: self.universe.height,
                snakes: seq![
                    SnakeView {
                        id: 0,
                        direction: Direction::Up,
                        positions: seq![(self.universe.width / 2, self.universe.height / 2)],
                    },
                ],
                food: Seq::<Food>::empty(),
            },
            brain: self.brain,
            score: 0,
            allowed_moves_number: moves,
            moves_left: moves,
            id: self.id,
        }
    }
}

impl<B> ModelView<B> {
    /// `after` is this controller after a reset to `moves` moves that laid
    /// out `laid` food items: a valid controller on the same grid, fresh
    /// but for the food.
    pub open spec fn resets_to(self, after: ModelView<B>, moves: u64, laid: int) -> bool {
        &&& after.wf()
        &&& after == self.fresh(moves).with_universe(after.universe)
        &&& after.universe.width == self.universe.width
        &&& after.universe.height == self.universe.height
        &&& after.universe.snakes == self.fresh(moves).universe.snakes
        &&& after.universe.food.len() == laid
    }
}

/// A controller that has no body, or no move left, has none after any further
/// step either: only a reset brings it back.
pub proof fn lemma_dead_stays_dead<B>(m: ModelView<B>, dir: Direction)
    requires
        m.wf(),
        !m.has_body() || m.moves_left == 0,
    ensures
        !m.after_step(dir).has_body(),
        m.after_step(dir).moves_left == m.moves_left,
        m.after_step(dir).score == m.score,
{
}

impl<B> Model<B> {
    /// A controller on an empty `width` by `height` grid, with no body yet:
    /// `reset` gives it one.
    pub fn new(width: u64, height: u64, moves_left: u64, id: usize, brain: B) -> (m: Model<B>)
        requires
            width > 0,
            height > 0,
        ensures
            m@.wf(),
            m@.universe.width == width,
            m@.universe.height == height,
            m@.universe.snakes.len() == 0,
            m@.universe.food.len() == 0,
            m@.score == 0,
            m@.allowed_moves_number == moves_left,
            m@.moves_left == moves_left,
            m@.id == id,
            m@.brain == brain,
    {
        Model {
            universe: Universe::new_empty(width, height),
            brain,
            score: 0,
            allowed_moves_number: moves_left,
            moves_left,
            id,
        }
    }

    /// Puts a snake on this controller's grid.
    pub fn add_snake(&mut self, snake: Snake)
        ensures
            final(self)@ == old(self)@.with_universe(final(self)@.universe),
            final(self)@.universe.width == old(self)@.universe.width,
            final(self)@.universe.height == old(self)@.universe.height,
            final(self)@.universe.food == old(self)@.universe.food,
            final(self)@.universe.snakes == old(self)@.universe.snakes.push(snake@),
    {
        self.universe.add_snake(snake);
    }

    /// What the snake sees: for each of its eight rays in turn the obstacle
    /// signal and then the food signal, at sight `vision_range`. `None` if
    /// the controller has no body.
    pub fn compute_input(&self, vision_range: u64) -> (r: Option<Vec<u64>>)
        requires
            self@.wf(),
        ensures
            match r {
                Some(v) => self@.has_body() && self@.is_vision(vision_range, v@),
                None => !self@.has_body(),
            },
    {
        if self.universe.snakes.len() == 0 {
            return None;
        }
        let mut input: Vec<u64> = Vec::new();
        let mut k: usize = 0;
        while k < 8
            invariant
                k <= 8,
                self@.wf(),
                self@.has_body(),
                input@.len() == 2 * k,
                forall|c: int|
                    0 <= c < 2 * k ==> self@.universe.is_signal(
                        c / 2,
                        c % 2 == 1,
                        vision_range,
                        #[trigger] input@[c],
                    ),
            decreases 8 - k,
        {
            let obstacle = self.universe.cast_ray(k, vision_range, false);
            let food = self.universe.cast_ray(k, vision_range, true);
            input.push(obstacle);
            input.push(food);
            k += 1;
        }
        Some(input)
    }

    /// Makes one step towards `direction` and says whether the snake ate, in
    /// which case a new food item is due.
    pub fn apply_move(&mut self, direction: Direction) -> (ate: bool)
        requires
            old(self)@.wf(),
        ensures
            final(self)@ == old(self)@.after_step(direction),
            ate == old(self)@.step_eats(direction),
            final(self)@.wf(),
    {
        if self.universe.snakes.len() == 0 {
            return false;
        }
        if self.moves_left == 0 {
            self.universe.kill_snake(0);
            return false;
        }
        match self.universe.move_snake(0, direction) {
            Ok(true) => {
                if self.score < u32::MAX {
                    self.score += 1;
                }
                true
            },
            Ok(false) => {
                self.moves_left -= 1;
                false
            },
            Err(SnakeException::InvalidMove) => false,
            Err(_) => {
                self.universe.kill_snake(0);
                self.moves_left = 0;
                false
            },
        }
    }

    /// Decodes the move from the four output scores and makes it; after a
    /// meal, lays out one new food item on a free cell, if there is one.
    pub fn update_position(&mut self, output: &[i64; 4], rng: &mut StdRng)
        requires
            old(self)@.wf(),
        ensures
            final(self)@.wf(),
            old(self)@.steps_to(decode_spec(output@), final(self)@),
            old(self)@.same_frame(final(self)@),
    {
        let direction = decode(output);
        if self.apply_move(direction) {
            let ghost stepped = self@;
            match self.universe.spawn_food(rng) {
                Ok(c) => {
                    assert(stepped.universe.is_free(c.0, c.1));
                    assert(self@ == stepped.with_universe(stepped.universe.with_food(c.0, c.1)));
                },
                Err(_) => {},
            }
        }
    }

    /// Hands what the snake sees to the brain, through `decide`, and returns
    /// the four output scores.
    pub fn compute_output<F: Fn(&B, &Vec<u64>) -> [i64; 4]>(
        &self,
        input: &Vec<u64>,
        decide: &F,
    ) -> (output: [i64; 4])
        requires
            call_requires(*decide, (&self.brain, input)),
        ensures
            call_ensures(*decide, (&self.brain, input), output),
    {
        decide(&self.brain, input)
    }

    /// One tick of this controller: if it has a body, it sees, lets `decide`
    /// read the four output scores out of its brain, and steps.
    pub fn tick<F: Fn(&B, &Vec<u64>) -> [i64; 4]>(
        &mut self,
        vision_range: u64,
        decide: &F,
        rng: &mut StdRng,
    )
        requires
            old(self)@.wf(),
            forall|b: &B, v: &Vec<u64>| v@.len() == 16 ==> call_requires(*decide, (b, v)),
        ensures
            final(self)@.wf(),
            old(self)@.ticks_to(vision_range, *decide, final(self)@),
            old(self)@.same_frame(final(self)@),
    {
        match self.compute_input(vision_range) {
            Some(input) => {
                let output = self.compute_output(&input, decide);
                self.update_position(&output, rng);
            },
            None => {},
        }
    }

    /// Starts a new generation for this controller: a fresh snake, no score,
    /// `moves_left` moves, and `food_amount` food items on free cells. Fails
    /// with `GridFull` exactly when the grid has not that many cells beside
    /// the snake's; the grid is then left full.
    pub fn reset(&mut self, moves_left: u64, food_amount: u64, rng: &mut StdRng) -> (r: Result<
        (),
        SnakeException,
    >)
        requires
            old(self)@.wf(),
        ensures
            old(self)@.resets_to(final(self)@, moves_left, final(self)@.universe.food.len() as int),
            match r {
                Ok(_) => {
                    &&& food_amount < old(self)@.universe.width * old(self)@.universe.height
                    &&& final(self)@.universe.food.len() == food_amount
                },
                Err(e) => {
                    &&& e == SnakeException::GridFull
                    &&& food_amount >= old(self)@.universe.width * old(self)@.universe.height
                    &&& final(self)@.universe.food.len() == old(self)@.universe.width * old(
                        self,
                    )@.universe.height - 1
                    &&& !final(self)@.universe.has_free_cell()
                },
            },
    {
        let width = self.universe.width;
        let height = self.universe.height;
        let mut universe = Universe::new_empty(width, height);
        universe.add_snake(Snake::new(width, height, 0));
        assert(universe@.snakes =~= old(self)@.fresh(moves_left).universe.snakes);
        self.universe = universe;
        self.score = 0;
        self.allowed_moves_number = moves_left;
        self.moves_left = moves_left;
        assert(1 <= width * height) by (nonlinear_arith)
            requires
                width >= 1,
                height >= 1,
        ;
        let mut laid: u64 = 0;
        while laid < food_amount
            invariant
                laid <= food_amount,
                laid < width * height,
                width == old(self)@.universe.width,
                height == old(self)@.universe.height,
                self@.wf(),
                self@ == old(self)@.fresh(moves_left).with_universe(self@.universe),
                self@.universe.width == old(self)@.universe.width,
                self@.universe.height == old(self)@.universe.height,
                self@.universe.snakes == old(self)@.fresh(moves_left).universe.snakes,
                self@.universe.food.len() == laid,
            decreases food_amount - laid,
        {
            proof {
                lemma_room_for_food(self@.universe);
                assert(self@.universe.held_cells().len() == 1 + laid);
            }
            match self.universe.spawn_food(rng) {
                Ok(_) => {},
                Err(_) => {
                    return Err(SnakeException::GridFull);
                },
            }
            laid += 1;
            proof {
                lemma_room_for_food(self@.universe);
                assert(self@.universe.held_cells().len() == 1 + laid);
            }
        }
        Ok(())
    }
}

} // verus!
