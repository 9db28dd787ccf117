use crate::fraction::Fraction;
use crate::model::{Model, ModelView};
use crate::selection::{
    average_of, eligible, is_best, is_eligible, is_selection, lemma_selection_not_empty, total,
    Selection,
};
use crate::snake::SnakeException;
use rand::rngs::StdRng;
use vstd::prelude::*;

verus! {

/// A population of controllers.
#[derive(Debug)]
pub struct GeneticModel<B> {
    pub population: Vec<Model<B>>,
}

/// The mathematical value of a [`GeneticModel`].
pub struct GeneticModelView<B> {
    pub population: Seq<ModelView<B>>,
}

impl<B> View for GeneticModel<B> {
    type V = GeneticModelView<B>;

    open spec fn view(&self) -> GeneticModelView<B> {
        GeneticModelView { population: self.population@.map_values(|m: Model<B>| m@) }
    }
}

impl<B> GeneticModelView<B> {
    /// Every controller is valid.
    pub open spec fn wf(self) -> bool {
        forall|i: int| 0 <= i < self.population.len() ==> (#[trigger] self.population[i]).wf()
    }

    /// The controllers' scores, in the order of the population.
    pub open spec fn scores(self) -> Seq<u32> {
        self.population.map_values(|m: ModelView<B>| m.score)
    }

    /// The generation is over: no controller has a move left.
    pub open spec fn finished(self) -> bool {
        forall|i: int|
            0 <= i < self.population.len() ==> (#[trigger] self.population[i]).moves_left == 0
    }
}

impl<B> GeneticModel<B> {
    /// A population of `population_count` controllers, numbered from 0, each
    /// on its own empty `width` by `height` grid with `allowed_moves` moves.
    /// Controller `i` gets `brain[i]`; brains beyond the count are dropped.
    pub fn new(
        width: u64,
        height: u64,
        allowed_moves: u64,
        population_count: u64,
        brain: Vec<B>,
    ) -> (g: GeneticModel<B>)
        requires
            width > 0,
            height > 0,
            population_count <= brain@.len(),
        ensures
            g@.wf(),
            g@.population.len() == population_count,
            forall|i: int|
                0 <= i < population_count ==> {
                    let m = #[trigger] g@.population[i];
                    &&& m.brain == brain@[i]
                    &&& m.id == i
                    &&& m.score == 0
                    &&& m.moves_left == allowed_moves
                    &&& m.allowed_moves_number == allowed_moves
                    &&& m.universe.width == width
                    &&& m.universe.height == height
                    &&& m.universe.snakes.len() == 0
                    &&& m.universe.food.len() == 0
                },
    {
        let ghost given = brain@;
        let total = brain.len();
        // Turned round, the brains can be taken off the end in their order.
        let mut rest = brain;
        let mut turned: Vec<B> = Vec::new();
        while rest.len() > 0
            invariant
                total == given.len(),
                rest@.len() + turned@.len() == total,
                forall|j: int| 0 <= j < rest@.len() ==> rest@[j] == given[j],
                forall|j: int| 0 <= j < turned@.len() ==> turned@[j] == given[total - 1 - j],
            decreases rest@.len(),
        {
            match rest.pop() {
                Some(b) => {
                    turned.push(b);
                },
                None => {},
            }
        }
        let mut population: Vec<Model<B>> = Vec::new();
        let mut i: usize = 0;
        while (i as u64) < population_count
            invariant
                i <= population_count,
                population_count <= total,
                total == given.len(),
                width > 0,
                height > 0,
                turned@.len() == total - i,
                forall|j: int| 0 <= j < turned@.len() ==> turned@[j] == given[total - 1 - j],
                population@.len() == i,
                forall|j: int|
                    0 <= j < i ==> {
                        let m = (#[trigger] population@[j])@;
                        &&& m.wf()
                        &&& m.brain == given[j]
                        &&& m.id == j
                        &&& m.score == 0
                        &&& m.moves_left == allowed_moves
                        &&& m.allowed_moves_number == allowed_moves
                        &&& m.universe.width == width
                        &&& m.universe.height == height
                        &&& m.universe.snakes.len() == 0
                        &&& m.universe.food.len() == 0
                    },
            decreases population_count - i,
        {
            match turned.pop() {
                Some(b) => {
                    population.push(Model::new(width, height, allowed_moves, i, b));
                },
                None => {},
            }
            i += 1;
        }
        GeneticModel { population }
    }

    /// Starts a new generation: resets every controller in turn to
    /// `moves_left` moves and `food_amount` food items. Succeeds exactly when
    /// every grid has that many cells beside the snake's; otherwise stops
    /// with `GridFull` at the first that has not, and leaves the controllers
    /// behind it as they were.
    pub fn reset(&mut self, moves_left: u64, food_amount: u64, rng: &mut StdRng) -> (r: Result<
        (),
        SnakeException,
    >)
        requires
            old(self)@.wf(),
        ensures
            final(self)@.wf(),
            final(self)@.population.len() == old(self)@.population.len(),
            forall|i: int|
                0 <= i < old(self)@.population.len() ==> old(self)@.population[i].same_frame(
                    #[trigger] final(self)@.population[i],
                ),
            r is Ok <==> forall|i: int|
                0 <= i < old(self)@.population.len() ==> food_amount < (
                #[trigger] old(self)@.population[i]).universe.width * old(
                    self,
                )@.population[i].universe.height,
            match r {
                Ok(_) => forall|i: int|
                    0 <= i < old(self)@.population.len() ==> (
                    #[trigger] old(self)@.population[i]).resets_to(
                        final(self)@.population[i],
                        moves_left,
                        food_amount as int,
                    ),
                Err(e) => e == SnakeException::GridFull,
            },
    {
        let n = self.population.len();
        let mut i: usize = 0;
        assert forall|j: int| 0 <= j < n implies (#[trigger] self.population@[j])@.wf() by {
            assert(self@.population[j].wf());
        }
        while i < n
            invariant
                i <= n,
                n == self.population@.len(),
                n == old(self).population@.len(),
                forall|j: int| 0 <= j < n ==> (#[trigger] self.population@[j])@.wf(),
                forall|j: int|
                    0 <= j < i ==> (#[trigger] old(self).population@[j])@.resets_to(
                        self.population@[j]@,
                        moves_left,
                        food_amount as int,
                    ),
                forall|j: int|
                    0 <= j < i ==> food_amount < (#[trigger] old(self)@.population[j]).universe.width
                        * old(self)@.population[j].universe.height,
                forall|j: int|
                    0 <= j < n ==> old(self).population@[j]@.same_frame(
                        (#[trigger] self.population@[j])@,
                    ),
                forall|j: int| i <= j < n ==> self.population@[j] == old(self).population@[j],
            decreases n - i,
        {
            assert(old(self)@.population[i as int] == old(self).population@[i as int]@);
            match self.population[i].reset(moves_left, food_amount, rng) {
                Ok(_) => {},
                Err(_) => {
                    assert(food_amount >= old(self)@.population[i as int].universe.width * old(
                        self,
                    )@.population[i as int].universe.height);
                    return Err(SnakeException::GridFull);
                },
            }
            i += 1;
        }
        Ok(())
    }

    /// One tick of the whole population: every controller that has a body
    /// sees, decides through `decide` and steps. Returns whether the
    /// generation was over when the tick began, that is, whether no
    /// controller had a move left.
    pub fn run_tick<F: Fn(&B, &Vec<u64>) -> [i64; 4]>(
        &mut self,
        vision_range: u64,
        decide: F,
        rng: &mut StdRng,
    ) -> (finished: bool)
        requires
            old(self)@.wf(),
            forall|b: &B, v: &Vec<u64>| v@.len() == 16 ==> call_requires(decide, (b, v)),
        ensures
            finished == old(self)@.finished(),
            final(self)@.wf(),
            final(self)@.population.len() == old(self)@.population.len(),
            forall|i: int|
                0 <= i < old(self)@.population.len() ==> (#[trigger] old(self)@.population[i]).ticks_to(
                    vision_range,
                    decide,
                    final(self)@.population[i],
                ),
            forall|i: int|
                0 <= i < old(self)@.population.len() ==> old(self)@.population[i].same_frame(
                    #[trigger] final(self)@.population[i],
                ),
    {
        let finished = self.is_finished();
        let n = self.population.len();
        let mut i: usize = 0;
        assert forall|j: int| 0 <= j < n implies (#[trigger] self.population@[j])@.wf() by {
            assert(self@.population[j].wf());
        }
        while i < n
            invariant
                i <= n,
                n == self.population@.len(),
                n == old(self).population@.len(),
                forall|b: &B, v: &Vec<u64>| v@.len() == 16 ==> call_requires(decide, (b, v)),
                forall|j: int| 0 <= j < n ==> (#[trigger] self.population@[j])@.wf(),
                forall|j: int|
                    0 <= j < i ==> (#[trigger] old(self).population@[j])@.ticks_to(
                        vision_range,
                        decide,
                        self.population@[j]@,
                    ),
                forall|j: int|
                    0 <= j < i ==> old(self).population@[j]@.same_frame(
                        (#[trigger] self.population@[j])@,
                    ),
                forall|j: int| i <= j < n ==> self.population@[j] == old(self).population@[j],
            decreases n - i,
        {
            self.population[i].tick(vision_range, &decide, rng);
            i += 1;
        }
        finished
    }

    /// Whether the generation is over.
    pub fn is_finished(&self) -> (r: bool)
        ensures
            r == self@.finished(),
    {
        let mut i: usize = 0;
        while i < self.population.len()
            invariant
                i <= self.population@.len(),
                forall|j: int| 0 <= j < i ==> (#[trigger] self@.population[j]).moves_left == 0,
            decreases self.population.len() - i,
        {
            if self.population[i].moves_left > 0 {
                assert(self@.population[i as int].moves_left > 0);
                return false;
            }
            i += 1;
        }
        true
    }

    /// Reads the generation's scores: the best, the mean rounded down, and
    /// the places of the controllers whose score is within `margin` of the
    /// best. Where there is a controller at all, one is eligible.
    pub fn select(&self, margin: Fraction) -> (r: Selection)
        requires
            margin.wf(),
        ensures
            is_best(self@.scores(), r.best_score),
            r.average_score == average_of(self@.scores()),
            is_selection(self@.scores(), r.best_score, margin, r.eligible@),
            self@.population.len() > 0 ==> r.eligible@.len() > 0,
    {
        let ghost scores = self@.scores();
        let n = self.population.len();
        let mut best: u32 = 0;
        let mut sum: u128 = 0;
        let mut i: usize = 0;
        while i < n
            invariant
                i <= n,
                n == self.population@.len(),
                scores == self@.scores(),
                is_best(scores.take(i as int), best),
                sum == total(scores.take(i as int)),
                sum <= i * 0xffff_ffff,
            decreases n - i,
        {
            let score = self.population[i].score;
            proof {
                let now = scores.take(i as int);
                let next = scores.take(i + 1);
                assert(next.drop_last() =~= now);
                assert(next.last() == score);
                assert forall|j: int| 0 <= j < now.len() implies now[j] == next[j] by {}
                if now.len() > 0 && score <= best {
                    let w = choose|w: int| 0 <= w < now.len() && now[w] == best;
                    assert(next[w] == best);
                }
            }
            if score > best {
                best = score;
            }
            sum = sum + score as u128;
            i += 1;
        }
        assert(scores.take(n as int) =~= scores);
        let average: u32 = if n == 0 {
            0
        } else {
            assert(sum / (n as u128) <= 0xffff_ffff) by (nonlinear_arith)
                requires
                    sum <= n * 0xffff_ffff,
                    n > 0,
            ;
            (sum / (n as u128)) as u32
        };
        let mut chosen: Vec<usize> = Vec::new();
        let mut i: usize = 0;
        while i < n
            invariant
                i <= n,
                n == self.population@.len(),
                scores == self@.scores(),
                margin.wf(),
                is_selection(scores.take(i as int), best, margin, chosen@),
            decreases n - i,
        {
            let score = self.population[i].score;
            let ghost before = chosen@;
            if eligible(score, best, margin) {
                chosen.push(i);
            }
            proof {
                let now = scores.take(i as int);
                let next = scores.take(i + 1);
                assert forall|a: int| 0 <= a < before.len() implies chosen@[a] == before[a] by {}
                assert forall|j: int|
                    0 <= j < next.len() && is_eligible(
                        #[trigger] next[j],
                        best,
                        margin,
                    ) implies chosen@.contains(j as usize) by {
                    if j < i {
                        assert(is_eligible(now[j], best, margin));
                        let a = choose|a: int| 0 <= a < before.len() && before[a] == j as usize;
                        assert(chosen@[a] == j as usize);
                    } else {
                        assert(chosen@[before.len() as int] == i);
                    }
                }
                assert forall|a: int| 0 <= a < chosen@.len() implies (#[trigger] chosen@[a])
                    < next.len() && is_eligible(next[chosen@[a] as int], best, margin) by {
                    if a < before.len() {
                        assert(before[a] < now.len());
                        assert(now[before[a] as int] == next[before[a] as int]);
                    }
                }
            }
            i += 1;
        }
        proof {
            if n > 0 {
                lemma_selection_not_empty(scores, best, margin, chosen@);
            }
        }
        Selection { best_score: best, average_score: average, eligible: chosen }
    }
}

} // verus!
