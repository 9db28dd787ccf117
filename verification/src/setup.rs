use crate::brain::{lemma_controller_brains_same_shape, NeuralNetwork, DRAW_RESOLUTION};
use crate::genetic::{GeneticModel, GeneticModelView};
use crate::model::{Model, ModelView};
use crate::snake::SnakeException;
use rand::rngs::StdRng;
use vstd::prelude::*;

verus! {

/// `m` is controller `id` as a simulation starts: a brain of its own with
/// fresh parameters, a snake of one cell in the middle of its grid, heading
/// up, `food_amount` food items, no score and `moves` moves to make.
#[verifier::opaque]
pub open spec fn is_first_generation<T, F: Fn(u64) -> T>(
    m: ModelView<NeuralNetwork<T>>,
    id: int,
    width: u64,
    height: u64,
    moves: u64,
    food_amount: u64,
    from_draw: F,
) -> bool {
    &&& m.wf()
    &&& m.brain@.is_controller_brain()
    &&& m.brain@.all_fresh(from_draw)
    &&& m.id == id
    &&& m.score == 0
    &&& m.moves_left == moves
    &&& m.allowed_moves_number == moves
    &&& m.universe.width == width
    &&& m.universe.height == height
    &&& m.universe.snakes == m.fresh(moves).universe.snakes
    &&& m.universe.food.len() == food_amount
}

/// What holds of a controller as a simulation starts, spelled out.
pub proof fn lemma_first_generation_facts<T, F: Fn(u64) -> T>(
    m: ModelView<NeuralNetwork<T>>,
    id: int,
    width: u64,
    height: u64,
    moves: u64,
    food_amount: u64,
    from_draw: F,
)
    requires
        is_first_generation(m, id, width, height, moves, food_amount, from_draw),
    ensures
        m.wf(),
        m.has_body(),
        m.brain@.is_controller_brain(),
        m.brain@.all_fresh(from_draw),
        m.id == id,
        m.score == 0,
        m.moves_left == moves,
        m.allowed_moves_number == moves,
        m.universe.width == width,
        m.universe.height == height,
        m.universe.snakes == m.fresh(moves).universe.snakes,
        m.universe.food.len() == food_amount,
{
    reveal(is_first_generation);
}

/// A population of controllers as a simulation starts is valid, and its
/// brains have one shape.
proof fn lemma_first_generation_uniform<T, F: Fn(u64) -> T>(
    g: GeneticModelView<NeuralNetwork<T>>,
    width: u64,
    height: u64,
    moves: u64,
    food_amount: u64,
    from_draw: F,
)
    requires
        forall|j: int|
            0 <= j < g.population.len() ==> is_first_generation(
                #[trigger] g.population[j],
                j,
                width,
                height,
                moves,
                food_amount,
                from_draw,
            ),
    ensures
        g.wf(),
        g.uniform(),
{
    reveal(is_first_generation);
    assert forall|a: int, b: int|
        0 <= a < g.population.len() && 0 <= b < g.population.len() implies (
    #[trigger] g.brains()[a]).same_shape(#[trigger] g.brains()[b]) by {
        let x = g.population[a];
        let y = g.population[b];
        assert(x.brain@.is_controller_brain());
        assert(y.brain@.is_controller_brain());
        lemma_controller_brains_same_shape(x.brain@, y.brain@);
    }
}

/// A controller with a fresh brain is, once reset, as a simulation starts.
proof fn lemma_reset_gives_first_generation<T, F: Fn(u64) -> T>(
    made: ModelView<NeuralNetwork<T>>,
    after: ModelView<NeuralNetwork<T>>,
    moves: u64,
    food_amount: u64,
    from_draw: F,
)
    requires
        made.brain@.is_controller_brain(),
        made.brain@.all_fresh(from_draw),
        made.resets_to(after, moves, food_amount as int),
    ensures
        is_first_generation(
            after,
            made.id as int,
            made.universe.width,
            made.universe.height,
            moves,
            food_amount,
            from_draw,
        ),
{
    reveal(is_first_generation);
}

/// Controller `id` as a simulation starts.
fn first_generation<T: Copy, F: Fn(u64) -> T>(
    width: u64,
    height: u64,
    allowed_moves: u64,
    id: usize,
    food_amount: u64,
    rng: &mut StdRng,
    from_draw: &F,
) -> (r: Result<Model<NeuralNetwork<T>>, SnakeException>)
    requires
        width > 0,
        height > 0,
        forall|k: u64| k < DRAW_RESOLUTION ==> call_requires(*from_draw, (k,)),
    ensures
        match r {
            Ok(m) => is_first_generation(
                m@,
                id as int,
                width,
                height,
                allowed_moves,
                food_amount,
                *from_draw,
            ),
            Err(e) => e == SnakeException::GridFull,
        },
        r is Ok <==> food_amount < width * height,
{
    let brain = NeuralNetwork::random_controller_brain(rng, from_draw);
    let mut model = Model::new(width, height, allowed_moves, id, brain);
    let ghost made = model@;
    match model.reset(allowed_moves, food_amount, rng) {
        Ok(_) => {
            proof {
                lemma_reset_gives_first_generation(
                    made,
                    model@,
                    allowed_moves,
                    food_amount,
                    *from_draw,
                );
            }
            Ok(model)
        },
        Err(_) => Err(SnakeException::GridFull),
    }
}

/// Sets a simulation up: `population_count` controllers on grids of `width`
/// by `height` cells, each with a brain of its own whose parameters are all
/// drawn afresh, and each reset to `allowed_moves` moves and `food_amount`
/// food items. Fails with `GridFull` exactly when there is a controller to
/// set up and its grid has not that many cells beside the snake's.
pub fn setup_simulation<T: Copy, F: Fn(u64) -> T>(
    width: u64,
    height: u64,
    allowed_moves: u64,
    population_count: u64,
    food_amount: u64,
    rng: &mut StdRng,
    from_draw: &F,
) -> (r: Result<GeneticModel<NeuralNetwork<T>>, SnakeException>)
    requires
        width > 0,
        height > 0,
        population_count <= usize::MAX,
        forall|k: u64| k < DRAW_RESOLUTION ==> call_requires(*from_draw, (k,)),
    ensures
        match r {
            Ok(g) => {
                &&& g@.wf()
                &&& g@.uniform()
                &&& g@.population.len() == population_count
                &&& forall|i: int|
                    0 <= i < population_count ==> is_first_generation(
                        #[trigger] g@.population[i],
                        i,
                        width,
                        height,
                        allowed_moves,
                        food_amount,
                        *from_draw,
                    )
            },
            Err(e) => e == SnakeException::GridFull,
        },
        r is Ok <==> population_count == 0 || food_amount < width * height,
{
    let mut population: Vec<Model<NeuralNetwork<T>>> = Vec::new();
    let mut i: usize = 0;
    while (i as u64) < population_count
        invariant
            i <= population_count,
            population_count <= usize::MAX,
            width > 0,
            height > 0,
            forall|k: u64| k < DRAW_RESOLUTION ==> call_requires(*from_draw, (k,)),
            population@.len() == i,
            i > 0 ==> food_amount < width * height,
            forall|j: int|
                0 <= j < i ==> is_first_generation(
                    (#[trigger] population@[j])@,
                    j,
                    width,
                    height,
                    allowed_moves,
                    food_amount,
                    *from_draw,
                ),
        decreases population_count - i,
    {
        match first_generation(width, height, allowed_moves, i, food_amount, rng, from_draw) {
            Ok(model) => {
                population.push(model);
            },
            Err(_) => {
                return Err(SnakeException::GridFull);
            },
        }
        i += 1;
    }
    let g = GeneticModel { population };
    proof {
        assert forall|j: int| 0 <= j < g@.population.len() implies is_first_generation(
            #[trigger] g@.population[j],
            j,
            width,
            height,
            allowed_moves,
            food_amount,
            *from_draw,
        ) by {
            assert(g@.population[j] == g.population@[j]@);
        }
        lemma_first_generation_uniform(
            g@,
            width,
            height,
            allowed_moves,
            food_amount,
            *from_draw,
        );
    }
    Ok(g)
}

} // verus!
