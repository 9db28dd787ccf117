use ai_snake::activation::ActivationFunction;
use ai_snake::brain::{
    mutate_parameter, resolve_parameter, Layer, NeuralNetwork, ACTION_COUNT, DRAW_RESOLUTION,
    HIDDEN_SIZE, VISION_SIZE,
};
use ai_snake::fraction::Fraction;
use ai_snake::genetic::GeneticModel;
use ai_snake::setup::setup_simulation;
use ai_snake::snake::SnakeException;
use rand::rngs::StdRng;
use rand::SeedableRng;

const NEVER: Fraction = Fraction { numerator: 0, denominator: 1 };
const ALWAYS: Fraction = Fraction { numerator: 1, denominator: 1 };
const HALF: Fraction = Fraction { numerator: 1, denominator: 2 };

fn unit(k: u64) -> f64 {
    k as f64 / DRAW_RESOLUTION as f64
}

// Fresh values that no parameter of the test brains holds: they lie between 2 and 3.
fn marked(k: u64) -> f64 {
    2.0 + unit(k)
}

fn mean(values: &Vec<f64>) -> f64 {
    values.iter().sum::<f64>() / values.len() as f64
}

fn brain(w: f64, b: f64) -> NeuralNetwork<f64> {
    let mut n = NeuralNetwork::new();
    n.add_layer(Layer::new(
        2,
        3,
        vec![vec![w, w + 0.125, w + 0.25], vec![-w, -w - 0.125, -w - 0.25]],
        vec![b, b + 0.5, b + 1.0],
        ActivationFunction::Relu,
    ))
    .add_layer(Layer::new(
        3,
        1,
        vec![vec![w * 0.5], vec![w * 0.25], vec![w * 0.125]],
        vec![-b],
        ActivationFunction::Sigmoid,
    ));
    n
}

fn parameters(n: &NeuralNetwork<f64>) -> Vec<f64> {
    let mut all = Vec::new();
    for layer in n.layers.iter() {
        for row in layer.weights.iter() {
            all.extend(row.iter().copied());
        }
        all.extend(layer.biases.iter().copied());
    }
    all
}

fn population(scores: &[u32]) -> GeneticModel<NeuralNetwork<f64>> {
    let brains: Vec<NeuralNetwork<f64>> =
        (0..scores.len()).map(|i| brain(i as f64 * 0.5, i as f64 * 0.25)).collect();
    let mut g = GeneticModel::new(5, 5, 10, scores.len() as u64, brains);
    for (i, s) in scores.iter().enumerate() {
        g.population[i].score = *s;
    }
    g
}

#[test]
fn layer_keeps_its_parts() {
    let l = Layer::new(1, 2, vec![vec![0.5, -0.5]], vec![0.25, 0.75], ActivationFunction::Softmax);
    assert_eq!(l.input_dim, 1);
    assert_eq!(l.output_dim, 2);
    assert_eq!(l.weights, vec![vec![0.5, -0.5]]);
    assert_eq!(l.biases, vec![0.25, 0.75]);
    assert_eq!(l.activation, ActivationFunction::Softmax);
}

#[test]
fn layers_are_added_in_order() {
    let empty: NeuralNetwork<f64> = NeuralNetwork::new();
    assert!(empty.layers.is_empty());
    let n = brain(1.0, 2.0);
    assert_eq!(n.layers.len(), 2);
    assert_eq!(n.layers[0].output_dim, 3);
    assert_eq!(n.layers[1].input_dim, 3);
    assert_eq!(n.layers[1].activation, ActivationFunction::Sigmoid);
}

#[test]
fn duplicate_is_equal_and_apart() {
    let n = brain(1.0, 2.0);
    let mut d = n.duplicate();
    assert_eq!(parameters(&d), parameters(&n));
    assert_eq!(d.layers[0].activation, ActivationFunction::Relu);
    assert_eq!(d.layers[1].input_dim, 3);
    d.layers[0].weights[0][0] = 9.0;
    assert_eq!(n.layers[0].weights[0][0], 1.0);
}

#[test]
fn mutation_without_chance_changes_nothing() {
    let mut rng = StdRng::seed_from_u64(17);
    let mut n = brain(1.0, 2.0);
    let before = parameters(&n);
    n.mutate(NEVER, &mut rng, &marked);
    assert_eq!(parameters(&n), before);
    n.mutate(Fraction { numerator: 0, denominator: 1000 }, &mut rng, &marked);
    assert_eq!(parameters(&n), before);
}

#[test]
fn mutation_with_whole_chance_redraws_everything() {
    let mut rng = StdRng::seed_from_u64(17);
    for _ in 0..20 {
        let mut n = brain(1.0, 0.5);
        n.mutate(ALWAYS, &mut rng, &marked);
        let after = parameters(&n);
        assert_eq!(after.len(), 13);
        assert!(after.iter().all(|p| *p >= 2.0 && *p <= 3.0));
        assert_eq!(n.layers[0].input_dim, 2);
        assert_eq!(n.layers[1].activation, ActivationFunction::Sigmoid);
    }
}

#[test]
fn mutation_keeps_or_redraws_each_parameter() {
    let mut rng = StdRng::seed_from_u64(23);
    let mut kept = 0;
    let mut drawn = 0;
    for _ in 0..40 {
        let mut n = brain(1.0, 0.5);
        let before = parameters(&n);
        n.mutate(HALF, &mut rng, &marked);
        for (old, new) in before.iter().zip(parameters(&n).iter()) {
            if new == old {
                kept += 1;
            } else {
                assert!(*new >= 2.0 && *new <= 3.0);
                drawn += 1;
            }
        }
    }
    assert_eq!(kept + drawn, 40 * 13);
    assert!(kept > 150 && drawn > 150);
}

#[test]
fn fresh_values_lie_in_the_unit_interval() {
    let mut rng = StdRng::seed_from_u64(29);
    let mut seen = Vec::new();
    for _ in 0..200 {
        let v = mutate_parameter(7.0, ALWAYS, &mut rng, &unit);
        assert!(v >= 0.0 && v < 1.0);
        seen.push(v);
    }
    seen.dedup();
    assert!(seen.len() > 100);
    assert_eq!(mutate_parameter(7.0, NEVER, &mut rng, &unit), 7.0);
}

#[test]
fn lots_decide_a_parameter() {
    let third = Fraction { numerator: 1, denominator: 3 };
    assert_eq!(resolve_parameter(7.0, third, 0, 0, &unit), 0.0);
    assert_eq!(resolve_parameter(7.0, third, 0, DRAW_RESOLUTION / 2, &unit), 0.5);
    assert_eq!(resolve_parameter(7.0, third, 0, DRAW_RESOLUTION / 4 * 3, &unit), 0.75);
    assert_eq!(resolve_parameter(7.0, third, 1, DRAW_RESOLUTION / 2, &unit), 7.0);
    assert_eq!(resolve_parameter(7.0, third, 2, DRAW_RESOLUTION / 2, &unit), 7.0);
    assert_eq!(resolve_parameter(7.0, ALWAYS, 0, DRAW_RESOLUTION - 1, &unit), 1.0 - f64::EPSILON / 2.0);
}

#[test]
fn merge_averages_each_parameter() {
    let g = population(&[0, 0, 0]);
    let merged = g.merge_brains(&vec![0, 2], &mean);
    // Brains 0 and 2 are brain(0, 0) and brain(1, 0.5).
    assert_eq!(merged.layers.len(), 2);
    assert_eq!(merged.layers[0].input_dim, 2);
    assert_eq!(merged.layers[0].output_dim, 3);
    assert_eq!(merged.layers[0].activation, ActivationFunction::Relu);
    assert_eq!(merged.layers[0].weights, vec![vec![0.5, 0.625, 0.75], vec![-0.5, -0.625, -0.75]]);
    assert_eq!(merged.layers[0].biases, vec![0.25, 0.75, 1.25]);
    assert_eq!(merged.layers[1].weights, vec![vec![0.25], vec![0.125], vec![0.0625]]);
    assert_eq!(merged.layers[1].biases, vec![-0.25]);
    assert_eq!(merged.layers[1].activation, ActivationFunction::Sigmoid);
    let alone = g.merge_brains(&vec![1], &mean);
    assert_eq!(parameters(&alone), parameters(&g.population[1].brain));
}

#[test]
fn evolve_merges_the_near_best_and_hands_the_champion_out() {
    let mut rng = StdRng::seed_from_u64(31);
    let mut g = population(&[10, 9, 5, 10]);
    g.population[2].moves_left = 0;
    let champion = g.merge_brains(&vec![0, 1, 3], &mean);
    let report = g.evolve(Fraction { numerator: 1, denominator: 5 }, NEVER, &mut rng, &mean, &unit);
    assert_eq!(report, (10, 8, 3));
    assert_eq!(g.population.len(), 4);
    for m in g.population.iter() {
        assert_eq!(parameters(&m.brain), parameters(&champion));
    }
    // Brains 0, 1 and 3 start from 0, 0.5 and 1.5: their mean is 2/3.
    assert_eq!(g.population[0].brain.layers[0].weights[0][0], (0.0 + 0.5 + 1.5) / 3.0);
    assert_eq!(g.population[0].score, 10);
    assert_eq!(g.population[2].score, 5);
    assert_eq!(g.population[2].moves_left, 0);
    assert_eq!(g.population[3].id, 3);
}

#[test]
fn evolve_mutates_each_brain_on_its_own() {
    let mut rng = StdRng::seed_from_u64(37);
    let mut g = population(&[1, 4, 2]);
    let report = g.evolve(NEVER, ALWAYS, &mut rng, &mean, &marked);
    assert_eq!(report, (4, 2, 1));
    let first = parameters(&g.population[0].brain);
    let second = parameters(&g.population[1].brain);
    assert!(first.iter().all(|p| *p >= 2.0 && *p <= 3.0));
    assert!(second.iter().all(|p| *p >= 2.0 && *p <= 3.0));
    assert_ne!(first, second);
    assert_eq!(g.population[2].brain.layers.len(), 2);
    assert_eq!(g.population[2].brain.layers[0].weights[1].len(), 3);
}

#[test]
fn controller_brain_has_the_fixed_shape() {
    let mut rng = StdRng::seed_from_u64(41);
    let n = NeuralNetwork::random_controller_brain(&mut rng, &unit);
    assert_eq!(n.layers.len(), 3);
    let dims: Vec<(usize, usize)> = n.layers.iter().map(|l| (l.input_dim, l.output_dim)).collect();
    assert_eq!(dims, vec![(16, 16), (16, 16), (16, 4)]);
    assert_eq!((VISION_SIZE, HIDDEN_SIZE, ACTION_COUNT), (16, 16, 4));
    for l in n.layers.iter() {
        assert_eq!(l.weights.len(), l.input_dim);
        assert!(l.weights.iter().all(|row| row.len() == l.output_dim));
        assert_eq!(l.biases.len(), l.output_dim);
    }
    assert_eq!(n.layers[0].activation, ActivationFunction::Identity);
    assert_eq!(n.layers[1].activation, ActivationFunction::Identity);
    assert_eq!(n.layers[2].activation, ActivationFunction::Softmax);
    let all = parameters(&n);
    assert_eq!(all.len(), 16 * 16 + 16 + 16 * 16 + 16 + 16 * 4 + 4);
    assert!(all.iter().all(|p| *p >= 0.0 && *p < 1.0));
}

#[test]
fn random_layer_has_the_asked_shape() {
    let mut rng = StdRng::seed_from_u64(43);
    let l = Layer::random(3, 2, ActivationFunction::Relu, &mut rng, &marked);
    assert_eq!((l.input_dim, l.output_dim), (3, 2));
    assert_eq!(l.weights.len(), 3);
    assert!(l.weights.iter().all(|row| row.len() == 2));
    assert_eq!(l.biases.len(), 2);
    assert!(l.weights.iter().flatten().all(|p| *p >= 2.0 && *p <= 3.0));
}

#[test]
fn setup_builds_a_first_generation() {
    let mut rng = StdRng::seed_from_u64(47);
    let g = setup_simulation(8, 6, 30, 5, 4, &mut rng, &unit).unwrap();
    assert_eq!(g.population.len(), 5);
    for (i, m) in g.population.iter().enumerate() {
        assert_eq!(m.id, i);
        assert_eq!(m.score, 0);
        assert_eq!(m.moves_left, 30);
        assert_eq!(m.allowed_moves_number, 30);
        assert_eq!((m.universe.width, m.universe.height), (8, 6));
        assert_eq!(m.universe.snakes.len(), 1);
        assert_eq!(m.universe.snakes[0].positions, vec![(4, 3)]);
        assert_eq!(m.universe.food.len(), 4);
        assert_eq!(m.brain.layers.len(), 3);
    }
    assert_ne!(parameters(&g.population[0].brain), parameters(&g.population[1].brain));
    assert!(!g.is_finished());
}

#[test]
fn setup_reports_too_much_food() {
    let mut rng = StdRng::seed_from_u64(47);
    let full = setup_simulation(2, 2, 30, 3, 3, &mut rng, &unit);
    assert!(full.is_ok());
    let crowded = setup_simulation(2, 2, 30, 3, 4, &mut rng, &unit);
    assert_eq!(crowded.err(), Some(SnakeException::GridFull));
    let nobody = setup_simulation(2, 2, 30, 0, 4, &mut rng, &unit).unwrap();
    assert!(nobody.population.is_empty());
}

#[test]
fn population_reset_starts_every_controller_again() {
    let mut rng = StdRng::seed_from_u64(53);
    let mut g = population(&[3, 1]);
    g.population[0].moves_left = 0;
    assert_eq!(g.reset(12, 2, &mut rng), Ok(()));
    for m in g.population.iter() {
        assert_eq!(m.score, 0);
        assert_eq!(m.moves_left, 12);
        assert_eq!(m.universe.snakes[0].positions, vec![(2, 2)]);
        assert_eq!(m.universe.food.len(), 2);
    }
    assert_eq!(g.reset(12, 25, &mut rng), Err(SnakeException::GridFull));
    assert_eq!(g.population[0].universe.food.len(), 24);
    assert_eq!(g.population[1].universe.food.len(), 2);
}

#[test]
fn shapes_are_compared_part_by_part() {
    let a = brain(1.0, 2.0);
    let b = brain(-3.0, 0.5);
    assert!(a.same_shape(&b));
    assert!(a.layers[0].same_shape(&b.layers[0]));
    assert!(!a.layers[0].same_shape(&a.layers[1]));
    let mut short = brain(1.0, 2.0);
    short.layers.pop();
    assert!(!a.same_shape(&short));
    let mut ragged = brain(1.0, 2.0);
    ragged.layers[0].weights[1].pop();
    assert!(!a.same_shape(&ragged));
    let mut other = brain(1.0, 2.0);
    other.layers[1].activation = ActivationFunction::Relu;
    assert!(!a.same_shape(&other));
}

#[test]
fn a_population_of_one_shape_is_uniform() {
    let mut g = population(&[1, 2, 3]);
    assert!(g.is_uniform());
    g.population[2].brain.layers[1].biases.push(0.0);
    assert!(!g.is_uniform());
    let nobody = population(&[]);
    assert!(nobody.is_uniform());
}
