use ai_snake::direction::Direction;
use ai_snake::genetic::GeneticModel;
use ai_snake::snake::Snake;
use ai_snake::universe::Food;
use rand::rngs::StdRng;
use rand::SeedableRng;
use std::cell::Cell;

fn one(cells: Vec<(u64, u64)>, direction: Direction, moves: u64) -> GeneticModel<u8> {
    let mut g = GeneticModel::new(5, 5, moves, 1, vec![0u8]);
    g.population[0].add_snake(Snake { id: 0, direction, positions: cells });
    g
}

#[test]
fn a_tick_that_eats() {
    let mut rng = StdRng::seed_from_u64(61);
    let mut g = one(vec![(2, 2)], Direction::Up, 3);
    g.population[0].universe.food.push(Food(2, 3));
    let finished = g.run_tick(5, |_: &u8, _: &Vec<u64>| [5, 0, 0, 0], &mut rng);
    assert!(!finished);
    let m = &g.population[0];
    assert_eq!(m.score, 1);
    assert_eq!(m.universe.snakes[0].positions.len(), 2);
    assert_eq!(m.universe.snakes[0].positions, vec![(2, 3), (2, 2)]);
    assert_eq!(m.universe.food.len(), 1);
    assert_ne!(m.universe.food[0], Food(2, 3));
    assert_ne!(m.universe.food[0], Food(2, 2));
    assert_eq!(m.moves_left, 3);
}

#[test]
fn a_dead_controller_is_not_asked_again() {
    let mut rng = StdRng::seed_from_u64(61);
    let mut g = one(vec![(2, 2), (1, 2), (2, 3)], Direction::Right, 8);
    let calls = Cell::new(0);
    let decide = |_: &u8, input: &Vec<u64>| {
        assert_eq!(input.len(), 16);
        calls.set(calls.get() + 1);
        [5, 0, 0, 0]
    };
    assert!(!g.run_tick(5, &decide, &mut rng));
    assert_eq!(calls.get(), 1);
    assert!(g.population[0].universe.snakes.is_empty());
    assert_eq!(g.population[0].moves_left, 0);
    assert_eq!(g.population[0].compute_input(5), None);
    assert!(g.run_tick(5, &decide, &mut rng));
    assert!(g.run_tick(5, &decide, &mut rng));
    assert_eq!(calls.get(), 1);
    assert!(g.is_finished());
}

#[test]
fn the_brain_sees_what_compute_input_gives() {
    let mut rng = StdRng::seed_from_u64(61);
    let mut g = one(vec![(2, 2)], Direction::Up, 3);
    g.population[0].universe.food.push(Food(4, 2));
    let expected = g.population[0].compute_input(4).unwrap();
    let seen = Cell::new(false);
    let decide = |brain: &u8, input: &Vec<u64>| {
        assert_eq!(*brain, 0);
        assert_eq!(input, &expected);
        seen.set(true);
        [0, 0, 0, 5]
    };
    g.run_tick(4, &decide, &mut rng);
    assert!(seen.get());
    assert_eq!(g.population[0].universe.snakes[0].positions, vec![(3, 2)]);
    assert_eq!(g.population[0].moves_left, 2);
}

#[test]
fn a_generation_runs_out_of_moves() {
    let mut rng = StdRng::seed_from_u64(67);
    let mut g = GeneticModel::new(9, 9, 2, 3, vec![0usize, 1, 2]);
    assert_eq!(g.reset(2, 0, &mut rng), Ok(()));
    // Each brain is the place of the heading it always asks for; none asks for Down.
    let decide = |brain: &usize, _: &Vec<u64>| {
        let mut out = [0i64; 4];
        out[if *brain == 1 { 3 } else { *brain }] = 1;
        out
    };
    assert!(!g.run_tick(3, decide, &mut rng));
    assert!(!g.run_tick(3, decide, &mut rng));
    assert_eq!(g.population[0].universe.snakes[0].positions, vec![(4, 6)]);
    assert_eq!(g.population[1].universe.snakes[0].positions, vec![(6, 4)]);
    assert_eq!(g.population[2].universe.snakes[0].positions, vec![(2, 4)]);
    assert!(g.is_finished());
    assert!(g.run_tick(3, decide, &mut rng));
    assert!(g.population.iter().all(|m| m.universe.snakes.is_empty()));
    assert!(g.population.iter().all(|m| m.moves_left == 0 && m.score == 0));
}
