use ai_snake::direction::Direction;
use ai_snake::model::{argmax, decode, Model};
use ai_snake::snake::{Snake, SnakeException};
use ai_snake::universe::Food;
use rand::rngs::StdRng;
use rand::SeedableRng;

const UP: [i64; 4] = [9, 1, 1, 1];
const DOWN: [i64; 4] = [1, 9, 1, 1];
const LEFT: [i64; 4] = [1, 1, 9, 1];
const RIGHT: [i64; 4] = [1, 1, 1, 9];

fn controller(cells: Vec<(u64, u64)>, direction: Direction, moves: u64) -> Model<()> {
    let mut m = Model::new(5, 5, moves, 0, ());
    m.add_snake(Snake { id: 0, direction, positions: cells });
    m
}

#[test]
fn argmax_takes_the_first_maximum() {
    assert_eq!(argmax(&[3, 3, 3, 3]), 0);
    assert_eq!(argmax(&[1, 5, 5, 2]), 1);
    assert_eq!(argmax(&[-4, -9, -4, -4]), 0);
    assert_eq!(argmax(&[0, 0, 0, 1]), 3);
    assert_eq!(argmax(&[i64::MIN, i64::MIN, i64::MAX, i64::MAX]), 2);
}

#[test]
fn decode_follows_the_table() {
    assert_eq!(decode(&UP), Direction::Up);
    assert_eq!(decode(&DOWN), Direction::Down);
    assert_eq!(decode(&LEFT), Direction::Left);
    assert_eq!(decode(&RIGHT), Direction::Right);
    assert_eq!(decode(&[7, 7, 7, 7]), Direction::Up);
    assert_eq!(decode(&[1, 2, 8, 8]), Direction::Left);
}

#[test]
fn new_controller_has_no_body() {
    let m = Model::new(5, 4, 12, 7, vec![0.5, -1.0]);
    assert_eq!(m.brain, vec![0.5, -1.0]);
    assert_eq!(m.universe.width, 5);
    assert_eq!(m.universe.height, 4);
    assert!(m.universe.snakes.is_empty());
    assert!(m.universe.food.is_empty());
    assert_eq!(m.score, 0);
    assert_eq!(m.moves_left, 12);
    assert_eq!(m.allowed_moves_number, 12);
    assert_eq!(m.id, 7);
    assert_eq!(m.compute_input(4), None);
}

#[test]
fn vision_on_an_open_grid_sees_the_walls() {
    let m = controller(vec![(2, 2)], Direction::Up, 3);
    let input = m.compute_input(5).unwrap();
    assert_eq!(input, vec![2, 0, 2, 0, 2, 0, 2, 0, 2, 0, 2, 0, 2, 0, 2, 0]);
}

#[test]
fn vision_is_ordered_by_ray_then_kind() {
    let mut m = controller(vec![(1, 2), (1, 1), (2, 1)], Direction::Up, 3);
    m.universe.food.push(Food(1, 4));
    m.universe.food.push(Food(3, 0));
    m.universe.food.push(Food(4, 2));
    m.universe.food.push(Food(0, 3));
    let input = m.compute_input(4).unwrap();
    // Rays in turn: (-1,-1) (-1,0) (-1,1) (0,-1) (0,1) (1,-1) (1,0) (1,1).
    assert_eq!(
        input,
        vec![
            2, 0, // walls at distance 2
            2, 0, // wall at distance 2
            2, 3, // wall at distance 2, food at (0, 3)
            3, 0, // own body at (1, 1)
            1, 2, // wall at distance 3, food at (1, 4)
            3, 2, // own body at (2, 1), food at (3, 0)
            0, 1, // wall at distance 4, food at (4, 2)
            1, 0, // wall at distance 3
        ]
    );
}

#[test]
fn vision_with_short_sight() {
    let mut m = controller(vec![(2, 2)], Direction::Up, 3);
    m.universe.food.push(Food(2, 3));
    m.universe.food.push(Food(4, 2));
    assert_eq!(m.compute_input(0).unwrap(), vec![0; 16]);
    let near = m.compute_input(1).unwrap();
    assert_eq!(near, vec![0; 16]);
    let two = m.compute_input(2).unwrap();
    assert_eq!(two, vec![0, 0, 0, 0, 0, 0, 0, 0, 0, 1, 0, 0, 0, 0, 0, 0]);
    let three = m.compute_input(3).unwrap();
    assert_eq!(three, vec![0, 0, 0, 0, 0, 0, 0, 0, 0, 2, 0, 0, 0, 1, 0, 0]);
}

#[test]
fn eating_scores_grows_and_costs_no_move() {
    let mut rng = StdRng::seed_from_u64(3);
    let mut m = controller(vec![(2, 2)], Direction::Up, 3);
    m.universe.food.push(Food(2, 3));
    m.update_position(&UP, &mut rng);
    assert_eq!(m.score, 1);
    assert_eq!(m.universe.snakes[0].positions, vec![(2, 3), (2, 2)]);
    assert_eq!(m.moves_left, 3);
    assert_eq!(m.universe.food.len(), 1);
    let fresh = m.universe.food[0];
    assert!(fresh.0 < 5 && fresh.1 < 5);
    assert_ne!(fresh, Food(2, 3));
    assert_ne!(fresh, Food(2, 2));
}

#[test]
fn running_into_itself_retires_the_controller() {
    let mut rng = StdRng::seed_from_u64(3);
    let mut m = controller(vec![(2, 2), (1, 2), (2, 3)], Direction::Right, 6);
    m.score = 2;
    m.update_position(&UP, &mut rng);
    assert!(m.universe.snakes.is_empty());
    assert_eq!(m.moves_left, 0);
    assert_eq!(m.score, 2);
    assert_eq!(m.compute_input(5), None);
    m.update_position(&UP, &mut rng);
    assert!(m.universe.snakes.is_empty());
    assert_eq!(m.moves_left, 0);
    assert_eq!(m.score, 2);
}

#[test]
fn running_into_a_wall_retires_the_controller() {
    let mut rng = StdRng::seed_from_u64(3);
    let mut m = controller(vec![(4, 2)], Direction::Up, 6);
    m.update_position(&RIGHT, &mut rng);
    assert!(m.universe.snakes.is_empty());
    assert_eq!(m.moves_left, 0);
}

#[test]
fn a_plain_move_costs_one() {
    let mut rng = StdRng::seed_from_u64(3);
    let mut m = controller(vec![(2, 2)], Direction::Up, 2);
    m.universe.food.push(Food(0, 0));
    m.update_position(&LEFT, &mut rng);
    assert_eq!(m.universe.snakes[0].positions, vec![(1, 2)]);
    assert_eq!(m.moves_left, 1);
    assert_eq!(m.score, 0);
    assert_eq!(m.universe.food, vec![Food(0, 0)]);
    m.update_position(&UP, &mut rng);
    assert_eq!(m.universe.snakes[0].positions, vec![(1, 3)]);
    assert_eq!(m.moves_left, 0);
    m.update_position(&UP, &mut rng);
    assert!(m.universe.snakes.is_empty());
    assert_eq!(m.moves_left, 0);
    assert_eq!(m.compute_input(3), None);
}

#[test]
fn a_reversal_changes_nothing() {
    let mut rng = StdRng::seed_from_u64(3);
    let mut m = controller(vec![(2, 2), (2, 1)], Direction::Up, 4);
    m.universe.food.push(Food(0, 0));
    m.update_position(&DOWN, &mut rng);
    assert_eq!(m.universe.snakes[0].positions, vec![(2, 2), (2, 1)]);
    assert_eq!(m.universe.snakes[0].direction, Direction::Up);
    assert_eq!(m.moves_left, 4);
    assert_eq!(m.score, 0);
    assert_eq!(m.universe.food, vec![Food(0, 0)]);
}

#[test]
fn apply_move_tells_when_food_is_due() {
    let mut m = controller(vec![(2, 2)], Direction::Up, 3);
    m.universe.food.push(Food(3, 3));
    assert!(!m.apply_move(Direction::Up));
    assert!(m.apply_move(Direction::Right));
    assert_eq!(m.universe.snakes[0].positions, vec![(3, 3), (2, 3)]);
    assert!(m.universe.food.is_empty());
    assert_eq!(m.score, 1);
    assert_eq!(m.moves_left, 2);
}

#[test]
fn score_stops_at_its_ceiling() {
    let mut m = controller(vec![(2, 2)], Direction::Up, 3);
    m.score = u32::MAX;
    m.universe.food.push(Food(2, 3));
    assert!(m.apply_move(Direction::Up));
    assert_eq!(m.score, u32::MAX);
}

#[test]
fn reset_starts_a_generation() {
    let mut rng = StdRng::seed_from_u64(8);
    let mut m = controller(vec![(0, 0), (0, 1)], Direction::Left, 1);
    m.score = 4;
    m.moves_left = 0;
    m.universe.food.push(Food(2, 2));
    assert_eq!(m.reset(7, 3, &mut rng), Ok(()));
    assert_eq!(m.score, 0);
    assert_eq!(m.moves_left, 7);
    assert_eq!(m.allowed_moves_number, 7);
    assert_eq!(m.universe.snakes.len(), 1);
    assert_eq!(m.universe.snakes[0].positions, vec![(2, 2)]);
    assert_eq!(m.universe.snakes[0].direction, Direction::Up);
    assert_eq!(m.universe.food.len(), 3);
    for (i, f) in m.universe.food.iter().enumerate() {
        assert!(f.0 < 5 && f.1 < 5);
        assert_ne!(*f, Food(2, 2));
        assert!(!m.universe.food[..i].contains(f));
    }
    assert!(m.compute_input(3).is_some());
}

#[test]
fn reset_reports_a_crowded_grid() {
    let mut rng = StdRng::seed_from_u64(8);
    let mut m = Model::new(2, 2, 5, 0, ());
    assert_eq!(m.reset(5, 3, &mut rng), Ok(()));
    assert_eq!(m.universe.food.len(), 3);
    assert_eq!(m.reset(5, 4, &mut rng), Err(SnakeException::GridFull));
    assert_eq!(m.universe.food.len(), 3);
    assert_eq!(m.universe.snakes[0].positions, vec![(1, 1)]);
    assert_eq!(m.moves_left, 5);
}

#[test]
fn vision_from_a_corner() {
    let mut m = Model::new(5, 5, 3, 0, ());
    m.add_snake(Snake { id: 0, direction: Direction::Up, positions: vec![(0, 0), (1, 0)] });
    m.universe.food.push(Food(3, 3));
    m.universe.food.push(Food(0, 4));
    let input = m.compute_input(6).unwrap();
    assert_eq!(
        input,
        vec![
            5, 0, // off the grid at once
            5, 0, // off the grid at once
            5, 0, // off the grid at once
            5, 0, // off the grid at once
            1, 2, // wall at distance 5, food at (0, 4)
            5, 0, // off the grid at once
            5, 0, // own body at (1, 0)
            1, 3, // wall at distance 5, food at (3, 3)
        ]
    );
}

#[test]
fn a_meal_that_fills_the_grid_brings_no_new_food() {
    let mut rng = StdRng::seed_from_u64(3);
    let mut m = Model::new(1, 2, 3, 0, ());
    m.add_snake(Snake { id: 0, direction: Direction::Up, positions: vec![(0, 0)] });
    m.universe.food.push(Food(0, 1));
    m.update_position(&UP, &mut rng);
    assert_eq!(m.score, 1);
    assert_eq!(m.universe.snakes[0].positions, vec![(0, 1), (0, 0)]);
    assert!(m.universe.food.is_empty());
    assert_eq!(m.moves_left, 3);
}
