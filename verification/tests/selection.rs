use ai_snake::activation::ActivationFunction;
use ai_snake::fraction::Fraction;
use ai_snake::genetic::GeneticModel;
use ai_snake::selection::eligible;

fn population(scores: &[u32]) -> GeneticModel<()> {
    let mut g = GeneticModel::new(5, 5, 10, scores.len() as u64, vec![(); scores.len()]);
    for (i, s) in scores.iter().enumerate() {
        g.population[i].score = *s;
    }
    g
}

#[test]
fn new_population_is_numbered() {
    let brains = vec![vec![0.1], vec![0.2], vec![0.3], vec![0.4]];
    let g = GeneticModel::new(6, 4, 9, 3, brains.clone());
    assert_eq!(g.population.len(), 3);
    for (i, m) in g.population.iter().enumerate() {
        assert_eq!(m.id, i);
        assert_eq!(m.brain, brains[i]);
        assert!(m.universe.snakes.is_empty());
        assert_eq!(m.moves_left, 9);
        assert_eq!(m.universe.width, 6);
        assert_eq!(m.universe.height, 4);
        assert_eq!(m.score, 0);
    }
}

#[test]
fn selection_keeps_the_near_best() {
    let g = population(&[10, 9, 5, 10]);
    let s = g.select(Fraction { numerator: 1, denominator: 5 });
    assert_eq!(s.best_score, 10);
    assert_eq!(s.eligible, vec![0, 1, 3]);
    assert_eq!(s.eligible.len(), 3);
    assert_eq!(s.average_score, 8);
}

#[test]
fn eligibility_is_exact() {
    let fifth = Fraction { numerator: 1, denominator: 5 };
    assert!(eligible(8, 10, fifth));
    assert!(!eligible(7, 10, fifth));
    assert!(eligible(10, 10, fifth));
    let fiftieth = Fraction { numerator: 2, denominator: 100 };
    assert!(!eligible(9, 10, fiftieth));
    assert!(eligible(98, 100, fiftieth));
    assert!(!eligible(97, 100, fiftieth));
    // A bound with a fraction is not rounded down: 8 is below 0.9 * 9.
    assert!(!eligible(8, 9, Fraction { numerator: 1, denominator: 10 }));
    assert!(eligible(u32::MAX, u32::MAX, Fraction { numerator: 0, denominator: u64::MAX }));
    assert!(!eligible(u32::MAX - 1, u32::MAX, Fraction { numerator: 0, denominator: u64::MAX }));
}

#[test]
fn margin_extremes() {
    let g = population(&[3, 7, 7, 0]);
    let none = g.select(Fraction { numerator: 0, denominator: 1 });
    assert_eq!(none.eligible, vec![1, 2]);
    let all = g.select(Fraction { numerator: 1, denominator: 1 });
    assert_eq!(all.eligible, vec![0, 1, 2, 3]);
}

#[test]
fn zero_best_makes_everyone_eligible() {
    let g = population(&[0, 0, 0]);
    let s = g.select(Fraction { numerator: 2, denominator: 100 });
    assert_eq!(s.best_score, 0);
    assert_eq!(s.average_score, 0);
    assert_eq!(s.eligible, vec![0, 1, 2]);
}

#[test]
fn average_is_rounded_down() {
    let g = population(&[1, 2, 2]);
    assert_eq!(g.select(Fraction { numerator: 0, denominator: 1 }).average_score, 1);
    let h = population(&[u32::MAX, u32::MAX, u32::MAX - 1]);
    let s = h.select(Fraction { numerator: 0, denominator: 1 });
    assert_eq!(s.average_score, u32::MAX - 1);
    assert_eq!(s.best_score, u32::MAX);
}

#[test]
fn empty_population_selects_nothing() {
    let g = population(&[]);
    let s = g.select(Fraction { numerator: 1, denominator: 2 });
    assert_eq!(s.best_score, 0);
    assert_eq!(s.average_score, 0);
    assert!(s.eligible.is_empty());
    assert!(g.is_finished());
}

#[test]
fn generation_ends_when_no_move_is_left() {
    let mut g = population(&[1, 2]);
    assert!(!g.is_finished());
    g.population[0].moves_left = 0;
    assert!(!g.is_finished());
    g.population[1].moves_left = 0;
    assert!(g.is_finished());
}

#[test]
fn activation_names() {
    assert_eq!(ActivationFunction::Identity.name(), "identity");
    assert_eq!(ActivationFunction::Relu.name(), "relu");
    assert_eq!(ActivationFunction::Sigmoid.name(), "sigmoid");
    assert_eq!(ActivationFunction::Softmax.name(), "softmax");
}
