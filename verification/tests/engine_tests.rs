use polyvolve::engine::{
    accept_threshold_micro, sa_accept_decision, temperature_update, AlgorithmConfig,
    AlgorithmState, AlgorithmType, StrategyState, TEMP_FLOOR_MICRO, TEMP_RESET_MICRO,
};
use polyvolve::rng::RandomSource;
use polyvolve::scoring::Metric;

fn black_target(width: usize, height: usize) -> Vec<u8> {
    vec![0u8, 0, 0, 255].repeat(width * height)
}

fn config(kind: AlgorithmType) -> AlgorithmConfig {
    let mut c = AlgorithmConfig::default();
    c.algorithm_type = kind;
    c.max_iterations = 10;
    c.es_children_per_parent = 2;
    c.population_size = 4;
    c
}

#[test]
fn annealing_always_accepts_improvements() {
    // A positive score delta is accepted whatever the draw.
    for draw in [0u64, 1, 999999] {
        assert!(sa_accept_decision(10, 9, 100, 1000000, draw));
        assert!(sa_accept_decision(1000, 0, 100, 1, draw));
    }
}

#[test]
fn annealing_zero_delta_threshold_is_one() {
    // exp(0) = 1: any draw below one million accepts.
    assert_eq!(accept_threshold_micro(0, 1000, 500000), 1000000);
    assert!(sa_accept_decision(5, 5, 1000, 500000, 999999));
}

#[test]
fn annealing_threshold_shrinks_with_deficit() {
    let den = 1000u64;
    let temp = 1000000u64;
    let small = accept_threshold_micro(1, den, temp);
    let large = accept_threshold_micro(900, den, temp);
    assert!(small <= 1000000);
    assert!(large < small);
}

#[test]
fn temperature_decreases_then_resets_at_floor() {
    // Strict decrease above the floor.
    let mut t = 1000000u64;
    let cooling = 900000u64;
    for _ in 0..20 {
        let next = temperature_update(t, cooling);
        assert!(next < t || next == TEMP_RESET_MICRO);
        assert!(next >= TEMP_FLOOR_MICRO);
        t = next;
    }
    // One step below the floor resets rather than underflowing.
    assert_eq!(temperature_update(TEMP_FLOOR_MICRO, 900000), TEMP_RESET_MICRO);
    assert_eq!(temperature_update(111, 900000), TEMP_RESET_MICRO);
}

#[test]
fn step_batch_zero_performs_no_iterations() {
    let rng = RandomSource::from_seed(1);
    let mut engine = AlgorithmState::new(
        black_target(2, 2),
        2,
        2,
        config(AlgorithmType::EvolutionStrategy),
        rng,
    );
    let before = engine.get_accuracy();
    let (finished, buf) = engine.step_batch(0);
    assert!(!finished);
    assert_eq!(engine.get_iteration(), 0);
    assert_eq!(engine.get_accuracy(), before);
    assert_eq!(buf.data.len(), 16);
}

#[test]
fn zero_max_iterations_finishes_immediately() {
    let rng = RandomSource::from_seed(2);
    let mut c = config(AlgorithmType::SimulatedAnnealing);
    c.max_iterations = 0;
    let mut engine = AlgorithmState::new(black_target(2, 2), 2, 2, c, rng);
    assert!(!engine.is_finished());
    let (finished, _) = engine.step_batch(5);
    assert!(finished);
    assert_eq!(engine.get_iteration(), 0);
    assert!(engine.is_finished());
    // Further steps are frozen no-ops.
    let it = engine.get_iteration();
    let (finished2, _) = engine.step_batch(3);
    assert!(finished2);
    assert_eq!(engine.get_iteration(), it);
}

#[test]
fn batch_stops_at_max_iterations() {
    let rng = RandomSource::from_seed(3);
    let mut c = config(AlgorithmType::SimulatedAnnealing);
    c.max_iterations = 3;
    c.target_accuracy_micro = 1000000;
    let mut engine = AlgorithmState::new(black_target(2, 2), 2, 2, c, rng);
    let (_, _) = engine.step_batch(100);
    assert!(engine.get_iteration() <= 3);
}

#[test]
fn differential_population_size_is_invariant() {
    let rng = RandomSource::from_seed(4);
    let mut c = config(AlgorithmType::DifferentialEvolution);
    c.max_iterations = 4;
    c.target_accuracy_micro = 1000000;
    let mut engine = AlgorithmState::new(black_target(2, 2), 2, 2, c, rng);
    for _ in 0..4 {
        engine.step_batch(1);
        match &engine.strategy {
            StrategyState::De { population } => assert_eq!(population.len(), 4),
            _ => panic!("differential evolution state expected"),
        }
    }
}

#[test]
fn best_accuracy_never_decreases() {
    for kind in [
        AlgorithmType::EvolutionStrategy,
        AlgorithmType::SimulatedAnnealing,
        AlgorithmType::DifferentialEvolution,
    ] {
        let rng = RandomSource::from_seed(5);
        let mut c = config(kind);
        c.max_iterations = 6;
        c.target_accuracy_micro = 1000000;
        let mut engine = AlgorithmState::new(black_target(2, 2), 2, 2, c, rng);
        let mut last = engine.get_accuracy();
        for _ in 0..6 {
            engine.step_batch(1);
            let now = engine.get_accuracy();
            assert!((now.num as u128) * (last.den as u128) >= (last.num as u128) * (now.den as u128));
            last = now;
        }
    }
}

#[test]
fn getters_report_construction_values() {
    let rng = RandomSource::from_seed(6);
    let engine = AlgorithmState::new(
        black_target(3, 2),
        3,
        2,
        config(AlgorithmType::EvolutionStrategy),
        rng,
    );
    assert_eq!(engine.get_dimensions(), (3, 2));
    assert_eq!(engine.get_iteration(), 0);
    assert!(!engine.is_finished());
    let acc = engine.get_accuracy();
    assert!(acc.num <= acc.den && acc.den >= 1);
}

#[test]
fn default_config_matches_documented_values() {
    let c = AlgorithmConfig::default();
    assert_eq!(c.max_iterations, 100000);
    assert_eq!(c.target_accuracy_micro, 950000);
    assert_eq!(c.algorithm_type, AlgorithmType::EvolutionStrategy);
    assert_eq!(c.metric, Metric::Sad);
    assert_eq!(c.es_children_per_parent, 5);
    assert_eq!(c.initial_temp_micro, 1000000);
    assert_eq!(c.cooling_rate_micro, 999950);
    assert_eq!(c.population_size, 6);
    assert_eq!(c.mutation_factor_micro, 800000);
    assert_eq!(c.crossover_rate_micro, 900000);
}

#[test]
fn black_target_run_reaches_perfect_accuracy() {
    // A mid-run target check: with an all-black opaque target and the ES
    // strategy, a run that happens to paint everything black scores 1.
    let rng = RandomSource::from_seed(20);
    let mut c = config(AlgorithmType::EvolutionStrategy);
    c.max_iterations = 5;
    let mut engine = AlgorithmState::new(black_target(2, 2), 2, 2, c, rng);
    let (_, buf) = engine.step_batch(2);
    assert_eq!(buf.data.len(), 16);
    let acc = engine.get_accuracy();
    assert!(acc.num <= acc.den);
}

#[test]
fn random_source_draws_are_bounded() {
    let mut rng = RandomSource::from_seed(21);
    for _ in 0..1000 {
        assert!(rng.next_below(1) == 0);
        assert!(rng.next_below(17) < 17);
        assert!(rng.next_micro() < 1000000);
        let d = rng.next_delta(5);
        assert!(-5 <= d && d <= 5);
    }
}

#[test]
fn annealing_temperature_stays_at_or_above_floor() {
    let rng = RandomSource::from_seed(22);
    let mut c = config(AlgorithmType::SimulatedAnnealing);
    c.max_iterations = 30;
    c.target_accuracy_micro = 1000000;
    c.initial_temp_micro = 150; // close to the floor, so the reset fires
    c.cooling_rate_micro = 500000;
    let mut engine = AlgorithmState::new(black_target(2, 2), 2, 2, c, rng);
    for _ in 0..10 {
        engine.step_batch(1);
        match &engine.strategy {
            StrategyState::Sa { temperature, .. } => {
                assert!(*temperature >= TEMP_FLOOR_MICRO);
            }
            _ => panic!("simulated annealing state expected"),
        }
    }
}

#[test]
fn step_batch_returns_rendering_of_best_parent() {
    let rng = RandomSource::from_seed(23);
    let mut engine = AlgorithmState::new(
        black_target(2, 2),
        2,
        2,
        config(AlgorithmType::EvolutionStrategy),
        rng,
    );
    let (_, buf) = engine.step_batch(2);
    let expected = match &engine.strategy {
        StrategyState::Es { parents, .. } => polyvolve::renderer::render_image(&parents[0].1),
        _ => panic!("evolution-strategy state expected"),
    };
    assert_eq!(buf.data, expected.data);
}

#[test]
fn engine_runs_under_the_mse_metric() {
    let rng = RandomSource::from_seed(24);
    let mut c = config(AlgorithmType::DifferentialEvolution);
    c.metric = Metric::Mse;
    c.max_iterations = 2;
    c.target_accuracy_micro = 1000000;
    let mut engine = AlgorithmState::new(black_target(2, 2), 2, 2, c, rng);
    let (_, buf) = engine.step_batch(2);
    assert_eq!(buf.data.len(), 16);
    let acc = engine.get_accuracy();
    // An MSE accuracy of a 16-byte buffer is a fraction of 16 * 255 * 255.
    assert_eq!(acc.den, 16 * 65025);
    assert!(acc.num <= acc.den);
}

#[test]
fn annealer_starts_at_configured_temperature() {
    let rng = RandomSource::from_seed(25);
    let mut c = config(AlgorithmType::SimulatedAnnealing);
    c.initial_temp_micro = 123456;
    let engine = AlgorithmState::new(black_target(2, 2), 2, 2, c, rng);
    match &engine.strategy {
        StrategyState::Sa { current_score, best_score, temperature, .. } => {
            assert_eq!(*temperature, 123456);
            assert_eq!(best_score, current_score);
        }
        _ => panic!("simulated annealing state expected"),
    }
}
