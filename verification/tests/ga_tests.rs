use knapsack_ga::{Actor, GaError, GaRng, MutationRate, Population, Row, crossover_pair};
use knapsack_ga::population::dataset_within_bounds;

fn sample_data() -> Vec<Row> {
    vec![(1, 10, 5, 0), (2, 6, 4, 0), (3, 8, 3, 0), (4, 4, 2, 0)]
}

fn actor_from_bits(bits: &[bool]) -> Actor {
    Actor { bitstring: bits.to_vec() }
}

fn sample_population(bitstrings: &[&[bool]], rate: MutationRate, data: Vec<Row>) -> Population {
    let actors: Vec<Actor> = bitstrings.iter().map(|b| actor_from_bits(b)).collect();
    Population { size: actors.len(), actors, mutation_rate: rate, data }
}

#[test]
fn fit_feasible_selection_is_raw_value() {
    let data = sample_data();
    let a = actor_from_bits(&[false, true, true, false]);
    assert_eq!(a.fit(&data, 7), 14);
}

#[test]
fn fit_overshoot_is_penalized_per_unit() {
    let data = sample_data();
    // value 10 + 8 = 18, cost 5 + 3 = 8: one unit over capacity 7.
    let a = actor_from_bits(&[true, false, true, false]);
    assert_eq!(a.fit(&data, 7), 8);
}

#[test]
fn fit_is_floored_at_zero() {
    let data = sample_data();
    // value 28, cost 14: seven units over capacity 7, penalty 70.
    let a = actor_from_bits(&[true, true, true, true]);
    assert_eq!(a.fit(&data, 7), 0);
}

#[test]
fn fit_of_empty_selection_is_zero() {
    let data = sample_data();
    let a = actor_from_bits(&[false, false, false, false]);
    assert_eq!(a.fit(&data, 7), 0);
}

#[test]
fn fit_stays_within_bounds_for_every_candidate() {
    let data = sample_data();
    let total_value: usize = 10 + 6 + 8 + 4;
    for mask in 0..16u32 {
        let bits: Vec<bool> = (0..4).map(|i| mask & (1 << i) != 0).collect();
        let f = Actor { bitstring: bits }.fit(&data, 7);
        assert!(f <= total_value);
    }
}

#[test]
fn fit_non_increasing_as_cost_grows_past_capacity() {
    // Both candidates select a raw value of 10; only the cost differs.
    let data: Vec<Row> = vec![(1, 10, 5, 0), (2, 10, 8, 0)];
    let cheap = actor_from_bits(&[true, false]);
    let dear = actor_from_bits(&[false, true]);
    assert!(dear.fit(&data, 7) <= cheap.fit(&data, 7));
    assert_eq!(cheap.fit(&data, 7), 10);
    assert_eq!(dear.fit(&data, 7), 0);
}

#[test]
fn selection_preserves_population_size() {
    let mut rng = GaRng::new(11);
    let data = sample_data();
    let rate = MutationRate { numer: 1, denom: 4 };
    let mut p = Population::new(7, 4, rate, data, &mut rng).unwrap();
    assert_eq!(p.actors.len(), 7);
    let r = p.roulette_selection(7, &mut rng);
    assert!(r.is_ok());
    assert_eq!(p.actors.len(), 7);
    assert_eq!(p.size, 7);
}

#[test]
fn selection_copies_come_from_old_population() {
    let mut rng = GaRng::new(3);
    let rate = MutationRate { numer: 0, denom: 1 };
    let olds: Vec<Vec<bool>> = vec![
        vec![true, false, true, false],
        vec![false, true, false, true],
        vec![true, true, false, false],
    ];
    let mut p = sample_population(
        &[&olds[0], &olds[1], &olds[2]],
        rate,
        sample_data(),
    );
    let r = p.roulette_selection(7, &mut rng);
    assert!(r.is_ok());
    assert_eq!(p.actors.len(), 3);
    for a in &p.actors {
        assert!(olds.iter().any(|o| *o == a.bitstring));
    }
}

#[test]
fn mutation_with_rate_zero_changes_nothing() {
    let mut rng = GaRng::new(5);
    let rate = MutationRate { numer: 0, denom: 1 };
    let bits: Vec<bool> = vec![true, false, true, true];
    let mut p = sample_population(&[&bits, &bits, &bits], rate, sample_data());
    p.mutate_population(&mut rng);
    for a in &p.actors {
        assert_eq!(a.bitstring, bits);
    }
}

#[test]
fn mutation_with_rate_one_flips_every_bit() {
    let mut rng = GaRng::new(5);
    let rate = MutationRate { numer: 1, denom: 1 };
    let bits: Vec<bool> = vec![true, false, true, false];
    let flipped: Vec<bool> = vec![false, true, false, true];
    let mut p = sample_population(&[&bits, &bits], rate, sample_data());
    p.mutate_population(&mut rng);
    for a in &p.actors {
        assert_eq!(a.bitstring, flipped);
    }
}

#[test]
fn mutation_with_middling_rate_flips_some_bits_only() {
    let mut rng = GaRng::new(9);
    let rate = MutationRate { numer: 1, denom: 2 };
    let data: Vec<Row> = (0..64).map(|i| (i, 1, 1, 0)).collect();
    let bits: Vec<bool> = vec![false; 64];
    let mut p = sample_population(&[&bits], rate, data);
    p.mutate_population(&mut rng);
    let flips = p.actors[0].bitstring.iter().filter(|&&b| b).count();
    assert!(flips > 0, "no bit flipped at rate one half");
    assert!(flips < 64, "every bit flipped at rate one half");
}

#[test]
fn crossover_pair_swaps_the_tail() {
    let a = actor_from_bits(&[true, true, false, false]);
    let b = actor_from_bits(&[false, false, true, true]);
    let (c1, c2) = crossover_pair(&a, &b, 2);
    assert_eq!(c1.bitstring, vec![true, true, true, true]);
    assert_eq!(c2.bitstring, vec![false, false, false, false]);
}

#[test]
fn crossover_pair_at_point_zero_swaps_everything() {
    let a = actor_from_bits(&[true, true, false, false]);
    let b = actor_from_bits(&[false, false, true, true]);
    let (c1, c2) = crossover_pair(&a, &b, 0);
    assert_eq!(c1.bitstring, b.bitstring);
    assert_eq!(c2.bitstring, a.bitstring);
}

#[test]
fn apply_crossover_recombines_complementary_parents() {
    let mut rng = GaRng::new(13);
    let rate = MutationRate { numer: 1, denom: 4 };
    let a: Vec<bool> = vec![true, true, true, true];
    let b: Vec<bool> = vec![false, false, false, false];
    let mut p = sample_population(&[&a, &b], rate, sample_data());
    p.apply_crossover(&mut rng);
    // The parents disagree at every position, so the children must too, and
    // the first child must be all-true up to some point and all-false after.
    let c1 = &p.actors[0].bitstring;
    let c2 = &p.actors[1].bitstring;
    for j in 0..4 {
        assert_ne!(c1[j], c2[j]);
    }
    let k = c1.iter().filter(|&&x| x).count();
    for j in 0..4 {
        assert_eq!(c1[j], j < k);
    }
}

#[test]
fn apply_crossover_leaves_odd_candidate_out_unmodified() {
    let mut rng = GaRng::new(13);
    let rate = MutationRate { numer: 1, denom: 4 };
    let a: Vec<bool> = vec![true, false, true, false];
    let mut p = sample_population(&[&a, &a, &a], rate, sample_data());
    p.apply_crossover(&mut rng);
    assert_eq!(p.actors[2].bitstring, a);
}

#[test]
fn end_to_end_run_finds_the_best_feasible_value() {
    let mut rng = GaRng::new(82);
    let data = sample_data();
    let rate = MutationRate { numer: 1, denom: 4 };
    let mut p = Population::new(50, 4, rate, data, &mut rng).unwrap();
    let history = p.run_evolution(7, 30, &mut rng).unwrap();
    assert_eq!(history.len(), 30);
    let best = history.iter().map(|r| r.best).max().unwrap();
    assert_eq!(best, 14);
    for rec in &history {
        assert!(rec.worst <= rec.best);
        assert!(rec.best <= 28);
        assert!(rec.total <= 50 * rec.best as u128);
        assert!(rec.total >= 50 * rec.worst as u128);
    }
}

#[test]
fn final_record_matches_the_final_population() {
    let mut rng = GaRng::new(17);
    let rate = MutationRate { numer: 1, denom: 4 };
    let mut p = Population::new(12, 4, rate, sample_data(), &mut rng).unwrap();
    let history = p.run_evolution(7, 8, &mut rng).unwrap();
    let fitnesses = p.calculate_chance(7);
    let last = history.last().unwrap();
    assert_eq!(last.best, *fitnesses.iter().max().unwrap());
    assert_eq!(last.worst, *fitnesses.iter().min().unwrap());
    assert_eq!(last.total, fitnesses.iter().map(|&f| f as u128).sum::<u128>());
}

#[test]
fn zero_generations_leave_the_population_unchanged() {
    let mut rng = GaRng::new(21);
    let rate = MutationRate { numer: 1, denom: 4 };
    let mut p = Population::new(6, 4, rate, sample_data(), &mut rng).unwrap();
    let before: Vec<Vec<bool>> = p.actors.iter().map(|a| a.bitstring.clone()).collect();
    let h = p.run_evolution(7, 0, &mut rng).unwrap();
    assert!(h.is_empty());
    let after: Vec<Vec<bool>> = p.actors.iter().map(|a| a.bitstring.clone()).collect();
    assert_eq!(before, after);
}

#[test]
fn identical_seeds_give_identical_histories() {
    let data = sample_data();
    let rate = MutationRate { numer: 1, denom: 4 };

    let mut rng_a = GaRng::new(2024);
    let mut pop_a = Population::new(20, 4, rate, data.clone(), &mut rng_a).unwrap();
    let hist_a = pop_a.run_evolution(7, 15, &mut rng_a).unwrap();

    let mut rng_b = GaRng::new(2024);
    let mut pop_b = Population::new(20, 4, rate, data, &mut rng_b).unwrap();
    let hist_b = pop_b.run_evolution(7, 15, &mut rng_b).unwrap();

    assert_eq!(hist_a, hist_b);
    for (a, b) in pop_a.actors.iter().zip(pop_b.actors.iter()) {
        assert_eq!(a.bitstring, b.bitstring);
    }
}

#[test]
fn different_seeds_give_different_initial_populations() {
    let data = sample_data();
    let rate = MutationRate { numer: 1, denom: 4 };
    let mut rng = GaRng::new(1);
    let p = Population::new(20, 4, rate, data, &mut rng).unwrap();
    let any_true = p.actors.iter().any(|a| a.bitstring.iter().any(|&b| b));
    let any_false = p.actors.iter().any(|a| a.bitstring.iter().any(|&b| !b));
    assert!(any_true, "every initial bit came out clear");
    assert!(any_false, "every initial bit came out set");
}

#[test]
fn all_zero_values_degenerate_on_first_selection() {
    let mut rng = GaRng::new(6);
    let data: Vec<Row> = vec![(1, 0, 5, 0), (2, 0, 4, 0), (3, 0, 3, 0)];
    let rate = MutationRate { numer: 1, denom: 3 };
    let mut p = Population::new(10, 3, rate, data, &mut rng).unwrap();
    let r = p.roulette_selection(7, &mut rng);
    assert_eq!(r, Err(GaError::DegenerateFitnessError));
    assert_eq!(p.actors.len(), 10);
}

#[test]
fn all_zero_values_abort_a_whole_run() {
    let mut rng = GaRng::new(6);
    let data: Vec<Row> = vec![(1, 0, 5, 0), (2, 0, 4, 0)];
    let rate = MutationRate { numer: 1, denom: 2 };
    let mut p = Population::new(4, 2, rate, data, &mut rng).unwrap();
    let r = p.run_evolution(7, 10, &mut rng);
    assert_eq!(r, Err(GaError::DegenerateFitnessError));
}

#[test]
fn zero_generations_yield_an_empty_history() {
    let mut rng = GaRng::new(6);
    let rate = MutationRate { numer: 1, denom: 4 };
    let mut p = Population::new(5, 4, rate, sample_data(), &mut rng).unwrap();
    let h = p.run_evolution(7, 0, &mut rng).unwrap();
    assert!(h.is_empty());
}

#[test]
fn zero_population_size_is_a_configuration_error() {
    let mut rng = GaRng::new(0);
    let rate = MutationRate { numer: 1, denom: 4 };
    let r = Population::new(0, 4, rate, sample_data(), &mut rng);
    assert_eq!(r.err(), Some(GaError::ConfigurationError));
}

#[test]
fn zero_bit_length_is_a_configuration_error() {
    let mut rng = GaRng::new(0);
    let rate = MutationRate { numer: 1, denom: 4 };
    let r = Population::new(5, 0, rate, Vec::new(), &mut rng);
    assert_eq!(r.err(), Some(GaError::ConfigurationError));
}

#[test]
fn mutation_rate_above_one_is_a_configuration_error() {
    let mut rng = GaRng::new(0);
    let rate = MutationRate { numer: 5, denom: 4 };
    let r = Population::new(5, 4, rate, sample_data(), &mut rng);
    assert_eq!(r.err(), Some(GaError::ConfigurationError));
}

#[test]
fn zero_rate_denominator_is_a_configuration_error() {
    let mut rng = GaRng::new(0);
    let rate = MutationRate { numer: 0, denom: 0 };
    let r = Population::new(5, 4, rate, sample_data(), &mut rng);
    assert_eq!(r.err(), Some(GaError::ConfigurationError));
}

#[test]
fn bit_length_must_match_dataset_size() {
    let mut rng = GaRng::new(0);
    let rate = MutationRate { numer: 1, denom: 4 };
    let r = Population::new(5, 3, rate, sample_data(), &mut rng);
    assert_eq!(r.err(), Some(GaError::DatasetMismatchError));
}

#[test]
fn valid_configuration_builds_a_population() {
    let mut rng = GaRng::new(0);
    let rate = MutationRate { numer: 1, denom: 4 };
    let p = Population::new(5, 4, rate, sample_data(), &mut rng).unwrap();
    assert_eq!(p.size, 5);
    assert_eq!(p.actors.len(), 5);
    for a in &p.actors {
        assert_eq!(a.bitstring.len(), 4);
    }
}

#[test]
fn calculate_chance_returns_one_weight_per_actor() {
    let rate = MutationRate { numer: 1, denom: 4 };
    let p = sample_population(
        &[&[false, true, true, false], &[true, true, true, true]],
        rate,
        sample_data(),
    );
    let w = p.calculate_chance(7);
    assert_eq!(w, vec![14, 0]);
}

#[test]
fn best_candidate_returns_the_highest_scorer() {
    let rate = MutationRate { numer: 1, denom: 4 };
    let p = sample_population(
        &[
            &[true, false, true, false],   // 18 over capacity: fitness 8
            &[false, true, true, false],   // fitness 14
            &[false, false, false, true],  // fitness 4
        ],
        rate,
        sample_data(),
    );
    let (best, fitness) = p.best_candidate(7);
    assert_eq!(fitness, 14);
    assert_eq!(best.bitstring, vec![false, true, true, false]);
}

#[test]
fn dataset_bounds_accept_small_and_reject_huge_sums() {
    assert!(dataset_within_bounds(&sample_data()));
    let huge: Vec<Row> = vec![(1, usize::MAX, 1, 0), (2, usize::MAX, 1, 0)];
    assert!(!dataset_within_bounds(&huge));
}

#[test]
fn error_messages_name_the_failure() {
    assert_eq!(GaError::ConfigurationError.message(), "invalid configuration");
    assert_eq!(GaError::DegenerateFitnessError.message(), "total fitness is zero");
    assert_eq!(
        GaError::DatasetMismatchError.message(),
        "bit length does not match dataset size"
    );
}
