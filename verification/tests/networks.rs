use neuroevo::error::NetworkError;
use neuroevo::network::{Activation, Network, NetworkRecord};
use neuroevo::parameters::{
    inherited, mutated, perturbed, step_from_draw, weight_from_draw, FULL_RATE, MAX_STEP, UNIT,
};
use neuroevo::topology::{assemble, compact, same_widths};

fn fresh(widths: Vec<usize>) -> Network {
    match Network::create(widths, Activation::Tanh, 50_000) {
        Ok(network) => network,
        Err(error) => panic!("no network: {:?}", error),
    }
}

fn sample_record() -> NetworkRecord {
    NetworkRecord {
        topology: vec![2, 2, 1],
        weights: vec![vec![vec![1, -2], vec![3, 4]], vec![vec![5, -6]]],
        biases: vec![vec![7, 8], vec![-9]],
        activation: Activation::Sigmoid,
        mutation_rate: 250_000,
    }
}

#[test]
fn compact_drops_absent_layers() {
    assert_eq!(compact(&vec![4, 0, 6, 0, 0, 2]), vec![4, 6, 2]);
    assert_eq!(compact(&vec![0, 0]), Vec::<usize>::new());
    assert_eq!(compact(&vec![3, 1]), vec![3, 1]);
}

#[test]
fn assemble_puts_hidden_layers_between_input_and_output() {
    assert_eq!(assemble(4, &vec![6, 6, 0], 4), vec![4, 6, 6, 4]);
    assert_eq!(assemble(4, &vec![0, 0, 0], 4), vec![4, 4]);
    assert_eq!(assemble(3, &vec![], 2), vec![3, 2]);
}

#[test]
fn same_widths_compares_whole_lists() {
    assert!(same_widths(&vec![1, 2, 3], &vec![1, 2, 3]));
    assert!(!same_widths(&vec![1, 2, 3], &vec![1, 2]));
    assert!(!same_widths(&vec![1, 2, 3], &vec![1, 2, 4]));
}

#[test]
fn create_builds_matching_shapes() {
    let network = fresh(vec![3, 0, 5, 2]);
    assert_eq!(network.topology(), &vec![3, 5, 2]);
    assert_eq!(network.weights().len(), 2);
    assert_eq!(network.biases().len(), 2);
    assert_eq!(network.weights()[0].len(), 5);
    assert!(network.weights()[0].iter().all(|row| row.len() == 3));
    assert_eq!(network.weights()[1].len(), 2);
    assert!(network.weights()[1].iter().all(|row| row.len() == 5));
    assert_eq!(network.biases()[0].len(), 5);
    assert_eq!(network.biases()[1].len(), 2);
    assert_eq!(network.activation(), Activation::Tanh);
    assert_eq!(network.mutation_rate(), 50_000);
    assert_eq!(network.input_width(), 3);
    assert_eq!(network.output_width(), 2);
}

#[test]
fn create_draws_every_parameter_within_the_unit() {
    let network = fresh(vec![8, 16, 16, 4]);
    let mut distinct = std::collections::BTreeSet::new();
    for matrix in network.weights() {
        for row in matrix {
            for weight in row {
                assert!(-UNIT <= *weight && *weight <= UNIT);
                distinct.insert(*weight);
            }
        }
    }
    for row in network.biases() {
        for bias in row {
            assert!(-UNIT <= *bias && *bias <= UNIT);
        }
    }
    assert!(distinct.len() > 1);
}

#[test]
fn create_refuses_fewer_than_two_layers() {
    assert!(matches!(
        Network::create(vec![5], Activation::ReLU, 0),
        Err(NetworkError::InvalidTopology)
    ));
    assert!(matches!(
        Network::create(vec![0, 3, 0], Activation::ReLU, 0),
        Err(NetworkError::InvalidTopology)
    ));
    assert!(matches!(
        Network::create(vec![], Activation::ReLU, 0),
        Err(NetworkError::InvalidTopology)
    ));
}

#[test]
fn create_caps_the_mutation_rate() {
    let network = Network::create(vec![1, 1], Activation::ReLU, FULL_RATE + 7).unwrap();
    assert_eq!(network.mutation_rate(), FULL_RATE);
}

#[test]
fn check_input_accepts_the_input_width_only() {
    let network = fresh(vec![4, 3, 2]);
    assert_eq!(network.check_input(4), Ok(()));
    assert_eq!(network.check_input(3), Err(NetworkError::DimensionMismatch));
    assert_eq!(network.check_input(0), Err(NetworkError::DimensionMismatch));
}

#[test]
fn draws_stand_for_exact_values() {
    assert_eq!(weight_from_draw(0), -UNIT);
    assert_eq!(weight_from_draw(1_000_000), 0);
    assert_eq!(weight_from_draw(2_000_000), UNIT);
    assert_eq!(step_from_draw(0), -MAX_STEP);
    assert_eq!(step_from_draw(99_999), -1);
    assert_eq!(step_from_draw(100_000), 1);
    assert_eq!(step_from_draw(199_999), MAX_STEP);
    assert_eq!(inherited(3, 9, 0), 3);
    assert_eq!(inherited(3, 9, 1), 9);
}

#[test]
fn perturbed_turns_round_at_the_ends_of_the_range() {
    assert_eq!(perturbed(10, -3), 7);
    assert_eq!(perturbed(-10, 25), 15);
    assert_eq!(perturbed(i64::MAX, 5), i64::MAX - 5);
    assert_eq!(perturbed(i64::MIN + 1, -2), i64::MIN + 3);
    assert_eq!(perturbed(42, 0), 42);
}

#[test]
fn mutated_moves_a_value_only_when_the_chance_is_below_the_rate() {
    assert_eq!(mutated(500, 250_000, 249_999, 0), 500 - MAX_STEP);
    assert_eq!(mutated(500, 250_000, 250_000, 0), 500);
    assert_eq!(mutated(500, 0, 0, 123), 500);
    assert_eq!(mutated(500, FULL_RATE, 999_999, 100_004), 505);
}

#[test]
fn crossover_takes_every_parameter_from_a_parent() {
    let first = fresh(vec![4, 6, 3]);
    let second = fresh(vec![4, 6, 3]);
    let child = first.crossover(&second).unwrap();
    assert_eq!(child.topology(), first.topology());
    assert_eq!(child.activation(), first.activation());
    assert_eq!(child.mutation_rate(), first.mutation_rate());
    for l in 0..2 {
        for r in 0..child.weights()[l].len() {
            for c in 0..child.weights()[l][r].len() {
                let value = child.weights()[l][r][c];
                assert!(value == first.weights()[l][r][c] || value == second.weights()[l][r][c]);
            }
            let bias = child.biases()[l][r];
            assert!(bias == first.biases()[l][r] || bias == second.biases()[l][r]);
        }
    }
}

#[test]
fn crossover_with_itself_gives_the_same_network() {
    let network = fresh(vec![4, 8, 8, 4]);
    let child = network.crossover(&network).unwrap();
    assert_eq!(child.topology(), network.topology());
    assert_eq!(child.weights(), network.weights());
    assert_eq!(child.biases(), network.biases());
    assert_eq!(child.activation(), network.activation());
    assert_eq!(child.mutation_rate(), network.mutation_rate());
}

#[test]
fn crossover_refuses_other_widths_and_other_activations() {
    let first = fresh(vec![4, 6, 3]);
    let wider = fresh(vec![4, 7, 3]);
    assert!(matches!(first.crossover(&wider), Err(NetworkError::IncompatibleTopology)));
    let mut rebound = fresh(vec![4, 6, 3]);
    rebound.change_activation(Activation::ReLU);
    assert!(matches!(first.crossover(&rebound), Err(NetworkError::IncompatibleTopology)));
}

#[test]
fn mutation_at_rate_zero_changes_nothing() {
    let mut network = fresh(vec![4, 8, 4]);
    let before = network.duplicate();
    network.mutate_in_place(0);
    assert_eq!(network.weights(), before.weights());
    assert_eq!(network.biases(), before.biases());
    assert_eq!(network.topology(), before.topology());
    assert_eq!(network.mutation_rate(), before.mutation_rate());
}

#[test]
fn mutation_at_full_rate_moves_every_parameter_by_a_bounded_step() {
    let mut network = fresh(vec![4, 8, 4]);
    let before = network.duplicate();
    network.mutate_in_place(FULL_RATE);
    assert_eq!(network.topology(), before.topology());
    for l in 0..2 {
        for r in 0..network.weights()[l].len() {
            for c in 0..network.weights()[l][r].len() {
                let step = network.weights()[l][r][c] - before.weights()[l][r][c];
                assert!(step != 0 && -MAX_STEP <= step && step <= MAX_STEP);
            }
            let step = network.biases()[l][r] - before.biases()[l][r];
            assert!(step != 0 && -MAX_STEP <= step && step <= MAX_STEP);
        }
    }
}

#[test]
fn mutation_at_a_middle_rate_moves_some_parameters() {
    let mut network = fresh(vec![10, 20, 10]);
    let before = network.duplicate();
    network.mutate_in_place(500_000);
    let mut moved = 0;
    let mut kept = 0;
    for l in 0..2 {
        for r in 0..network.weights()[l].len() {
            for c in 0..network.weights()[l][r].len() {
                let step = network.weights()[l][r][c] - before.weights()[l][r][c];
                assert!(-MAX_STEP <= step && step <= MAX_STEP);
                if step == 0 {
                    kept += 1;
                } else {
                    moved += 1;
                }
            }
        }
    }
    assert!(moved > 0 && kept > 0);
}

#[test]
fn change_activation_keeps_the_parameters() {
    let mut network = fresh(vec![4, 5, 2]);
    let before = network.duplicate();
    network.change_activation(Activation::Sigmoid);
    assert_eq!(network.activation(), Activation::Sigmoid);
    assert_eq!(network.weights(), before.weights());
    assert_eq!(network.biases(), before.biases());
    network.change_mutation_rate(2_000_000);
    assert_eq!(network.mutation_rate(), FULL_RATE);
    network.change_mutation_rate(123);
    assert_eq!(network.mutation_rate(), 123);
    assert_eq!(network.weights(), before.weights());
}

#[test]
fn export_then_import_gives_the_same_network() {
    let network = fresh(vec![4, 6, 6, 4]);
    let restored = Network::import(network.export()).unwrap();
    assert_eq!(restored.topology(), network.topology());
    assert_eq!(restored.weights(), network.weights());
    assert_eq!(restored.biases(), network.biases());
    assert_eq!(restored.activation(), network.activation());
    assert_eq!(restored.mutation_rate(), network.mutation_rate());
}

#[test]
fn import_takes_a_consistent_record_as_it_is() {
    let network = Network::import(sample_record()).unwrap();
    assert_eq!(network.topology(), &vec![2, 2, 1]);
    assert_eq!(network.weights(), &vec![vec![vec![1, -2], vec![3, 4]], vec![vec![5, -6]]]);
    assert_eq!(network.biases(), &vec![vec![7, 8], vec![-9]]);
    assert_eq!(network.activation(), Activation::Sigmoid);
    assert_eq!(network.mutation_rate(), 250_000);
}

#[test]
fn import_caps_the_mutation_rate() {
    let mut record = sample_record();
    record.mutation_rate = 3_000_000;
    assert_eq!(Network::import(record).unwrap().mutation_rate(), FULL_RATE);
}

#[test]
fn import_refuses_too_few_layers() {
    let mut record = sample_record();
    record.topology = vec![2];
    assert!(matches!(Network::import(record), Err(NetworkError::InvalidTopology)));
    let mut record = sample_record();
    record.topology = vec![0, 2, 0];
    assert!(matches!(Network::import(record), Err(NetworkError::InvalidTopology)));
}

#[test]
fn import_refuses_inconsistent_shapes() {
    let mut record = sample_record();
    record.weights[0][1].push(11);
    assert!(matches!(Network::import(record), Err(NetworkError::DimensionMismatch)));
    let mut record = sample_record();
    record.weights[1].push(vec![1, 2]);
    assert!(matches!(Network::import(record), Err(NetworkError::DimensionMismatch)));
    let mut record = sample_record();
    record.biases[0].pop();
    assert!(matches!(Network::import(record), Err(NetworkError::DimensionMismatch)));
    let mut record = sample_record();
    record.biases.pop();
    assert!(matches!(Network::import(record), Err(NetworkError::DimensionMismatch)));
    let mut record = sample_record();
    record.topology = vec![2, 0, 2, 1];
    assert!(matches!(Network::import(record), Err(NetworkError::DimensionMismatch)));
    let mut record = sample_record();
    record.topology = vec![2, 3, 1];
    assert!(matches!(Network::import(record), Err(NetworkError::DimensionMismatch)));
}
