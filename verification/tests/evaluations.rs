use neuroevo::error::NetworkError;
use neuroevo::evaluation::neuron_sum;
use neuroevo::network::{Activation, Network, NetworkRecord};
use neuroevo::panel::{
    activation_at, activation_index, apply_settings, faster, hidden_layers, slower, Change,
    Settings,
};
use neuroevo::population::{Population, StepReport, TrackingPolicy};

fn sample() -> Network {
    Network::import(NetworkRecord {
        topology: vec![2, 2, 1],
        weights: vec![vec![vec![1, -2], vec![3, 4]], vec![vec![5, -6]]],
        biases: vec![vec![7, 8], vec![-9]],
        activation: Activation::Sigmoid,
        mutation_rate: 250_000,
    })
    .unwrap()
}

#[test]
fn neuron_sum_adds_the_products_to_the_scaled_bias() {
    assert_eq!(neuron_sum(&vec![2, 3], &vec![10, -4], 5), 5_000_008);
    assert_eq!(neuron_sum(&vec![], &vec![], -3), -3_000_000);
    assert_eq!(neuron_sum(&vec![1_000_000], &vec![500_000], 0), 500_000_000_000);
}

#[test]
fn neuron_sum_stays_at_the_end_of_the_range() {
    let most = vec![i64::MAX, i64::MAX, i64::MAX];
    assert_eq!(neuron_sum(&most, &most, 0), i128::MAX);
    let least = vec![i64::MIN, i64::MIN, i64::MIN];
    assert_eq!(neuron_sum(&most, &least, 0), i128::MIN);
    let two = vec![i64::MAX, i64::MAX];
    let square = (i64::MAX as i128) * (i64::MAX as i128);
    assert_eq!(neuron_sum(&two, &two, 0), 2 * square);
}

#[test]
fn weighted_sums_follow_the_matrix_of_the_layer() {
    let network = sample();
    assert_eq!(
        network.weighted_sums(0, &vec![10, 20]),
        Ok(vec![7_000_000 + 10 - 40, 8_000_000 + 30 + 80])
    );
    assert_eq!(network.weighted_sums(1, &vec![3, 2]), Ok(vec![-9_000_000 + 15 - 12]));
}

#[test]
fn weighted_sums_are_the_same_every_time() {
    let network = Network::create(vec![4, 8, 8, 4], Activation::Tanh, 0).unwrap();
    let input = vec![250_000, -1_000_000, 0, 999_999];
    let first = network.weighted_sums(0, &input);
    let second = network.weighted_sums(0, &input);
    assert_eq!(first, second);
    assert_eq!(first.unwrap().len(), 8);
}

#[test]
fn weighted_sums_refuse_a_wrong_length_or_layer() {
    let network = sample();
    assert_eq!(network.weighted_sums(0, &vec![1, 2, 3]), Err(NetworkError::DimensionMismatch));
    assert_eq!(network.weighted_sums(0, &vec![]), Err(NetworkError::DimensionMismatch));
    assert_eq!(network.weighted_sums(1, &vec![1]), Err(NetworkError::DimensionMismatch));
    assert_eq!(network.weighted_sums(2, &vec![1]), Err(NetworkError::DimensionMismatch));
}

fn whole_units(_activation: Activation, sum: i128) -> i64 {
    (sum / 1_000_000) as i64
}

fn in_floats(activation: Activation, sum: i128) -> i64 {
    let x = sum as f64 / 1e12;
    let y = match activation {
        Activation::ReLU => x.max(0.0),
        Activation::Sigmoid => 1.0 / (1.0 + (-x).exp()),
        Activation::Tanh => x.tanh(),
    };
    (y * 1e6).round() as i64
}

fn one_neuron(activation: Activation) -> Network {
    Network::import(NetworkRecord {
        topology: vec![1, 1],
        weights: vec![vec![vec![2_000_000]]],
        biases: vec![vec![500_000]],
        activation,
        mutation_rate: 0,
    })
    .unwrap()
}

#[test]
fn evaluate_goes_through_the_layers() {
    let network = sample();
    assert_eq!(network.evaluate(&vec![10, 20], whole_units), Ok(vec![-9]));
    let scaled = Network::import(NetworkRecord {
        topology: vec![2, 1],
        weights: vec![vec![vec![1_000_000, -2_000_000]]],
        biases: vec![vec![500_000]],
        activation: Activation::ReLU,
        mutation_rate: 0,
    })
    .unwrap();
    assert_eq!(scaled.evaluate(&vec![3_000_000, 1_000_000], whole_units), Ok(vec![1_500_000]));
}

#[test]
fn evaluate_hands_the_activation_of_the_network_to_the_caller() {
    assert_eq!(one_neuron(Activation::ReLU).evaluate(&vec![1_000_000], in_floats), Ok(vec![2_500_000]));
    assert_eq!(one_neuron(Activation::ReLU).evaluate(&vec![-1_000_000], in_floats), Ok(vec![0]));
    assert_eq!(one_neuron(Activation::Sigmoid).evaluate(&vec![1_000_000], in_floats), Ok(vec![924_142]));
    assert_eq!(one_neuron(Activation::Tanh).evaluate(&vec![1_000_000], in_floats), Ok(vec![986_614]));
    let mut network = one_neuron(Activation::Tanh);
    network.change_activation(Activation::ReLU);
    assert_eq!(network.evaluate(&vec![1_000_000], in_floats), Ok(vec![2_500_000]));
}

#[test]
fn evaluate_gives_the_same_output_for_the_same_input() {
    let network = Network::create(vec![4, 8, 8, 4], Activation::Tanh, 0).unwrap();
    let before = network.duplicate();
    let input = vec![250_000, -1_000_000, 0, 999_999];
    let first = network.evaluate(&input, in_floats).unwrap();
    for _ in 0..10 {
        assert_eq!(network.evaluate(&input, in_floats).unwrap(), first);
    }
    assert_eq!(first.len(), 4);
    assert_eq!(network.weights(), before.weights());
    assert_eq!(network.biases(), before.biases());
    let restored = Network::import(network.export()).unwrap();
    assert_eq!(restored.evaluate(&input, in_floats).unwrap(), first);
}

#[test]
fn evaluate_refuses_an_input_of_the_wrong_length() {
    let network = sample();
    assert_eq!(network.evaluate(&vec![1], whole_units), Err(NetworkError::DimensionMismatch));
    assert_eq!(network.evaluate(&vec![1, 2, 3], whole_units), Err(NetworkError::DimensionMismatch));
    assert_eq!(network.evaluate(&vec![], whole_units), Err(NetworkError::DimensionMismatch));
}

#[test]
fn pace_steps_by_tens_within_its_bounds() {
    assert_eq!(slower(1000), 100);
    assert_eq!(slower(10), 1);
    assert_eq!(slower(5), 1);
    assert_eq!(slower(1), 1);
    assert_eq!(faster(1), 10);
    assert_eq!(faster(100), 1000);
    assert_eq!(faster(101), 1000);
    assert_eq!(faster(1000), 1000);
    assert_eq!(faster(u32::MAX), 1000);
    assert_eq!(faster(0), 0);
}

#[test]
fn activations_stand_in_a_list() {
    assert_eq!(activation_at(0), Some(Activation::ReLU));
    assert_eq!(activation_at(1), Some(Activation::Sigmoid));
    assert_eq!(activation_at(2), Some(Activation::Tanh));
    assert_eq!(activation_at(3), None);
    for activation in [Activation::ReLU, Activation::Sigmoid, Activation::Tanh] {
        assert_eq!(activation_at(activation_index(activation)), Some(activation));
    }
}

#[test]
fn hidden_layers_fill_the_slots() {
    assert_eq!(hidden_layers(&vec![4, 6, 6, 4], 3), vec![6, 6, 0]);
    assert_eq!(hidden_layers(&vec![4, 4], 3), vec![0, 0, 0]);
    assert_eq!(hidden_layers(&vec![4, 1, 2, 3, 5, 4], 3), vec![1, 2, 3]);
    assert_eq!(hidden_layers(&vec![4], 2), vec![0, 0]);
    assert_eq!(hidden_layers(&vec![], 1), vec![0]);
    assert_eq!(hidden_layers(&vec![4, 7, 4], 0), Vec::<usize>::new());
}

fn settings(layers: Vec<usize>, mutation_rate: u32, activation: Activation) -> Settings {
    Settings { hidden_layers: layers, mutation_rate, activation }
}

#[test]
fn settings_that_stay_change_nothing() {
    let first = settings(vec![6, 6, 0], 50_000, Activation::ReLU);
    let mut population =
        Population::construct(3, vec![6, 6, 0], 50_000, Activation::ReLU, TrackingPolicy::Manual);
    population.step_all(&vec![
        StepReport { fitness: 3, terminal: false },
        StepReport { fitness: 4, terminal: true },
        StepReport { fitness: 5, terminal: false },
    ]);
    let same = settings(vec![6, 6, 0], 50_000, Activation::ReLU);
    assert_eq!(apply_settings(&mut population, &first, &same), Change::Nothing);
    assert_eq!(population.fitnesses(), vec![3, 4, 5]);
    assert_eq!(population.survivors(), vec![true, false, true]);
}

#[test]
fn a_new_rate_or_activation_leaves_the_generation_running() {
    let first = settings(vec![6, 6, 0], 50_000, Activation::ReLU);
    let mut population =
        Population::construct(2, vec![6, 6, 0], 50_000, Activation::ReLU, TrackingPolicy::Manual);
    population.step_all(&vec![
        StepReport { fitness: 3, terminal: false },
        StepReport { fitness: 4, terminal: false },
    ]);
    let next = settings(vec![6, 6, 0], 90_000, Activation::Tanh);
    assert_eq!(apply_settings(&mut population, &first, &next), Change::Retuned);
    assert_eq!(population.mutation_rate(), 90_000);
    assert_eq!(population.activation(), Activation::Tanh);
    assert_eq!(population.member(1).network().mutation_rate(), 90_000);
    assert_eq!(population.member(1).network().activation(), Activation::Tanh);
    assert_eq!(population.fitnesses(), vec![3, 4]);
    assert_eq!(population.topology(), &vec![4, 6, 6, 4]);
}

#[test]
fn other_hidden_layers_start_the_run_over() {
    let first = settings(vec![6, 6, 0], 50_000, Activation::ReLU);
    let mut population =
        Population::construct(2, vec![6, 6, 0], 50_000, Activation::ReLU, TrackingPolicy::Manual);
    population.update(&vec![
        StepReport { fitness: 3, terminal: true },
        StepReport { fitness: 4, terminal: true },
    ]);
    assert_eq!(population.generation_index(), 1);
    let next = settings(vec![6, 0, 9], 70_000, Activation::ReLU);
    assert_eq!(apply_settings(&mut population, &first, &next), Change::Rebuilt);
    assert_eq!(population.generation_index(), 0);
    assert_eq!(population.len(), 2);
    assert_eq!(population.topology(), &vec![4, 6, 9, 4]);
    assert_eq!(population.mutation_rate(), 70_000);
    assert_eq!(population.member(0).network().mutation_rate(), 70_000);
}
