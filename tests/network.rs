use neural_net::activations::{identity_derivative, identity_function, Activation};
use neural_net::matrix::Matrix;
use neural_net::network::{Network, NetworkError, SaveData};
use rand::Rng;

fn sigmoid(x: f64) -> f64 {
    1.0 / (1.0 + std::f64::consts::E.powf(-x))
}

fn sigmoid_derivative(x: f64) -> f64 {
    x * (1.0 - x)
}

fn sigmoid_activation() -> Activation<fn(f64) -> f64, fn(f64) -> f64> {
    Activation {
        function: sigmoid,
        derivative: sigmoid_derivative,
    }
}

fn sample() -> f64 {
    rand::thread_rng().gen_range(-1.0..1.0)
}

fn scale(x: f64) -> f64 {
    x * 0.1
}

type SigmoidNetwork = Network<f64, fn(f64) -> f64, fn(f64) -> f64, fn(f64) -> f64>;

fn network(layers: Vec<usize>) -> SigmoidNetwork {
    Network::new(layers, scale as fn(f64) -> f64, sigmoid_activation(), &sample).unwrap()
}

#[test]
fn test_network_initialization() {
    let layers = vec![3, 5, 2];
    let network = network(layers.clone());

    assert_eq!(network.weights.len(), 2);
    assert_eq!(network.biases.len(), 2);

    assert_eq!(network.weights[0].rows, 5);
    assert_eq!(network.weights[0].cols, 3);
    assert_eq!(network.biases[0].rows, 5);
    assert_eq!(network.biases[0].cols, 1);

    assert_eq!(network.weights[1].rows, 2);
    assert_eq!(network.weights[1].cols, 5);
    assert_eq!(network.biases[1].rows, 2);
    assert_eq!(network.biases[1].cols, 1);
}

#[test]
fn test_feed_forward() {
    let layers = vec![2, 3, 1];
    let mut network = network(layers);

    let inputs = vec![0.5, -0.1];
    let output = network.feed_forward(inputs).unwrap();

    assert_eq!(output.len(), 1);
}

#[test]
fn test_back_propagation() {
    let layers = vec![2, 3, 1];
    let mut network = network(layers);

    let inputs = vec![0.5, -0.1];
    let targets = vec![1.0];

    let initial_weights = network.weights[0].clone();
    let initial_biases = network.biases[0].clone();

    network.feed_forward(inputs).unwrap();
    network.back_propogate(targets).unwrap();

    assert_ne!(network.weights[0].data, initial_weights.data);
    assert_ne!(network.biases[0].data, initial_biases.data);
}

#[test]
fn one_step_changes_every_weight_and_bias_matrix() {
    let mut network = network(vec![3, 4, 4, 2]);
    let weights_before: Vec<Vec<Vec<f64>>> = network.weights.iter().map(|m| m.data.clone()).collect();
    let biases_before: Vec<Vec<Vec<f64>>> = network.biases.iter().map(|m| m.data.clone()).collect();
    network.feed_forward(vec![0.2, 0.9, 0.4]).unwrap();
    network.back_propogate(vec![1.0, 0.0]).unwrap();
    for i in 0..3 {
        assert_ne!(network.weights[i].data, weights_before[i]);
        assert_ne!(network.biases[i].data, biases_before[i]);
    }
}

#[test]
fn forward_pass_fills_the_cache_layer_by_layer() {
    let mut network = network(vec![2, 3, 1]);
    let output = network.feed_forward(vec![0.5, -0.1]).unwrap();
    assert_eq!(network.data.len(), 3);
    assert_eq!(network.data[0].data, vec![vec![0.5], vec![-0.1]]);
    assert_eq!(network.data[1].rows, 3);
    assert_eq!(network.data[2].data, vec![output.clone()]);
    for i in 0..3 {
        let mut z = network.biases[0].data[i][0];
        z += network.weights[0].data[i][0] * 0.5;
        z += network.weights[0].data[i][1] * -0.1;
        let expected = sigmoid(network.weights[0].data[i][0] * 0.5 + network.weights[0].data[i][1] * -0.1 + network.biases[0].data[i][0]);
        assert!((network.data[1].data[i][0] - expected).abs() < 1e-12);
        assert!((sigmoid(z) - expected).abs() < 1e-12);
    }
    assert!(output[0] > 0.0 && output[0] < 1.0);
}

#[test]
fn identity_network_computes_an_affine_map() {
    let activation = Activation {
        function: identity_function::<f64> as fn(f64) -> f64,
        derivative: identity_derivative::<f64> as fn(f64) -> f64,
    };
    let mut network = Network::new(vec![2, 1], scale as fn(f64) -> f64, activation, &sample).unwrap();
    network.weights[0] = Matrix::from(vec![vec![2.0, -1.0]]);
    network.biases[0] = Matrix::from(vec![vec![0.5]]);
    assert_eq!(network.feed_forward(vec![3.0, 4.0]).unwrap(), vec![2.5]);
    // Error 1.0 - 2.5 = -1.5; slope 1; scaled by 0.1 to -0.15.
    network.back_propogate(vec![1.0]).unwrap();
    let w = &network.weights[0].data[0];
    assert!((w[0] - (2.0 - 0.45)).abs() < 1e-12);
    assert!((w[1] - (-1.0 - 0.6)).abs() < 1e-12);
    assert!((network.biases[0].data[0][0] - 0.35).abs() < 1e-12);
}

#[test]
fn wrong_lengths_are_refused() {
    let mut network = network(vec![2, 3, 1]);
    assert_eq!(network.back_propogate(vec![1.0]), Err(NetworkError::NoForwardPass));
    assert_eq!(network.feed_forward(vec![1.0]), Err(NetworkError::InputShapeMismatch));
    network.feed_forward(vec![1.0, 0.0]).unwrap();
    assert_eq!(network.back_propogate(vec![1.0, 0.0]), Err(NetworkError::TargetShapeMismatch));
}

#[test]
fn invalid_layers_are_refused() {
    let single = Network::new(vec![3], scale as fn(f64) -> f64, sigmoid_activation(), &sample);
    assert!(matches!(single, Err(NetworkError::InvalidLayers)));
    let zero = Network::new(vec![3, 0, 2], scale as fn(f64) -> f64, sigmoid_activation(), &sample);
    assert!(matches!(zero, Err(NetworkError::InvalidLayers)));
}

#[test]
fn save_then_load_restores_every_cell() {
    let mut network = network(vec![3, 5, 2]);
    let weights: Vec<Vec<Vec<f64>>> = network.weights.iter().map(|m| m.data.clone()).collect();
    let biases: Vec<Vec<Vec<f64>>> = network.biases.iter().map(|m| m.data.clone()).collect();
    let saved = network.save_data();
    assert_eq!(saved.weights, weights);
    assert_eq!(saved.biases, biases);
    network.load(saved).unwrap();
    for i in 0..2 {
        assert_eq!(network.weights[i].data, weights[i]);
        assert_eq!(network.biases[i].data, biases[i]);
    }
}

#[test]
fn loading_another_topology_is_refused() {
    let mut network = network(vec![3, 5, 2]);
    let other = self::network(vec![3, 4, 2]);
    let before = network.save_data();
    assert_eq!(network.load(other.save_data()), Err(NetworkError::TopologyMismatch));
    let short = SaveData {
        weights: before.weights[..1].to_vec(),
        biases: before.biases[..1].to_vec(),
    };
    assert_eq!(network.load(short), Err(NetworkError::TopologyMismatch));
    assert_eq!(network.save_data().weights, before.weights);
}

#[test]
fn training_on_one_example_learns_it() {
    let mut network = network(vec![2, 4, 2]);
    let input = vec![0.9, 0.1];
    let target = vec![0.0, 1.0];
    let inputs = vec![input.clone(); 2000];
    let targets = vec![target.clone(); 2000];
    network.train(&inputs, &targets).unwrap();
    let result = network.validate(&vec![input], &vec![target]).unwrap();
    assert_eq!(result.rights, 1);
    assert_eq!(result.wrongs, 0);
    assert_eq!(result.predicted, vec![1]);
    assert_eq!(result.expected, vec![1]);
    assert_eq!(result.failed, vec![0, 0]);
}

#[test]
fn validation_counts_rights_wrongs_and_misses() {
    let activation = Activation {
        function: identity_function::<f64> as fn(f64) -> f64,
        derivative: identity_derivative::<f64> as fn(f64) -> f64,
    };
    let mut network = Network::new(vec![2, 2], scale as fn(f64) -> f64, activation, &sample).unwrap();
    network.weights[0] = Matrix::from(vec![vec![1.0, 0.0], vec![0.0, 1.0]]);
    network.biases[0] = Matrix::from(vec![vec![0.0], vec![0.0]]);
    let examples = vec![vec![1.0, 0.0], vec![0.0, 1.0], vec![1.0, 0.0]];
    let labels = vec![vec![1.0, 0.0], vec![1.0, 0.0], vec![0.0, 1.0]];
    let weights_before = network.weights[0].data.clone();
    let result = network.validate(&examples, &labels).unwrap();
    assert_eq!(result.rights, 1);
    assert_eq!(result.wrongs, 2);
    assert_eq!(result.failed, vec![1, 1]);
    assert_eq!(result.predicted, vec![0, 1, 0]);
    assert_eq!(result.expected, vec![0, 0, 1]);
    assert_eq!(result.outputs[1], vec![0.0, 1.0]);
    assert_eq!(network.weights[0].data, weights_before);
}

#[test]
fn mismatched_examples_are_refused_before_training() {
    let mut network = network(vec![2, 3, 1]);
    let before = network.save_data();
    let two = vec![vec![0.0, 1.0], vec![1.0, 0.0]];
    assert_eq!(network.train(&two, &vec![vec![1.0]]), Err(NetworkError::ExampleCountMismatch));
    assert_eq!(
        network.train(&vec![vec![0.0]], &vec![vec![1.0]]),
        Err(NetworkError::InputShapeMismatch)
    );
    assert_eq!(
        network.train(&two, &vec![vec![1.0], vec![0.0, 1.0]]),
        Err(NetworkError::TargetShapeMismatch)
    );
    assert!(network.validate(&two, &vec![vec![1.0]]).is_err());
    assert_eq!(network.save_data().weights, before.weights);
}

#[test]
fn model_names_the_layer_widths() {
    assert_eq!(network(vec![3, 5, 2]).model(), "3-5-2");
    assert_eq!(network(vec![784, 800, 10]).model(), "784-800-10");
}

#[test]
fn sigmoid_is_applied_to_outputs_and_differentiated_at_them() {
    let unit = |x: f64| x;
    let mut network = Network::new(vec![1, 1], unit, sigmoid_activation(), &sample).unwrap();
    network.weights[0] = Matrix::from(vec![vec![0.0]]);
    network.biases[0] = Matrix::from(vec![vec![0.0]]);
    let zero = network.feed_forward(vec![3.0]).unwrap();
    assert!((zero[0] - 0.5).abs() < 1e-7);

    network.biases[0] = Matrix::from(vec![vec![0.5]]);
    let a = network.feed_forward(vec![3.0]).unwrap()[0];
    // Error 1.0 and a learning rate of one: the bias gains the slope a * (1 - a).
    network.back_propogate(vec![a + 1.0]).unwrap();
    let gain = network.biases[0].data[0][0] - 0.5;
    assert!((gain - 0.2350037122015945).abs() < 1e-7);
}
