use perceptron::activation::Activation;
use perceptron::activation::ActivationType;
use perceptron::codec::DecodeError;
use perceptron::max_index;
use perceptron::network_config::NetworkConfig;
use perceptron::neural_network::NeuralNetwork;
use perceptron::neuron::Neuron;

fn bits(x: f64) -> u64 {
    x.to_bits()
}

fn val(b: u64) -> f64 {
    f64::from_bits(b)
}

fn bits_vec(xs: &[f64]) -> Vec<u64> {
    xs.iter().map(|x| x.to_bits()).collect()
}

fn vals_vec(bs: &[u64]) -> Vec<f64> {
    bs.iter().map(|b| f64::from_bits(*b)).collect()
}

fn rng(seed: u64) -> rand::rngs::StdRng {
    rand::SeedableRng::seed_from_u64(seed)
}

fn sigmoid_config() -> NetworkConfig {
    NetworkConfig {
        activation: Activation { activation_type: ActivationType::Sigmoid },
        output_activation: Activation { activation_type: ActivationType::Sigmoid },
        layers_quantity: 1,
        layers_size: 2,
        input_size: 2,
        output_size: 1,
        learning_rate: 0.5f64.to_bits(),
    }
}

fn activation_of(kind: ActivationType) -> Activation {
    Activation { activation_type: kind }
}

#[test]
fn sigmoid_at_zero_is_half() {
    let a = activation_of(ActivationType::Sigmoid);
    assert_eq!(val(a.function(bits(0.0))), 0.5);
}

#[test]
fn relu_keeps_positive_and_clamps_negative() {
    let a = activation_of(ActivationType::Relu);
    assert_eq!(val(a.function(bits(2.5))), 2.5);
    assert_eq!(val(a.function(bits(-1.5))), 0.0);
    assert_eq!(val(a.function(bits(0.0))), 0.0);
}

#[test]
fn tanh_matches_reference_value() {
    let a = activation_of(ActivationType::Tanh);
    let got = val(a.function(bits(1.0)));
    assert!((got - 0.7615941559557649).abs() < 1e-12);
    let neg = val(a.function(bits(-1.0)));
    assert!((neg + 0.7615941559557649).abs() < 1e-12);
}

#[test]
fn relu_derivative_at_zero_follows_policy() {
    let a = activation_of(ActivationType::Relu);
    assert_eq!(val(a.derivative(bits(0.0))), 0.0);
    assert_eq!(val(a.derivative(bits(3.0))), 1.0);
    assert_eq!(val(a.derivative(bits(-3.0))), 0.0);
}

#[test]
fn derivatives_match_numerical_slope() {
    let samples = [-5.0, -1.0, -0.001, 0.001, 1.0, 5.0];
    let kinds = [ActivationType::Relu, ActivationType::Sigmoid, ActivationType::Tanh];
    let h = 1e-6;
    for kind in kinds {
        let a = activation_of(kind);
        for x in samples {
            let fw = val(a.function(bits(x + h)));
            let bw = val(a.function(bits(x - h)));
            let numerical = (fw - bw) / (2.0 * h);
            let stated = val(a.derivative(bits(x)));
            assert!(
                (numerical - stated).abs() < 1e-4,
                "kind {:?} at {}: numerical {} stated {}",
                kind,
                x,
                numerical,
                stated
            );
        }
    }
    // Sigmoid and Tanh are smooth at zero too.
    for kind in [ActivationType::Sigmoid, ActivationType::Tanh] {
        let a = activation_of(kind);
        let numerical = (val(a.function(bits(h))) - val(a.function(bits(-h)))) / (2.0 * h);
        let stated = val(a.derivative(bits(0.0)));
        assert!((numerical - stated).abs() < 1e-4);
    }
}

#[test]
fn compute_sum_is_bias_plus_dot_product() {
    let mut r = rng(11);
    let mut neuron = Neuron::new(3, &mut r);
    neuron.bias = bits(1.0);
    neuron.weights = bits_vec(&[2.0, -1.0, 0.5]);
    let inputs = bits_vec(&[3.0, 4.0, 8.0]);
    let layer = perceptron::layer::Layer::InputLayer(&inputs);
    let sum = neuron.compute_sum(&layer);
    assert_eq!(val(sum), 1.0 + 2.0 * 3.0 - 4.0 + 0.5 * 8.0);
}

#[test]
fn layer_get_values_reads_input_vector() {
    let inputs = bits_vec(&[0.25, -3.0, 7.5]);
    let layer = perceptron::layer::Layer::InputLayer(&inputs);
    assert_eq!(vals_vec(&layer.get_values()), vec![0.25, -3.0, 7.5]);
}

#[test]
fn new_network_has_configured_shape() {
    let mut r = rng(5);
    let config = NetworkConfig {
        activation: activation_of(ActivationType::Relu),
        output_activation: activation_of(ActivationType::Sigmoid),
        layers_quantity: 3,
        layers_size: 4,
        input_size: 7,
        output_size: 2,
        learning_rate: 0.05f64.to_bits(),
    };
    let net = NeuralNetwork::new(config, &mut r);
    assert!(net.is_wf());
    assert_eq!(net.hidden_layers.len(), 3);
    for (k, layer) in net.hidden_layers.iter().enumerate() {
        assert_eq!(layer.neurons.len(), 4);
        let fan_in = if k == 0 { 7 } else { 4 };
        for neuron in layer.neurons.iter() {
            assert_eq!(neuron.weights.len(), fan_in);
        }
    }
    assert_eq!(net.output_layer.neurons.len(), 2);
    for neuron in net.output_layer.neurons.iter() {
        assert_eq!(neuron.weights.len(), 4);
    }
}

#[test]
fn initial_weights_stay_inside_scaled_limit() {
    let mut r = rng(42);
    let fan_in: u16 = 16;
    let limit = (1.0 / (fan_in as f64).sqrt()).sqrt();
    let mut largest = 0.0f64;
    let mut smallest = f64::INFINITY;
    for _ in 0..50 {
        let neuron = Neuron::new(fan_in, &mut r);
        assert!(val(neuron.bias).abs() <= limit);
        assert_eq!(neuron.weights.len(), 16);
        for w in neuron.weights.iter() {
            let value = val(*w);
            assert!(value.abs() <= limit);
            largest = largest.max(value.abs());
            smallest = smallest.min(value.abs());
        }
        assert_eq!(val(neuron.sum), 0.0);
        assert_eq!(val(neuron.holded), 0.0);
    }
    // The draws spread over the whole scaled range (limit is 0.5 here): with
    // 800 uniform samples, values near the bound and near zero both appear.
    assert!(largest > 0.3 * limit);
    assert!(largest > 0.125, "initialization range was not scaled by the limit");
    assert!(smallest < 0.1 * limit);
}

#[test]
fn predict_is_deterministic() {
    let mut r = rng(9);
    let mut net = NeuralNetwork::new(sigmoid_config(), &mut r);
    let input = bits_vec(&[0.3, 0.7]);
    let first = net.predict(&input);
    let second = net.predict(&input);
    assert_eq!(first, second);
}

#[test]
fn codec_round_trip_preserves_predictions_exactly() {
    let mut r = rng(13);
    let config = NetworkConfig {
        activation: activation_of(ActivationType::Tanh),
        output_activation: activation_of(ActivationType::Sigmoid),
        layers_quantity: 2,
        layers_size: 3,
        input_size: 4,
        output_size: 2,
        learning_rate: 0.1f64.to_bits(),
    };
    let mut net = NeuralNetwork::new(config, &mut r);
    let input = bits_vec(&[0.1, 0.9, -0.4, 0.5]);
    let target = bits_vec(&[1.0, 0.0]);
    net.train(&input, &target);

    let blob = net.to_bytes();
    let mut restored = NeuralNetwork::from_bytes(&blob).expect("blob must decode");
    let original_out = net.predict(&input);
    let restored_out = restored.predict(&input);
    assert_eq!(original_out, restored_out);
}

#[test]
fn two_saves_of_untrained_network_have_equal_size() {
    let mut r = rng(21);
    let net = NeuralNetwork::new(sigmoid_config(), &mut r);
    let first = net.to_bytes();
    let second = net.to_bytes();
    assert_eq!(first.len(), second.len());
    assert_eq!(first, second);
}

#[test]
fn truncated_blob_is_rejected() {
    let mut r = rng(3);
    let net = NeuralNetwork::new(sigmoid_config(), &mut r);
    let mut blob = net.to_bytes();
    blob.truncate(blob.len() - 1);
    assert_eq!(NeuralNetwork::from_bytes(&blob).err(), Some(DecodeError::Truncated));
    let empty: Vec<u8> = vec![];
    assert_eq!(NeuralNetwork::from_bytes(&empty).err(), Some(DecodeError::Truncated));
}

#[test]
fn unknown_activation_tag_is_rejected() {
    let mut r = rng(3);
    let net = NeuralNetwork::new(sigmoid_config(), &mut r);
    let mut blob = net.to_bytes();
    blob[0] = 9;
    assert_eq!(NeuralNetwork::from_bytes(&blob).err(), Some(DecodeError::Invalid));
}

#[test]
fn trailing_bytes_are_rejected() {
    let mut r = rng(3);
    let net = NeuralNetwork::new(sigmoid_config(), &mut r);
    let mut blob = net.to_bytes();
    blob.push(0);
    assert_eq!(NeuralNetwork::from_bytes(&blob).err(), Some(DecodeError::Invalid));
}

#[test]
fn max_index_returns_first_maximum() {
    assert_eq!(max_index(&bits_vec(&[0.1, 0.9, 0.3])), 1);
    assert_eq!(max_index(&bits_vec(&[5.0])), 0);
    assert_eq!(max_index(&bits_vec(&[2.0, 2.0, 1.0])), 0);
    assert_eq!(max_index(&bits_vec(&[-3.0, -1.0, -2.0])), 1);
}

#[test]
fn training_converges_on_two_point_task() {
    // inputSize=2, hiddenLayerWidth=2, hiddenLayerCount=1, outputSize=1,
    // learningRate=0.5, trained on [1,0] -> [1] and [0,1] -> [0].
    let mut r = rng(7);
    let mut net = NeuralNetwork::new(sigmoid_config(), &mut r);
    let a = bits_vec(&[1.0, 0.0]);
    let ta = bits_vec(&[1.0]);
    let b = bits_vec(&[0.0, 1.0]);
    let tb = bits_vec(&[0.0]);
    let mut converged = false;
    for _ in 0..5000 {
        net.train(&a, &ta);
        net.train(&b, &tb);
        let pa = val(net.predict(&a)[0]);
        let pb = val(net.predict(&b)[0]);
        if pa > 0.9 && pb < 0.1 {
            converged = true;
            break;
        }
    }
    assert!(converged, "did not converge within 5000 epochs");
}

#[test]
fn average_loss_mostly_decreases_on_separable_data() {
    let mut r = rng(17);
    let config = NetworkConfig {
        activation: activation_of(ActivationType::Sigmoid),
        output_activation: activation_of(ActivationType::Sigmoid),
        layers_quantity: 1,
        layers_size: 4,
        input_size: 2,
        output_size: 1,
        learning_rate: 0.5f64.to_bits(),
    };
    let mut net = NeuralNetwork::new(config, &mut r);

    // A linearly separable synthetic task: label says which coordinate wins.
    let mut inputs: Vec<Vec<u64>> = vec![];
    let mut targets: Vec<Vec<u64>> = vec![];
    for i in 0..8 {
        for j in 0..8 {
            let x = i as f64 / 7.0;
            let y = j as f64 / 7.0;
            if (x - y).abs() < 0.2 {
                continue;
            }
            let label = if x > y { 1.0 } else { 0.0 };
            inputs.push(bits_vec(&[x, y]));
            targets.push(bits_vec(&[label]));
        }
    }

    let loss = |net: &mut NeuralNetwork| -> f64 {
        let mut total = 0.0;
        for (input, target) in inputs.iter().zip(targets.iter()) {
            let out = val(net.predict(input)[0]);
            let want = val(target[0]);
            total += (out - want) * (out - want);
        }
        total / inputs.len() as f64
    };

    let mut decreases = 0;
    let mut increases = 0;
    let mut previous = loss(&mut net);
    for _ in 0..40 {
        net.train_many(&inputs, &targets);
        let current = loss(&mut net);
        if current < previous {
            decreases += 1;
        } else if current > previous {
            increases += 1;
        }
        previous = current;
    }
    assert!(decreases > increases, "loss rose {} times, fell {} times", increases, decreases);
}
