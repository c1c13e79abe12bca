use mlp::activation::ActivationKind;
use mlp::layer::{ActivationLayer, FCLayer};

fn vec_bits(xs: &[f64]) -> Vec<u64> {
    xs.iter().map(|x| x.to_bits()).collect()
}

fn vec_vals(xs: &[u64]) -> Vec<f64> {
    xs.iter().map(|x| f64::from_bits(*x)).collect()
}

#[test]
fn test_fc_layer_forward() {
    let mut fc_layer = FCLayer {
        num_inputs: 2,
        num_outputs: 2,
        weights: vec![vec_bits(&[0.1, 0.2]), vec_bits(&[0.3, 0.4])],
        bias: vec_bits(&[0.1, 0.2]),
        input: None,
    };

    let input = vec_bits(&[1.0, 2.0]);

    let output = fc_layer.forward(&input).unwrap();

    let expected_output = vec![0.1 * 1.0 + 0.2 * 2.0 + 0.1, 0.3 * 1.0 + 0.4 * 2.0 + 0.2];
    assert_eq!(vec_vals(&output), expected_output);
}

#[test]
fn test_fc_layer_backward() {
    let mut fc_layer = FCLayer {
        num_inputs: 2,
        num_outputs: 2,
        weights: vec![vec_bits(&[0.1, 0.2]), vec_bits(&[0.3, 0.4])],
        bias: vec_bits(&[0.1, 0.2]),
        input: None,
    };

    // Need to perform forward pass to update inputs
    let input = vec_bits(&[1.0, 2.0]);

    let output = fc_layer.forward(&input).unwrap();

    let expected_output = vec![0.1 * 1.0 + 0.2 * 2.0 + 0.1, 0.3 * 1.0 + 0.4 * 2.0 + 0.2];
    assert_eq!(vec_vals(&output), expected_output);

    let delta = vec_bits(&[0.1, 0.2]);
    let learning_rate = (0.01f64).to_bits();

    let input_error = fc_layer.backward(&delta, learning_rate).unwrap();

    let expected_input_error = vec![0.1 * 0.1 + 0.3 * 0.2, 0.2 * 0.1 + 0.4 * 0.2];

    assert_eq!(vec_vals(&input_error), expected_input_error);

    let expected_updated_weights = vec![
        vec![0.1 - 0.01 * 1.0 * 0.1, 0.2 - 0.01 * 2.0 * 0.1],
        vec![0.3 - 0.01 * 1.0 * 0.2, 0.4 - 0.01 * 2.0 * 0.2],
    ];

    let updated_weights: Vec<Vec<f64>> =
        fc_layer.get_weights().iter().map(|row| vec_vals(row)).collect();
    assert_eq!(updated_weights, expected_updated_weights);

    let expected_bias = vec![0.1 - 0.01 * 0.1, 0.2 - 0.01 * 0.2];

    assert_eq!(vec_vals(fc_layer.get_bias()), expected_bias);
}

#[test]
fn test_activation_forward() {
    let mut activation = ActivationLayer {
        activation: ActivationKind::Sigmoid,
        input: None,
    };

    let input = vec_bits(&[1.0, 2.0]);

    let expected_output = vec![
        1.0 / (1.0 + (-1.0 as f64).exp()),
        1.0 / (1.0 + (-2.0 as f64).exp()),
    ];

    let output = activation.forward(&input).unwrap();

    assert_eq!(vec_vals(&output), expected_output);
}

#[test]
fn test_activation_backward() {
    let mut activation = ActivationLayer {
        activation: ActivationKind::Sigmoid,
        input: None,
    };

    let input = vec_bits(&[1.0, 2.0]);

    let expected_output = vec![
        1.0 / (1.0 + (-1.0 as f64).exp()),
        1.0 / (1.0 + (-2.0 as f64).exp()),
    ];

    // Need to perform forward first in order to store input
    let output = activation.forward(&input).unwrap();

    assert_eq!(vec_vals(&output), expected_output);

    let delta = vec_bits(&[0.1, 0.2]);
    let learning_rate = (0.01f64).to_bits(); // This doesn't matter since there are no learnable parameters in this layer

    let expected_input_error = vec![
        // (sigmoid * (1.0 - sigmoid)) * delta:
        (1.0 / (1.0 + (-1.0 as f64).exp())) * (1.0 - (1.0 / (1.0 + (-1.0 as f64).exp()))) * 0.1,
        (1.0 / (1.0 + (-2.0 as f64).exp())) * (1.0 - (1.0 / (1.0 + (-2.0 as f64).exp()))) * 0.2,
    ];

    let input_error = activation.backward(&delta, learning_rate).unwrap();

    assert_eq!(vec_vals(&input_error), expected_input_error);
}
