use mlp::activation::ActivationKind;
use mlp::layer::{ActivationLayer, FCLayer, Layer};
use mlp::loss::{LossFunction, MSE};
use mlp::mlp::MLP;
use mlp::Error;
use rand::rngs::StdRng;
use rand::SeedableRng;

fn vec_bits(xs: &[f64]) -> Vec<u64> {
    xs.iter().map(|x| x.to_bits()).collect()
}

fn vec_vals(xs: &[u64]) -> Vec<f64> {
    xs.iter().map(|x| f64::from_bits(*x)).collect()
}

fn fixed_fc() -> FCLayer {
    FCLayer {
        num_inputs: 2,
        num_outputs: 2,
        weights: vec![vec_bits(&[0.1, 0.2]), vec_bits(&[0.3, 0.4])],
        bias: vec_bits(&[0.1, 0.2]),
        input: None,
    }
}

#[test]
fn test_sigmoid_at_zero() {
    let mut layer = ActivationLayer::new(ActivationKind::Sigmoid);
    let output = layer.forward(&vec_bits(&[0.0])).unwrap();
    // 1 / (1 + e^0) is exactly one half.
    assert_eq!(vec_vals(&output), vec![0.5]);
}

#[test]
fn test_tanh_values() {
    let mut layer = ActivationLayer::new(ActivationKind::Tanh);
    let input = vec_bits(&[1.0, -0.5]);
    let output = layer.forward(&input).unwrap();
    assert_eq!(vec_vals(&output), vec![(1.0f64).tanh(), (-0.5f64).tanh()]);

    let delta = vec_bits(&[1.0, 2.0]);
    let upstream = layer.backward(&delta, (0.0f64).to_bits()).unwrap();
    let t1 = (1.0f64).tanh();
    let t2 = (-0.5f64).tanh();
    let expected = vec![(1.0 - t1 * t1) * 1.0, (1.0 - t2 * t2) * 2.0];
    assert_eq!(vec_vals(&upstream), expected);
}

#[test]
fn test_relu_values() {
    let mut layer = ActivationLayer::new(ActivationKind::ReLU);
    let input = vec_bits(&[-1.0, 0.0, 2.5, -0.0]);
    let output = layer.forward(&input).unwrap();
    assert_eq!(vec_vals(&output), vec![0.0, 0.0, 2.5, 0.0]);

    let delta = vec_bits(&[1.0, 1.0, 1.0, 1.0]);
    let upstream = layer.backward(&delta, (0.0f64).to_bits()).unwrap();
    assert_eq!(vec_vals(&upstream), vec![0.0, 0.0, 1.0, 0.0]);
}

#[test]
fn test_mse_loss_and_gradient() {
    let target = vec_bits(&[1.0, 2.0, 3.0]);
    let predicted = vec_bits(&[1.5, 1.0, 4.0]);

    let loss = MSE.loss(&target, &predicted).unwrap();
    let d0 = 1.5 - 1.0;
    let d1 = 1.0 - 2.0;
    let d2 = 4.0 - 3.0;
    let expected_loss = (((0.0 + d0 * d0) + d1 * d1) + d2 * d2) / 3.0;
    assert_eq!(f64::from_bits(loss), expected_loss);

    let gradient = MSE.gradient(&target, &predicted).unwrap();
    let expected_gradient = vec![2.0 * d0 / 3.0, 2.0 * d1 / 3.0, 2.0 * d2 / 3.0];
    assert_eq!(vec_vals(&gradient), expected_gradient);
}

#[test]
fn test_mse_shape_mismatch() {
    let target = vec_bits(&[1.0, 2.0]);
    let predicted = vec_bits(&[1.0]);
    assert_eq!(MSE.loss(&target, &predicted), Err(Error::ShapeMismatch));
    assert_eq!(MSE.gradient(&target, &predicted), Err(Error::ShapeMismatch));
}

#[test]
fn test_fc_forward_shape_mismatch() {
    let mut fc = fixed_fc();
    let result = fc.forward(&vec_bits(&[1.0, 2.0, 3.0]));
    assert_eq!(result, Err(Error::ShapeMismatch));
    // The rejected call left the layer untouched: no cache was stored.
    assert_eq!(
        fc.backward(&vec_bits(&[0.1, 0.2]), (0.01f64).to_bits()),
        Err(Error::MissingCache)
    );
}

#[test]
fn test_fc_backward_shape_mismatch() {
    let mut fc = fixed_fc();
    fc.forward(&vec_bits(&[1.0, 2.0])).unwrap();
    let result = fc.backward(&vec_bits(&[0.1, 0.2, 0.3]), (0.01f64).to_bits());
    assert_eq!(result, Err(Error::ShapeMismatch));
}

#[test]
fn test_backward_consumes_cache() {
    let mut fc = fixed_fc();
    fc.forward(&vec_bits(&[1.0, 2.0])).unwrap();
    fc.backward(&vec_bits(&[0.1, 0.2]), (0.01f64).to_bits()).unwrap();
    // The cache was consumed by the backward pass: a second backward
    // pass without a new forward pass fails.
    assert_eq!(
        fc.backward(&vec_bits(&[0.1, 0.2]), (0.01f64).to_bits()),
        Err(Error::MissingCache)
    );
}

#[test]
fn test_activation_backward_shape_mismatch() {
    let mut layer = ActivationLayer::new(ActivationKind::Sigmoid);
    assert_eq!(
        layer.backward(&vec_bits(&[0.1]), (0.0f64).to_bits()),
        Err(Error::MissingCache)
    );
    layer.forward(&vec_bits(&[1.0, 2.0])).unwrap();
    assert_eq!(
        layer.backward(&vec_bits(&[0.1]), (0.0f64).to_bits()),
        Err(Error::ShapeMismatch)
    );
}

#[test]
fn test_mlp_forward_shape_mismatch() {
    let mut net = MLP::new();
    net.add_layer(Layer::FullyConnected(fixed_fc()));
    net.add_layer(Layer::Activation(ActivationLayer::new(ActivationKind::Sigmoid)));
    assert_eq!(net.forward(&vec_bits(&[1.0])), Err(Error::ShapeMismatch));
    assert!(net.forward(&vec_bits(&[1.0, 2.0])).is_ok());
}

#[test]
fn test_forward_idempotent() {
    let mut fc = fixed_fc();
    let input = vec_bits(&[0.3, -0.7]);
    let first = fc.forward(&input).unwrap();
    let second = fc.forward(&input).unwrap();
    assert_eq!(first, second);

    let mut act = ActivationLayer::new(ActivationKind::Sigmoid);
    let first = act.forward(&input).unwrap();
    let second = act.forward(&input).unwrap();
    assert_eq!(first, second);
}

#[test]
fn test_fc_new_initialization() {
    let mut rng = StdRng::seed_from_u64(11);
    let fc = FCLayer::new(3, 2, &mut rng);
    assert_eq!(fc.num_inputs, 3);
    assert_eq!(fc.num_outputs, 2);
    assert_eq!(fc.get_weights().len(), 2);
    for row in fc.get_weights() {
        assert_eq!(row.len(), 3);
    }
    // Bias starts at zero.
    assert_eq!(vec_vals(fc.get_bias()), vec![0.0, 0.0]);
    // Xavier bound: every weight lies in [-sqrt(6/(3+2)), sqrt(6/(3+2))).
    let bound = (6.0f64 / 5.0).sqrt();
    let mut all_same = true;
    let mut previous: Option<f64> = None;
    for row in fc.get_weights() {
        for w in vec_vals(row) {
            assert!(w >= -bound && w < bound, "weight {} outside [{}, {})", w, -bound, bound);
            if let Some(p) = previous {
                if p != w {
                    all_same = false;
                }
            }
            previous = Some(w);
        }
    }
    assert!(!all_same, "all weights drawn equal; the sampler looks constant");

    // With many draws the weights should fill their Xavier interval:
    // all inside [-sqrt(6/20), sqrt(6/20)), and the largest magnitude
    // close to the bound.
    let wide = FCLayer::new(10, 10, &mut rng);
    let wide_bound = (6.0f64 / 20.0).sqrt();
    let mut max_mag = 0.0f64;
    for row in wide.get_weights() {
        for w in vec_vals(row) {
            assert!(w >= -wide_bound && w < wide_bound);
            if w.abs() > max_mag {
                max_mag = w.abs();
            }
        }
    }
    assert!(
        max_mag > 0.8 * wide_bound,
        "largest weight magnitude {} is far below the bound {}",
        max_mag,
        wide_bound
    );
}

#[test]
fn test_train_returns_epoch_losses() {
    let mut net = MLP::new();
    net.add_layer(Layer::FullyConnected(fixed_fc()));
    let input = vec_bits(&[1.0, 2.0]);
    let target = vec_bits(&[0.0, 0.0]);
    let losses = net.train(&input, &target, (0.01f64).to_bits(), 1).unwrap();
    assert_eq!(losses.len(), 1);
    // One fully-connected layer: output = W x + b, loss = sum of squares.
    let o0 = 0.1 * 1.0 + 0.2 * 2.0 + 0.1;
    let o1 = 0.3 * 1.0 + 0.4 * 2.0 + 0.2;
    let expected = (0.0 + o0 * o0) + o1 * o1;
    assert_eq!(f64::from_bits(losses[0]), expected);
}

#[test]
fn test_train_shape_mismatch_target() {
    let mut net = MLP::new();
    net.add_layer(Layer::FullyConnected(fixed_fc()));
    let input = vec_bits(&[1.0, 2.0]);
    let target = vec_bits(&[0.0]);
    assert_eq!(
        net.train(&input, &target, (0.01f64).to_bits(), 5),
        Err(Error::ShapeMismatch)
    );
}

#[test]
fn test_backward_succeeds_after_forward() {
    let mut rng = StdRng::seed_from_u64(5);
    let mut net = MLP::new();
    net.add_layer(Layer::FullyConnected(FCLayer::new(2, 3, &mut rng)));
    net.add_layer(Layer::Activation(ActivationLayer::new(ActivationKind::Tanh)));
    net.add_layer(Layer::FullyConnected(FCLayer::new(3, 1, &mut rng)));
    // Backward before any forward fails on the last layer's cache.
    assert_eq!(
        net.backward(&vec_bits(&[0.5]), (0.1f64).to_bits()),
        Err(Error::MissingCache)
    );
    let out = net.forward(&vec_bits(&[0.25, -0.5])).unwrap();
    assert_eq!(out.len(), 1);
    // After a full forward pass, a backward pass seeded with a
    // gradient of the output's length is owed success.
    assert!(net.backward(&vec_bits(&[0.5]), (0.1f64).to_bits()).is_ok());
}

#[test]
fn test_xor_convergence() {
    let mut rng = StdRng::seed_from_u64(3);
    let mut net = MLP::new();
    net.add_layer(Layer::FullyConnected(FCLayer::new(2, 3, &mut rng)));
    net.add_layer(Layer::Activation(ActivationLayer::new(ActivationKind::Sigmoid)));
    net.add_layer(Layer::FullyConnected(FCLayer::new(3, 1, &mut rng)));
    net.add_layer(Layer::Activation(ActivationLayer::new(ActivationKind::Sigmoid)));

    let inputs = vec![
        vec_bits(&[0.0, 0.0]),
        vec_bits(&[0.0, 1.0]),
        vec_bits(&[1.0, 0.0]),
        vec_bits(&[1.0, 1.0]),
    ];
    let targets = vec![
        vec_bits(&[0.0]),
        vec_bits(&[1.0]),
        vec_bits(&[1.0]),
        vec_bits(&[0.0]),
    ];

    let losses = net
        .train_batch(&inputs, &targets, (0.1f64).to_bits(), 10000)
        .unwrap();
    assert_eq!(losses.len(), 10000);
    // The total loss must have shrunk substantially over training.
    let first = f64::from_bits(losses[0]);
    let last = f64::from_bits(losses[9999]);
    assert!(last < first / 5.0, "loss went from {} to {}", first, last);

    for (input, target) in inputs.iter().zip(targets.iter()) {
        let output = vec_vals(&net.forward(input).unwrap());
        let want = vec_vals(target);
        assert!(
            (output[0] - want[0]).abs() < 0.15,
            "XOR({:?}) gave {} instead of about {}",
            vec_vals(input),
            output[0],
            want[0]
        );
    }
}
