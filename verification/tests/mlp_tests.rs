use mlp::activation::ActivationKind;
use mlp::layer::{ActivationLayer, FCLayer, Layer};
use mlp::mlp::MLP;
use rand::rngs::StdRng;
use rand::SeedableRng;

fn vec_bits(xs: &[f64]) -> Vec<u64> {
    xs.iter().map(|x| x.to_bits()).collect()
}

fn vec_vals(xs: &[u64]) -> Vec<f64> {
    xs.iter().map(|x| f64::from_bits(*x)).collect()
}

#[test]
fn test_add_layer() {
    let mut rng = StdRng::seed_from_u64(7);
    let mut mlp = MLP::new();

    mlp.add_layer(Layer::FullyConnected(FCLayer::new(2, 2, &mut rng)));
    mlp.add_layer(Layer::Activation(ActivationLayer::new(ActivationKind::Sigmoid)));

    assert_eq!(mlp.num_layers(), 2);
}

#[test]
fn test_remove_layer() {
    let mut rng = StdRng::seed_from_u64(7);
    let mut mlp = MLP::new();

    mlp.add_layer(Layer::FullyConnected(FCLayer::new(2, 2, &mut rng)));
    mlp.add_layer(Layer::Activation(ActivationLayer::new(ActivationKind::Sigmoid)));
    mlp.add_layer(Layer::FullyConnected(FCLayer::new(2, 1, &mut rng)));

    mlp.remove_layer();

    assert_eq!(mlp.num_layers(), 2);
}

#[test]
fn test_train() {
    let mut rng = StdRng::seed_from_u64(42);
    let mut mlp = MLP::new();

    // Add layers
    mlp.add_layer(Layer::FullyConnected(FCLayer::new(2, 2, &mut rng))); // 2 input neurons, 2 hidden neurons
    mlp.add_layer(Layer::Activation(ActivationLayer::new(ActivationKind::Sigmoid)));
    mlp.add_layer(Layer::FullyConnected(FCLayer::new(2, 1, &mut rng))); // 2 hidden neurons, 1 output neuron

    // Input and target
    let input = vec_bits(&[0.5, 0.8]);
    let target = [0.2];

    // Perform training step
    let learning_rate = (0.01f64).to_bits();
    let epochs = 100;

    // Track loss to ensure it's decreasing
    let mut previous_loss = f64::MAX;

    for epoch in 0..epochs {
        let output = vec_vals(&mlp.forward(&input).unwrap());
        let delta: Vec<f64> = output.iter().zip(target.iter()).map(|(o, t)| o - t).collect();
        let current_loss: f64 = delta.iter().map(|x| x.powi(2)).sum(); // Mean Square Error

        // Print the loss, weights, and biases for debugging
        println!("Epoch {}: Loss = {:.6}", epoch + 1, current_loss);

        let (weights_layer_1, bias_layer_1) = match &mlp.layers[0] {
            Layer::FullyConnected(fc) => (fc.get_weights().clone(), fc.get_bias().clone()),
            _ => panic!("expected a fully-connected layer"),
        };
        let (weights_layer_2, bias_layer_2) = match &mlp.layers[2] {
            Layer::FullyConnected(fc) => (fc.get_weights().clone(), fc.get_bias().clone()),
            _ => panic!("expected a fully-connected layer"),
        };

        println!("Weights Layer 1: {:?}", weights_layer_1.iter().map(|r| vec_vals(r)).collect::<Vec<_>>());
        println!("Bias Layer 1: {:?}", vec_vals(&bias_layer_1));
        println!("Weights Layer 2: {:?}", weights_layer_2.iter().map(|r| vec_vals(r)).collect::<Vec<_>>());
        println!("Bias Layer 2: {:?}", vec_vals(&bias_layer_2));

        // Check if the loss is decreasing (not required but a good sanity check)
        assert!(
            current_loss < previous_loss,
            "Loss did not decrease at epoch {}",
            epoch + 1
        );
        previous_loss = current_loss;

        // Update the model using backward propagation
        let delta_bits: Vec<u64> = delta.iter().map(|x| x.to_bits()).collect();
        mlp.backward(&delta_bits, learning_rate).unwrap();
    }
}

#[test]
fn test_train_xor_batch() {
    let mut rng = StdRng::seed_from_u64(3);
    let mut mlp = MLP::new();

    // Add layers
    mlp.add_layer(Layer::FullyConnected(FCLayer::new(2, 3, &mut rng))); // 2 input neurons, 3 hidden neurons
    mlp.add_layer(Layer::Activation(ActivationLayer::new(ActivationKind::Sigmoid)));
    mlp.add_layer(Layer::FullyConnected(FCLayer::new(3, 1, &mut rng))); // 3 hidden neurons, 1 output neuron
    mlp.add_layer(Layer::Activation(ActivationLayer::new(ActivationKind::Sigmoid)));

    // XOR input and target data
    let inputs = vec![
        vec_bits(&[0.0, 0.0]),
        vec_bits(&[0.0, 1.0]),
        vec_bits(&[1.0, 0.0]),
        vec_bits(&[1.0, 1.0]),
    ];

    let targets = vec![
        vec_bits(&[0.0]), // XOR(0, 0) = 0
        vec_bits(&[1.0]), // XOR(0, 1) = 1
        vec_bits(&[1.0]), // XOR(1, 0) = 1
        vec_bits(&[0.0]), // XOR(1, 1) = 0
    ];

    // Training parameters
    let learning_rate = (0.1f64).to_bits();
    let epochs = 10000;

    // Train the network with batch updates
    mlp.train_batch(&inputs, &targets, learning_rate, epochs).unwrap();

    // Test the network after training
    for (input, target) in inputs.iter().zip(targets.iter()) {
        let output = mlp.forward(input).unwrap();
        println!(
            "Input: {:?}, Target: {:?}, Output: {:?}",
            vec_vals(input),
            vec_vals(target),
            vec_vals(&output)
        );
    }
}
