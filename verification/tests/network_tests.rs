use neural_network::activations::Activation;
use neural_network::matrix::Matrix;
use neural_network::network::{Network, NetworkError};

#[test]
fn test_network_new_shapes_and_placement() {
    let init: Vec<f64> = vec![
        0.13, 0.52, 0.91, 0.27, 0.68, 0.05, 0.33, 0.77, 0.21, 0.45, 0.88, 0.09, 0.6,
    ];
    let network = Network::new(
        vec![2, 3, 1],
        Activation {
            function: |x: f64| 1.0 / (1.0 + (-x).exp()),
            derivative: |y: f64| y * (1.0 - y),
        },
        0.5,
        0.0,
        |x: f64, y: f64| x + y,
        |x: f64, y: f64| x - y,
        |x: f64, y: f64| x * y,
        init.clone(),
    )
    .unwrap();

    assert_eq!(network.weights.len(), 2);
    assert_eq!(network.biases.len(), 2);
    assert_eq!((network.weights[0].rows, network.weights[0].cols), (3, 2));
    assert_eq!((network.biases[0].rows, network.biases[0].cols), (3, 1));
    assert_eq!((network.weights[1].rows, network.weights[1].cols), (1, 3));
    assert_eq!((network.biases[1].rows, network.biases[1].cols), (1, 1));
    assert_eq!(network.weights[0].data, init[0..6].to_vec());
    assert_eq!(network.biases[0].data, init[6..9].to_vec());
    assert_eq!(network.weights[1].data, init[9..12].to_vec());
    assert_eq!(network.biases[1].data, init[12..13].to_vec());
}

#[test]
fn test_network_new_rejects_short_topology() {
    let result = Network::new(
        vec![2],
        Activation {
            function: |x: f64| x,
            derivative: |y: f64| y,
        },
        0.5,
        0.0,
        |x: f64, y: f64| x + y,
        |x: f64, y: f64| x - y,
        |x: f64, y: f64| x * y,
        vec![],
    );

    assert!(matches!(result, Err(NetworkError::InvalidTopology)));
}

#[test]
fn test_network_new_rejects_wrong_init_length() {
    let result = Network::new(
        vec![2, 3, 1],
        Activation {
            function: |x: f64| x,
            derivative: |y: f64| y,
        },
        0.5,
        0.0,
        |x: f64, y: f64| x + y,
        |x: f64, y: f64| x - y,
        |x: f64, y: f64| x * y,
        vec![0.1, 0.2, 0.3, 0.4, 0.5],
    );

    assert!(matches!(result, Err(NetworkError::InitSizeMismatch)));
}

#[test]
fn test_feed_forward_output_shape() {
    let init: Vec<f64> = vec![
        0.13, 0.52, 0.91, 0.27, 0.68, 0.05, 0.33, 0.77, 0.21, 0.45, 0.88, 0.09, 0.6,
    ];
    let mut network = Network::new(
        vec![2, 3, 1],
        Activation {
            function: |x: f64| 1.0 / (1.0 + (-x).exp()),
            derivative: |y: f64| y * (1.0 - y),
        },
        0.5,
        0.0,
        |x: f64, y: f64| x + y,
        |x: f64, y: f64| x - y,
        |x: f64, y: f64| x * y,
        init,
    )
    .unwrap();

    let output = network
        .feed_forward(Matrix::from_column(&vec![0.3, 0.7]))
        .unwrap();

    assert_eq!(output.rows, 1);
    assert_eq!(output.cols, 1);
    assert_eq!(output.data.len(), 1);
    assert_eq!(network.data.len(), 3);
    assert_eq!(network.data[0].data, vec![0.3, 0.7]);
}

#[test]
fn test_feed_forward_rejects_wrong_input_size() {
    let init: Vec<f64> = vec![
        0.13, 0.52, 0.91, 0.27, 0.68, 0.05, 0.33, 0.77, 0.21, 0.45, 0.88, 0.09, 0.6,
    ];
    let mut network = Network::new(
        vec![2, 3, 1],
        Activation {
            function: |x: f64| 1.0 / (1.0 + (-x).exp()),
            derivative: |y: f64| y * (1.0 - y),
        },
        0.5,
        0.0,
        |x: f64, y: f64| x + y,
        |x: f64, y: f64| x - y,
        |x: f64, y: f64| x * y,
        init,
    )
    .unwrap();

    let result = network.feed_forward(Matrix::from_column(&vec![0.3, 0.7, 0.1]));

    assert!(matches!(result, Err(NetworkError::InvalidInputSize)));
}

#[test]
fn test_feed_forward_exact_values_identity_activation() {
    // One weight 0.5 and one bias 0.25; with the identity activation the
    // network computes 0.5 * x + 0.25.
    let mut network = Network::new(
        vec![1, 1],
        Activation {
            function: |x: f64| x,
            derivative: |_y: f64| 1.0,
        },
        0.5,
        0.0,
        |x: f64, y: f64| x + y,
        |x: f64, y: f64| x - y,
        |x: f64, y: f64| x * y,
        vec![0.5, 0.25],
    )
    .unwrap();

    let output = network.feed_forward(Matrix::from_column(&vec![2.0])).unwrap();

    assert_eq!(output.data, vec![1.25]);
}

#[test]
fn test_back_propogate_preserves_shapes() {
    let init: Vec<f64> = vec![
        0.13, 0.52, 0.91, 0.27, 0.68, 0.05, 0.33, 0.77, 0.21, 0.45, 0.88, 0.09, 0.6,
    ];
    let mut network = Network::new(
        vec![2, 3, 1],
        Activation {
            function: |x: f64| 1.0 / (1.0 + (-x).exp()),
            derivative: |y: f64| y * (1.0 - y),
        },
        0.5,
        0.0,
        |x: f64, y: f64| x + y,
        |x: f64, y: f64| x - y,
        |x: f64, y: f64| x * y,
        init,
    )
    .unwrap();

    let output = network
        .feed_forward(Matrix::from_column(&vec![1.0, 0.0]))
        .unwrap();
    network.back_propogate(output, Matrix::from_column(&vec![1.0]));

    assert_eq!((network.weights[0].rows, network.weights[0].cols), (3, 2));
    assert_eq!((network.biases[0].rows, network.biases[0].cols), (3, 1));
    assert_eq!((network.weights[1].rows, network.weights[1].cols), (1, 3));
    assert_eq!((network.biases[1].rows, network.biases[1].cols), (1, 1));
    assert_eq!(network.weights[0].data.len(), 6);
    assert_eq!(network.biases[0].data.len(), 3);
    assert_eq!(network.weights[1].data.len(), 3);
    assert_eq!(network.biases[1].data.len(), 1);
}

#[test]
fn test_train_converges_on_boolean_pairs() {
    let init: Vec<f64> = vec![
        0.13, 0.52, 0.91, 0.27, 0.68, 0.05, 0.33, 0.77, 0.21, 0.45, 0.88, 0.09, 0.6,
    ];
    let mut network = Network::new(
        vec![2, 3, 1],
        Activation {
            function: |x: f64| 1.0 / (1.0 + (-x).exp()),
            derivative: |y: f64| y * (1.0 - y),
        },
        0.5,
        0.0,
        |x: f64, y: f64| x + y,
        |x: f64, y: f64| x - y,
        |x: f64, y: f64| x * y,
        init,
    )
    .unwrap();

    let inputs = vec![
        vec![0.0, 0.0],
        vec![0.0, 1.0],
        vec![1.0, 0.0],
        vec![1.0, 1.0],
    ];
    let targets = vec![vec![0.0], vec![1.0], vec![0.0], vec![1.0]];

    network.train(inputs.clone(), targets.clone(), 100000);

    for (input, target) in inputs.iter().zip(targets.iter()) {
        let output = network.feed_forward(Matrix::from_column(input)).unwrap();
        assert!(
            (output.data[0] - target[0]).abs() < 0.1,
            "input {:?} gave {} instead of about {}",
            input,
            output.data[0],
            target[0]
        );
    }
}
