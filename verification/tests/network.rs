use std::cell::Cell;

use nn::matrix::Matrix;
use nn::nn::{Activation, LossFunction, NeuralNetwork};
use nn::optimization::Optimization;

fn m(rows: usize, cols: usize, data: Vec<f64>) -> Matrix<f64> {
    Matrix::with_slice(rows, cols, data)
}

fn identity(_: Activation, x: &Matrix<f64>) -> Matrix<f64> {
    x.clone()
}

fn relu(a: Activation, x: &Matrix<f64>) -> Matrix<f64> {
    match a {
        Activation::ReLU => x.map(|v| v.max(0.0)),
        _ => x.clone(),
    }
}

/// 2 inputs, 2 hidden, 1 output, with known parameters.
fn small_network(act: Activation) -> NeuralNetwork<f64> {
    NeuralNetwork::from_parts(
        vec![m(2, 2, vec![1.0, 2.0, 3.0, 4.0]), m(2, 1, vec![1.0, -1.0])],
        vec![m(1, 2, vec![0.5, -0.5]), m(1, 1, vec![1.0])],
        vec![act, act, act],
        LossFunction::MeanSquaredError,
        Optimization::none(),
        1.0,
    )
}

#[test]
fn new_builds_layer_shapes() {
    let counter = Cell::new(0.0);
    let nn = NeuralNetwork::new(
        &[(2, Activation::Softplus), (8, Activation::Softplus), (3, Activation::Softmax)],
        LossFunction::MeanSquaredError,
        Optimization::rmsprop(0.01, 0.9, 1e-8),
        1.0,
        || {
            counter.set(counter.get() + 1.0);
            counter.get()
        },
    );
    let w = nn.weights();
    let b = nn.biases();
    assert_eq!(w.len(), 2);
    assert_eq!(b.len(), 2);
    assert_eq!((w[0].rows(), w[0].cols()), (2, 8));
    assert_eq!((w[1].rows(), w[1].cols()), (8, 3));
    assert_eq!((b[0].rows(), b[0].cols()), (1, 8));
    assert_eq!((b[1].rows(), b[1].cols()), (1, 3));
    // weights are drawn first, then biases
    assert_eq!(*w[0].index(0), 1.0);
    assert_eq!(*w[1].index(0), 17.0);
    assert_eq!(*b[0].index(0), 41.0);
    assert_eq!(
        nn.activation(),
        &vec![Activation::Softplus, Activation::Softplus, Activation::Softmax]
    );
    assert_eq!(nn.loss_function(), LossFunction::MeanSquaredError);
    assert_eq!(*nn.loss(), 1.0);
}

#[test]
fn new_with_one_layer_has_no_weights() {
    let nn = NeuralNetwork::new(
        &[(4, Activation::Lu)],
        LossFunction::MeanAbsoluteError,
        Optimization::none(),
        1.0,
        || 0.0,
    );
    assert_eq!(nn.weights().len(), 0);
    assert_eq!(nn.biases().len(), 0);
    assert_eq!(nn.activation().len(), 1);
}

#[test]
fn from_parts_keeps_parts_and_is_wf_checks_them() {
    assert!(small_network(Activation::Lu).is_wf());
    // bias row of the wrong length: kept as it is, but not well formed
    let bad = NeuralNetwork::from_parts(
        vec![m(2, 2, vec![1.0; 4])],
        vec![m(1, 3, vec![0.0; 3])],
        vec![Activation::Lu, Activation::Lu],
        LossFunction::MeanSquaredError,
        Optimization::none(),
        1.0,
    );
    assert_eq!((bad.biases()[0].rows(), bad.biases()[0].cols()), (1, 3));
    assert!(!bad.is_wf());
    // weights that do not chain
    let bad = NeuralNetwork::from_parts(
        vec![m(2, 2, vec![1.0; 4]), m(3, 1, vec![1.0; 3])],
        vec![m(1, 2, vec![0.0; 2]), m(1, 1, vec![0.0])],
        vec![Activation::Lu, Activation::Lu, Activation::Lu],
        LossFunction::MeanSquaredError,
        Optimization::none(),
        1.0,
    );
    assert!(!bad.is_wf());
    // too few activations
    let bad = NeuralNetwork::from_parts(
        vec![m(2, 2, vec![1.0; 4])],
        vec![m(1, 2, vec![0.0; 2])],
        vec![],
        LossFunction::MeanSquaredError,
        Optimization::none(),
        1.0,
    );
    assert!(!bad.is_wf());
}

#[test]
fn network_without_weights_passes_any_input_through() {
    let nn = NeuralNetwork::from_parts(
        vec![],
        vec![],
        vec![Activation::Lu],
        LossFunction::MeanSquaredError,
        Optimization::none(),
        1.0,
    );
    let input = m(2, 2, vec![1.0, 2.0, 3.0, 4.0]);
    let out = nn.guess(&input, 0.0, |x, y| x * y, |x, y| x + y, relu);
    assert_eq!((out.rows(), out.cols()), (2, 2));
    assert_eq!(out.data(), &vec![1.0, 2.0, 3.0, 4.0]);
}

#[test]
fn forward_propagation_values() {
    let nn = small_network(Activation::Lu);
    let input = m(1, 2, vec![1.0, 1.0]);
    let (pre, post) = nn.forward_propagation(&input, 0.0, |x, y| x * y, |x, y| x + y, identity);
    assert_eq!(pre.len(), 2);
    assert_eq!(post.len(), 3);
    assert_eq!(post[0].data(), &vec![1.0, 1.0]);
    // [1, 1] * [[1, 2], [3, 4]] + [0.5, -0.5] = [4.5, 5.5]
    assert_eq!(pre[0].data(), &vec![4.5, 5.5]);
    assert_eq!(post[1].data(), &vec![4.5, 5.5]);
    // [4.5, 5.5] * [[1], [-1]] + [1] = [0]
    assert_eq!(pre[1].data(), &vec![0.0]);
}

#[test]
fn guess_applies_activations() {
    let nn = small_network(Activation::ReLU);
    let input = m(1, 2, vec![-1.0, 0.0]);
    // [-1, 0] * W0 + b0 = [-0.5, -2.5] -> relu -> [0, 0]; * W1 + b1 = [1]
    let out = nn.guess(&input, 0.0, |x, y| x * y, |x, y| x + y, relu);
    assert_eq!((out.rows(), out.cols()), (1, 1));
    assert_eq!(out.data(), &vec![1.0]);
}

#[test]
fn layer_gradients_values() {
    let nn = small_network(Activation::Lu);
    let error = m(1, 2, vec![1.0, 2.0]);
    let deriv = m(1, 2, vec![1.0, 0.5]);
    let input = m(1, 2, vec![3.0, 4.0]);
    let (wg, bg, next) =
        nn.layer_gradients(0, &error, &deriv, &input, 0.0, |x, y| x * y, |x, y| x + y);
    // activated = [1, 1]; weight gradient = [3, 4]^T * [1, 1]
    assert_eq!((wg.rows(), wg.cols()), (2, 2));
    assert_eq!(wg.data(), &vec![3.0, 3.0, 4.0, 4.0]);
    assert_eq!(bg.data(), &vec![1.0, 1.0]);
    // next error = [1, 1] * W0^T = [1 + 2, 3 + 4]
    assert_eq!(next.data(), &vec![3.0, 7.0]);
}

#[test]
fn apply_gradients_subtracts() {
    let mut nn = small_network(Activation::Lu);
    let wg = m(2, 2, vec![1.0, 1.0, 1.0, 1.0]);
    let bg = m(1, 2, vec![0.5, 0.5]);
    nn.apply_gradients(0, &wg, &bg, |x, y| x - y);
    assert_eq!(nn.weights()[0].data(), &vec![0.0, 1.0, 2.0, 3.0]);
    assert_eq!(nn.biases()[0].data(), &vec![0.0, -1.0]);
    assert_eq!(nn.weights()[1].data(), &vec![1.0, -1.0]);
}

#[test]
fn init_cache_zeroes_rmsprop() {
    let mut o = Optimization::rmsprop(0.01, 0.9, 1e-8);
    let w = vec![m(2, 3, vec![1.0; 6])];
    let b = vec![m(1, 3, vec![1.0; 3])];
    o.init_cache(&w, &b, 0.0);
    match o {
        Optimization::RmsProp { lr, rho, eps, wc, bc } => {
            assert_eq!((lr, rho, eps), (0.01, 0.9, 1e-8));
            assert_eq!(wc.len(), 1);
            assert_eq!((wc[0].rows(), wc[0].cols()), (2, 3));
            assert_eq!(wc[0].data(), &vec![0.0; 6]);
            assert_eq!(bc[0].data(), &vec![0.0; 3]);
        }
        _ => panic!("expected RmsProp"),
    }
    let mut s = Optimization::sgd(0.5);
    s.init_cache(&w, &b, 0.0);
    assert!(matches!(s, Optimization::SGD { lr } if lr == 0.5));
    let mut n: Optimization<f64> = Optimization::none();
    n.init_cache(&w, &b, 0.0);
    assert!(matches!(n, Optimization::NONE));
}

#[test]
fn network_cache_init_and_loss() {
    let mut nn = NeuralNetwork::from_parts(
        vec![m(2, 1, vec![1.0, 1.0])],
        vec![m(1, 1, vec![0.0])],
        vec![Activation::Sigmoid, Activation::Softmax],
        LossFunction::MeanAbsoluteError,
        Optimization::rmsprop(0.01, 0.9, 1e-8),
        1.0,
    );
    nn.init_optimization_cache(0.0);
    match nn.optimization() {
        Optimization::RmsProp { wc, bc, .. } => {
            assert_eq!((wc[0].rows(), wc[0].cols()), (2, 1));
            assert_eq!((bc[0].rows(), bc[0].cols()), (1, 1));
        }
        _ => panic!("expected RmsProp"),
    }
    nn.set_loss(0.25);
    assert_eq!(*nn.loss(), 0.25);
    if let Optimization::RmsProp { lr, .. } = nn.optimization_mut() {
        *lr = 0.5;
    }
    assert!(matches!(nn.optimization(), Optimization::RmsProp { lr, .. } if *lr == 0.5));
}

#[test]
fn defaults() {
    assert_eq!(Activation::default(), Activation::ReLU);
    assert_eq!(LossFunction::default(), LossFunction::MeanSquaredError);
}

fn ones(_: Activation, x: &Matrix<f64>) -> Matrix<f64> {
    x.map(|_| 1.0)
}

#[test]
fn gradients_last_layer_first() {
    let nn = small_network(Activation::Lu);
    let input = m(1, 2, vec![1.0, 1.0]);
    let (pre, post) = nn.forward_propagation(&input, 0.0, |x, y| x * y, |x, y| x + y, identity);
    let error = m(1, 1, vec![2.0]);
    let g = nn.gradients(&pre, &post, error, 0.0, |x, y| x * y, |x, y| x + y, ones);
    assert_eq!(g.len(), 2);
    // output layer: [4.5, 5.5]^T * [2]
    assert_eq!((g[0].0.rows(), g[0].0.cols()), (2, 1));
    assert_eq!(g[0].0.data(), &vec![9.0, 11.0]);
    assert_eq!(g[0].1.data(), &vec![2.0]);
    // first layer gets the error [2] * [[1], [-1]]^T = [2, -2]
    assert_eq!((g[1].0.rows(), g[1].0.cols()), (2, 2));
    assert_eq!(g[1].0.data(), &vec![2.0, -2.0, 2.0, -2.0]);
    assert_eq!(g[1].1.data(), &vec![2.0, -2.0]);
}

#[test]
fn gradients_of_network_without_weights() {
    let nn = NeuralNetwork::from_parts(
        vec![],
        vec![],
        vec![Activation::Lu],
        LossFunction::MeanSquaredError,
        Optimization::none(),
        1.0,
    );
    let input = m(1, 3, vec![1.0, 2.0, 3.0]);
    let (pre, post) = nn.forward_propagation(&input, 0.0, |x, y| x * y, |x, y| x + y, identity);
    assert_eq!(pre.len(), 0);
    assert_eq!(post.len(), 1);
    let out = nn.guess(&input, 0.0, |x, y| x * y, |x, y| x + y, identity);
    assert_eq!(out.data(), &vec![1.0, 2.0, 3.0]);
    let g = nn.gradients(&pre, &post, m(1, 3, vec![0.0; 3]), 0.0, |x, y| x * y, |x, y| x + y, ones);
    assert!(g.is_empty());
}

#[test]
fn optimize_none_and_sgd() {
    let wg = m(1, 2, vec![1.0, -2.0]);
    let bg = m(1, 1, vec![4.0]);
    let mut o: Optimization<f64> = Optimization::none();
    let (w, b) = o.optimize(0, &wg, &bg, |lr, g| g * lr, |_, c, _| *c, |_, _, g, _| *g);
    assert_eq!(w.data(), wg.data());
    assert_eq!(b.data(), bg.data());
    let mut o = Optimization::sgd(0.5);
    let (w, b) = o.optimize(0, &wg, &bg, |lr, g| g * lr, |_, c, _| *c, |_, _, g, _| *g);
    assert_eq!(w.data(), &vec![0.5, -1.0]);
    assert_eq!(b.data(), &vec![2.0]);
}

#[test]
fn optimize_rmsprop_updates_one_layer_cache() {
    let w0 = vec![m(1, 2, vec![0.0; 2]), m(2, 1, vec![0.0; 2])];
    let b0 = vec![m(1, 2, vec![0.0; 2]), m(1, 1, vec![0.0])];
    let mut o = Optimization::rmsprop(0.5, 0.9, 0.0);
    o.init_cache(&w0, &b0, 0.0);
    let wg = m(2, 1, vec![2.0, -2.0]);
    let bg = m(1, 1, vec![1.0]);
    // cache: c * rho + g * g * (1 - rho); step: g / sqrt(c + eps) * lr
    let (w, b) = o.optimize(
        1,
        &wg,
        &bg,
        |lr, g| g * lr,
        |rho, c, g| c * rho + g * g * (1.0 - rho),
        |lr, eps, g, c| g / (c + eps).sqrt() * lr,
    );
    match &o {
        Optimization::RmsProp { wc, bc, .. } => {
            assert_eq!(wc[0].data(), &vec![0.0, 0.0]);
            let c = 4.0 * (1.0 - 0.9);
            assert_eq!(wc[1].data(), &vec![c, c]);
            assert_eq!(bc[1].data(), &vec![1.0 * (1.0 - 0.9)]);
            assert_eq!(w.data(), &vec![2.0 / f64::sqrt(c) * 0.5, -2.0 / f64::sqrt(c) * 0.5]);
            assert_eq!(b.data(), &vec![1.0 / f64::sqrt(1.0 - 0.9) * 0.5]);
        }
        _ => panic!("expected RmsProp"),
    }
}

fn one_derivative(_: Activation, x: &Matrix<f64>) -> Matrix<f64> {
    x.map(|_| 1.0)
}

#[test]
fn backward_propagation_updates_every_layer() {
    let mut nn = small_network(Activation::Lu);
    let input = m(1, 2, vec![1.0, 1.0]);
    let (pre, post) = nn.forward_propagation(&input, 0.0, |x, y| x * y, |x, y| x + y, identity);
    nn.backward_propagation(
        &pre,
        &post,
        m(1, 1, vec![2.0]),
        0.0,
        |x, y| x * y,
        |x, y| x + y,
        one_derivative,
        |lr, g| lr * g,
        |_, c, _| *c,
        |_, _, g, _| *g,
        |x, y| x - y,
    );
    // last layer: gradient [4.5, 5.5]^T * [2] and [2]
    assert_eq!(nn.weights()[1].data(), &vec![1.0 - 9.0, -1.0 - 11.0]);
    assert_eq!(nn.biases()[1].data(), &vec![-1.0]);
    // the error passed back uses the weights from before the step: [2] * [1, -1]
    assert_eq!(nn.weights()[0].data(), &vec![-1.0, 4.0, 1.0, 6.0]);
    assert_eq!(nn.biases()[0].data(), &vec![-1.5, 1.5]);
    assert_eq!(*nn.loss(), 1.0);
}

#[test]
fn backward_propagation_with_sgd_scales_updates() {
    let mut nn = NeuralNetwork::from_parts(
        vec![m(1, 1, vec![2.0])],
        vec![m(1, 1, vec![1.0])],
        vec![Activation::Lu, Activation::Lu],
        LossFunction::MeanSquaredError,
        Optimization::sgd(0.5),
        1.0,
    );
    let input = m(1, 1, vec![3.0]);
    let (pre, post) = nn.forward_propagation(&input, 0.0, |x, y| x * y, |x, y| x + y, identity);
    assert_eq!(post[1].data(), &vec![7.0]);
    nn.backward_propagation(
        &pre,
        &post,
        m(1, 1, vec![1.0]),
        0.0,
        |x, y| x * y,
        |x, y| x + y,
        one_derivative,
        |lr, g| lr * g,
        |_, c, _| *c,
        |_, _, g, _| *g,
        |x, y| x - y,
    );
    // gradients [3] and [1], halved, subtracted
    assert_eq!(nn.weights()[0].data(), &vec![0.5]);
    assert_eq!(nn.biases()[0].data(), &vec![0.5]);
}

#[test]
fn backward_propagation_with_rmsprop_fills_caches() {
    let mut nn = NeuralNetwork::from_parts(
        vec![m(1, 1, vec![2.0])],
        vec![m(1, 1, vec![1.0])],
        vec![Activation::Lu, Activation::Lu],
        LossFunction::MeanSquaredError,
        Optimization::rmsprop(1.0, 0.5, 0.0),
        1.0,
    );
    nn.init_optimization_cache(0.0);
    let input = m(1, 1, vec![3.0]);
    let (pre, post) = nn.forward_propagation(&input, 0.0, |x, y| x * y, |x, y| x + y, identity);
    nn.backward_propagation(
        &pre,
        &post,
        m(1, 1, vec![1.0]),
        0.0,
        |x, y| x * y,
        |x, y| x + y,
        one_derivative,
        |lr, g| lr * g,
        |rho, c, g| c * rho + g * g * (1.0 - rho),
        |lr, _, g, c| g / c * lr,
        |x, y| x - y,
    );
    // caches: 0 * 0.5 + 9 * 0.5 = 4.5 and 0 * 0.5 + 1 * 0.5 = 0.5
    match nn.optimization() {
        Optimization::RmsProp { wc, bc, .. } => {
            assert_eq!(wc[0].data(), &vec![4.5]);
            assert_eq!(bc[0].data(), &vec![0.5]);
        }
        _ => panic!("not rmsprop"),
    }
    // updates 3 / 4.5 and 1 / 0.5
    assert_eq!(nn.weights()[0].data(), &vec![2.0 - 3.0 / 4.5]);
    assert_eq!(nn.biases()[0].data(), &vec![1.0 - 2.0]);
}

fn squared_error(_: LossFunction, o: &Matrix<f64>, c: &Matrix<f64>) -> f64 {
    o.data().iter().zip(c.data()).map(|(o, c)| (o - c) * (o - c)).sum()
}

fn error_difference(_: LossFunction, o: &Matrix<f64>, c: &Matrix<f64>) -> Matrix<f64> {
    m(o.rows(), o.cols(), o.data().iter().zip(c.data()).map(|(o, c)| o - c).collect())
}

#[test]
fn train_epoch_trains_on_each_sample_in_turn() {
    let mut nn = small_network(Activation::Lu);
    let inputs = vec![m(1, 2, vec![1.0, 1.0]), m(1, 2, vec![0.0, 0.0])];
    let correct = vec![m(1, 1, vec![1.0]), m(1, 1, vec![1.0])];
    let losses = nn.train_epoch(
        &inputs,
        &correct,
        0.0,
        |x, y| x * y,
        |x, y| x + y,
        identity,
        one_derivative,
        squared_error,
        error_difference,
        |lr, g| lr * g,
        |_, c, _| *c,
        |_, _, g, _| *g,
        |x, y| x - y,
    );
    // first sample: output 0, loss 1, error [-1]
    // second sample runs through the updated network: output 3.5, loss 6.25
    assert_eq!(losses, vec![1.0, 6.25]);
    assert_eq!(*nn.loss(), 1.0);
}

#[test]
fn train_epoch_keeps_the_architecture() {
    let mut nn = small_network(Activation::Lu);
    let inputs = vec![m(1, 2, vec![1.0, 2.0]), m(1, 2, vec![-1.0, 0.5]), m(1, 2, vec![0.0, 3.0])];
    let correct = vec![m(1, 1, vec![0.0]), m(1, 1, vec![1.0]), m(1, 1, vec![2.0])];
    for _ in 0..3 {
        let losses = nn.train_epoch(
            &inputs,
            &correct,
            0.0,
            |x, y| x * y,
            |x, y| x + y,
            identity,
            one_derivative,
            squared_error,
            error_difference,
            |lr, g| lr * g,
            |_, c, _| *c,
            |_, _, g, _| *g,
            |x, y| x - y,
        );
        assert_eq!(losses.len(), 3);
    }
    let shapes: Vec<(usize, usize)> = nn.weights().iter().map(|w| (w.rows(), w.cols())).collect();
    assert_eq!(shapes, vec![(2, 2), (2, 1)]);
    let shapes: Vec<(usize, usize)> = nn.biases().iter().map(|b| (b.rows(), b.cols())).collect();
    assert_eq!(shapes, vec![(1, 2), (1, 1)]);
    assert_eq!(nn.activation(), &vec![Activation::Lu, Activation::Lu, Activation::Lu]);
    assert_eq!(nn.loss_function(), LossFunction::MeanSquaredError);
}

#[test]
fn train_epoch_without_samples_changes_nothing() {
    let mut nn = small_network(Activation::Lu);
    let losses = nn.train_epoch(
        &[],
        &[],
        0.0,
        |x, y| x * y,
        |x, y| x + y,
        identity,
        one_derivative,
        squared_error,
        error_difference,
        |lr, g| lr * g,
        |_, c, _| *c,
        |_, _, g, _| *g,
        |x, y| x - y,
    );
    assert!(losses.is_empty());
    assert_eq!(nn.weights()[0].data(), &vec![1.0, 2.0, 3.0, 4.0]);
}

#[test]
fn guess_is_the_last_forward_matrix() {
    let nn = small_network(Activation::ReLU);
    for input in [vec![-1.0, 0.0], vec![1.0, 1.0], vec![0.25, -3.0]] {
        let input = m(1, 2, input);
        let out = nn.guess(&input, 0.0, |x, y| x * y, |x, y| x + y, relu);
        let (_, post) = nn.forward_propagation(&input, 0.0, |x, y| x * y, |x, y| x + y, relu);
        assert_eq!(out.data(), post.last().unwrap().data());
        assert_eq!((out.rows(), out.cols()), (1, 1));
    }
}

#[test]
fn train_epoch_compares_with_first_expected_values() {
    let mut nn = small_network(Activation::Lu);
    let inputs = vec![m(1, 2, vec![1.0, 1.0])];
    // more expected values than outputs: the first one is compared
    let correct = vec![m(1, 3, vec![1.0, 50.0, -7.0])];
    let losses = nn.train_epoch(
        &inputs,
        &correct,
        0.0,
        |x, y| x * y,
        |x, y| x + y,
        identity,
        one_derivative,
        squared_error,
        error_difference,
        |lr, g| lr * g,
        |_, c, _| *c,
        |_, _, g, _| *g,
        |x, y| x - y,
    );
    assert_eq!(losses, vec![1.0]);
    assert_eq!(nn.weights()[1].data(), &vec![5.5, 4.5]);
    assert_eq!(nn.biases()[1].data(), &vec![2.0]);
    assert_eq!(nn.weights()[0].data(), &vec![2.0, 1.0, 4.0, 3.0]);
    assert_eq!(nn.biases()[0].data(), &vec![1.5, -1.5]);
}
