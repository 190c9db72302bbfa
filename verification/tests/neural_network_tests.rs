//! Tests for the feed-forward network over floating-point scalars.

use rustml::matrix::Matrix;
use rustml::neural_network::NeuralNetwork;
use rustml::scalar::Scalar;

/// A double-precision floating-point scalar for exercising the library; its
/// arithmetic is the platform's `f64` arithmetic.
#[derive(Clone, Copy, Debug, PartialEq)]
struct F64(f64);

impl Scalar for F64 {
    fn add(self, rhs: Self) -> Self {
        F64(self.0 + rhs.0)
    }

    fn sub(self, rhs: Self) -> Self {
        F64(self.0 - rhs.0)
    }

    fn mul(self, rhs: Self) -> Self {
        F64(self.0 * rhs.0)
    }

    fn div(self, rhs: Self) -> Self {
        F64(self.0 / rhs.0)
    }

    fn sigmoid(self) -> Self {
        F64(1.0 / (1.0 + (-self.0).exp()))
    }

    fn relu(self) -> Self {
        F64(self.0.max(0.0))
    }

    fn zero() -> Self {
        F64(0.0)
    }

    fn from_count(n: usize) -> Self {
        F64(n as f64)
    }
}

fn fm(vals: &[f64]) -> Vec<F64> {
    vals.iter().map(|&x| F64(x)).collect()
}

fn matrix(rows: usize, cols: usize, vals: &[f64]) -> Matrix<F64> {
    Matrix::from_iter(rows, cols, &fm(vals))
}

/// The two-three-one network with the fixed parameters used across several
/// tests.
fn fixed_net() -> NeuralNetwork<F64> {
    let mut nn: NeuralNetwork<F64> = NeuralNetwork::new(&vec![2, 3, 1]);
    nn.set_weight(0, matrix(2, 3, &[0.1, 0.2, 0.3, 0.4, 0.5, 0.6]));
    nn.set_weight(1, matrix(3, 1, &[0.7, 0.8, 0.9]));
    nn.set_bias(0, matrix(1, 3, &[0.1, 0.2, 0.3]));
    nn.set_bias(1, matrix(1, 1, &[0.4]));
    nn
}

#[test]
fn neural_network_test_new() {
    let nn: NeuralNetwork<F64> = NeuralNetwork::new(&vec![2, 3, 1]);
    assert_eq!(nn.depth(), 2);
    assert_eq!(*nn.activation(0), Matrix::new(1, 2));
    assert_eq!(*nn.activation(1), Matrix::new(1, 3));
    assert_eq!(*nn.activation(2), Matrix::new(1, 1));
    assert_eq!(*nn.weight(0), Matrix::new(2, 3));
    assert_eq!(*nn.weight(1), Matrix::new(3, 1));
    assert_eq!(*nn.bias(0), Matrix::new(1, 3));
    assert_eq!(*nn.bias(1), Matrix::new(1, 1));
}

#[test]
fn test_new_random() {
    let seed = fm(&[1.1, 1.1, 1.1, 1.1, 1.1, 1.1]);
    let nn = NeuralNetwork::from_iter(&vec![2, 3, 1], &seed);
    assert_eq!(nn.depth(), 2);
    assert_eq!(nn.activation(1).rows(), 1);
    assert_eq!(nn.activation(1).cols(), 3);
    assert_eq!(nn.activation(2).rows(), 1);
    assert_eq!(nn.activation(2).cols(), 1);

    assert_eq!(*nn.weight(0), matrix(2, 3, &[1.1; 6]));
    assert_eq!(*nn.weight(1), matrix(3, 1, &[1.1; 3]));
    assert_eq!(*nn.bias(0), matrix(1, 3, &[1.1; 3]));
    assert_eq!(*nn.bias(1), matrix(1, 1, &[1.1; 1]));
}

#[test]
fn test_forward() {
    let mut nn = fixed_net();
    nn.set_input_take(matrix(1, 2, &[0.5, 0.6]));
    nn.forward();

    assert_eq!(
        *nn.activation(1),
        matrix(
            1,
            3,
            &[0.5962826992967879, 0.6456563062257954, 0.6921095043017882]
        )
    );
    assert_eq!(*nn.activation(2), matrix(1, 1, &[0.8761885526812198]));
}

#[test]
fn test_cost() {
    let mut nn: NeuralNetwork<F64> = NeuralNetwork::new(&vec![2, 2, 1]);
    nn.set_weight(0, matrix(2, 2, &[0.840188, 0.394383, 0.783099, 0.798440]));
    nn.set_weight(1, matrix(2, 1, &[0.335223, 0.768230]));
    nn.set_bias(0, matrix(1, 2, &[0.911647, 0.197551]));
    nn.set_bias(1, matrix(1, 1, &[0.277775]));

    let input = matrix(4, 2, &[0.0, 0.0, 0.0, 1.0, 1.0, 0.0, 1.0, 1.0]);
    let output = matrix(4, 1, &[0.0, 1.0, 1.0, 0.0]);

    let cost = nn.cost(&input, &output);

    assert_eq!(cost, F64(0.30877066478958926));
}

#[test]
fn test_finite_diff() {
    let mut nn = fixed_net();

    let input = matrix(2, 2, &[0.1, 0.2, 0.3, 0.4]);
    let output = matrix(2, 1, &[0.5, 0.6]);

    let mut gradient: NeuralNetwork<F64> = NeuralNetwork::new(&vec![2, 3, 1]);
    let eps = F64(0.0001);
    nn.finite_diff(&mut gradient, &eps, &input, &output);

    assert_eq!(
        *gradient.weight(0),
        matrix(
            2,
            3,
            &[
                0.002338431382142847,
                0.0026023290392029885,
                0.0028172072125132175,
                0.0036226984256870765,
                0.004037243530596868,
                0.004379096906204083
            ]
        )
    );
    assert_eq!(
        *gradient.weight(1),
        matrix(
            3,
            1,
            &[
                0.04148976830056772,
                0.044146948279810694,
                0.046728225587544525
            ]
        )
    );
    assert_eq!(
        *gradient.bias(0),
        matrix(
            1,
            3,
            &[
                0.012842612617247617,
                0.014349051058182294,
                0.01561876383046612
            ]
        )
    );
    assert_eq!(*gradient.bias(1), matrix(1, 1, &[0.07441508547284537]));
}

#[test]
fn test_learn() {
    let mut nn = fixed_net();
    nn.set_input_take(matrix(1, 2, &[0.5, 0.6]));

    let mut gradient: NeuralNetwork<F64> = NeuralNetwork::new(&vec![2, 3, 1]);
    gradient.set_weight(0, matrix(2, 3, &[0.1, 0.2, 0.3, 0.4, 0.5, 0.6]));
    gradient.set_weight(1, matrix(3, 1, &[0.7, 0.8, 0.9]));
    gradient.set_bias(0, matrix(1, 3, &[0.1, 0.2, 0.3]));
    gradient.set_bias(1, matrix(1, 1, &[0.4]));

    nn.learn(&mut gradient, &F64(0.1));

    assert_eq!(
        *nn.weight(0),
        matrix(2, 3, &[0.090, 0.180, 0.270, 0.360, 0.450, 0.540])
    );
    assert_eq!(*nn.weight(1), matrix(3, 1, &[0.630, 0.720, 0.810]));
    assert_eq!(*nn.bias(0), matrix(1, 3, &[0.09, 0.18, 0.27]));
    assert_eq!(*nn.bias(1), matrix(1, 1, &[0.36]));
}

#[test]
fn test_nn_test() {
    let mut nn = fixed_net();

    let input = matrix(1, 2, &[0.5, 0.6]);
    let output = nn.test(&input);

    assert_eq!(output, matrix(1, 1, &[0.8761885526812198]));
}

#[test]
fn test_forward_deterministic() {
    let mut a = fixed_net();
    let mut b = fixed_net();
    let input = matrix(1, 2, &[0.5, 0.6]);
    let first = a.test(&input);
    let again = a.test(&input);
    let other = b.test(&input);
    assert_eq!(first, again);
    assert_eq!(first, other);
}

#[test]
fn test_cost_single_row() {
    let mut nn = fixed_net();
    let input = matrix(1, 2, &[0.5, 0.6]);
    let target_low = matrix(1, 1, &[0.6]);
    let target_high = matrix(1, 1, &[1.1523771053624396]);

    let out = nn.test(&input).get(0, 0).unwrap().0;
    let d = out - 0.6;
    let expected = d * d / 1.0;

    let cost_low = nn.cost(&input, &target_low).0;
    assert_eq!(cost_low, expected);
    assert!(cost_low >= 0.0);

    // the same error magnitude on the other side of the target gives the
    // same cost
    let cost_high = nn.cost(&input, &target_high).0;
    assert!((cost_high - cost_low).abs() < 1e-12);
}

#[test]
fn test_finite_diff_restores_parameters() {
    let mut nn = fixed_net();
    let before_w0 = nn.weight(0).clone();
    let before_w1 = nn.weight(1).clone();
    let before_b0 = nn.bias(0).clone();
    let before_b1 = nn.bias(1).clone();

    let input = matrix(2, 2, &[0.1, 0.2, 0.3, 0.4]);
    let output = matrix(2, 1, &[0.5, 0.6]);
    let mut gradient: NeuralNetwork<F64> = NeuralNetwork::new(&vec![2, 3, 1]);
    nn.finite_diff(&mut gradient, &F64(0.0001), &input, &output);

    assert_eq!(*nn.weight(0), before_w0);
    assert_eq!(*nn.weight(1), before_w1);
    assert_eq!(*nn.bias(0), before_b0);
    assert_eq!(*nn.bias(1), before_b1);
    // the accumulator's cells did change
    assert_ne!(*gradient.weight(0), Matrix::new(2, 3));
}

#[test]
fn test_training_reduces_cost() {
    let mut nn: NeuralNetwork<F64> = NeuralNetwork::new(&vec![2, 2, 1]);
    nn.set_weight(0, matrix(2, 2, &[0.840188, 0.394383, 0.783099, 0.798440]));
    nn.set_weight(1, matrix(2, 1, &[0.335223, 0.768230]));
    nn.set_bias(0, matrix(1, 2, &[0.911647, 0.197551]));
    nn.set_bias(1, matrix(1, 1, &[0.277775]));

    let input = matrix(4, 2, &[0.0, 0.0, 0.0, 1.0, 1.0, 0.0, 1.0, 1.0]);
    let output = matrix(4, 1, &[0.0, 1.0, 1.0, 0.0]);

    let mut gradient: NeuralNetwork<F64> = NeuralNetwork::new(&vec![2, 2, 1]);
    let eps = F64(0.1);
    let rate = F64(0.1);

    let initial = nn.cost(&input, &output).0;
    for _ in 0..1000 {
        nn.finite_diff(&mut gradient, &eps, &input, &output);
        nn.learn(&mut gradient, &rate);
    }
    let trained = nn.cost(&input, &output).0;
    assert!(trained < initial);
}
