use rust_simple_nn::matrix::Matrix;
use rust_simple_nn::nn::{
    get_actvation_from_string, get_cost_from_string, ActivationKind, CostKind, Layer,
    NeuralNetWork, ScalarOps,
};
use std::cell::Cell;

type Bin = fn(f64, f64) -> f64;
type Ops = ScalarOps<
    f64,
    Bin,
    Bin,
    Bin,
    Bin,
    fn(ActivationKind, f64) -> f64,
    fn(ActivationKind, f64) -> f64,
    fn(CostKind, f64, f64) -> f64,
    fn(CostKind, f64, f64) -> f64,
    fn(f64, f64) -> bool,
    fn(usize) -> f64,
>;

fn addf(a: f64, b: f64) -> f64 {
    a + b
}

fn subf(a: f64, b: f64) -> f64 {
    a - b
}

fn mulf(a: f64, b: f64) -> f64 {
    a * b
}

fn divf(a: f64, b: f64) -> f64 {
    a / b
}

fn sigmoid(x: f64) -> f64 {
    1.0 / (1.0 + (-x).exp())
}

fn actf(k: ActivationKind, x: f64) -> f64 {
    match k {
        ActivationKind::Sigmoid => sigmoid(x),
        ActivationKind::Relu => {
            if x > 0.0 {
                x
            } else {
                x * 0.0
            }
        }
        ActivationKind::Identity => x,
    }
}

fn actdf(k: ActivationKind, x: f64) -> f64 {
    match k {
        ActivationKind::Sigmoid => sigmoid(x) * (1.0 - sigmoid(x)),
        ActivationKind::Relu => {
            if x > 0.0 {
                1.0
            } else {
                0.0
            }
        }
        ActivationKind::Identity => 1.0,
    }
}

fn costtf(_k: CostKind, a: f64, b: f64) -> f64 {
    (b - a).powf(2.0)
}

fn costdf(_k: CostKind, a: f64, b: f64) -> f64 {
    2.0 * (a - b)
}

fn gtf(a: f64, b: f64) -> bool {
    a > b
}

fn cntf(n: usize) -> f64 {
    n as f64
}

fn ops() -> Ops {
    ScalarOps {
        addf: addf as Bin,
        subf: subf as Bin,
        mulf: mulf as Bin,
        divf: divf as Bin,
        actf: actf as fn(ActivationKind, f64) -> f64,
        actdf: actdf as fn(ActivationKind, f64) -> f64,
        costtf: costtf as fn(CostKind, f64, f64) -> f64,
        costdf: costdf as fn(CostKind, f64, f64) -> f64,
        gtf: gtf as fn(f64, f64) -> bool,
        cntf: cntf as fn(usize) -> f64,
        zero: 0.0,
    }
}

fn set(m: &mut Matrix<f64>, i: usize, j: usize, v: f64) {
    let c = m.cols;
    m.values[i * c + j] = v;
}

#[test]
fn new_dot_result_dim_test() {
    let ma: Matrix<f64> = Matrix::new(2, 2, 0.0);
    let mb: Matrix<f64> = Matrix::new(2, 3, 0.0);
    let dot_result = Matrix::new_dot_result(&ma, &mb, 0.0);
    assert!(
        dot_result.rows == ma.rows
            && dot_result.cols == mb.cols
            && dot_result.values.len() == ma.rows * mb.cols
    );
}

#[test]
fn dot_product_test() {
    let mut ma: Matrix<f64> = Matrix::new(2, 2, 0.0);
    let mut mb: Matrix<f64> = Matrix::new(2, 3, 0.0);
    let mut result: Matrix<f64> = Matrix::new(2, 3, 0.0);
    let confirm = vec![4.0, 0.0, 2.0, 2.0, 0.0, 1.0];

    set(&mut ma, 0, 0, 2.0);
    set(&mut ma, 0, 1, 0.0);
    set(&mut ma, 1, 0, 1.0);
    set(&mut ma, 1, 1, 0.0);

    set(&mut mb, 0, 0, 2.0);
    set(&mut mb, 0, 1, 0.0);
    set(&mut mb, 0, 2, 1.0);
    set(&mut mb, 1, 0, 0.0);
    set(&mut mb, 1, 1, 0.0);
    set(&mut mb, 1, 2, 4.0);

    ma.dot(&mut result, &mb, addf as Bin, mulf as Bin, 0.0);

    let precision: f64 = result
        .values
        .iter()
        .zip(confirm.iter())
        .map(|(&a, &b)| (a - b).abs())
        .sum();
    assert!(precision == 0.0);
}

#[test]
fn matrix_add_test() {
    let mut ma: Matrix<f64> = Matrix::new(2, 2, 0.0);
    let mut mb: Matrix<f64> = Matrix::new(2, 2, 0.0);
    let mut result: Matrix<f64> = Matrix::new(2, 2, 0.0);
    let confirm = vec![3.0, 9.0, 3.0, 7.0];

    set(&mut ma, 0, 0, 2.0);
    set(&mut ma, 0, 1, 8.0);
    set(&mut ma, 1, 0, 1.0);
    set(&mut ma, 1, 1, 4.0);

    set(&mut mb, 0, 0, 1.0);
    set(&mut mb, 0, 1, 1.0);
    set(&mut mb, 1, 0, 2.0);
    set(&mut mb, 1, 1, 3.0);

    ma.add(&mut result, &mb, addf as Bin);

    let precision: f64 = result
        .values
        .iter()
        .zip(confirm.iter())
        .map(|(&a, &b)| (a - b).abs())
        .sum();
    assert!(precision == 0.0);
}

#[test]
fn matrix_multiply() {
    let mut ma: Matrix<f64> = Matrix::new(3, 3, 0.0);
    let mut mb: Matrix<f64> = Matrix::new(3, 3, 0.0);
    let confirm = vec![7.0, 14.0, 21.0, 32.0, 40.0, 48.0, 21.0, 24.0, 27.0];

    for j in 0..3 {
        set(&mut ma, 0, j, 7.0);
        set(&mut ma, 1, j, 8.0);
        set(&mut ma, 2, j, 3.0);
    }
    for i in 0..3 {
        for j in 0..3 {
            set(&mut mb, i, j, (i * 3 + j) as f64 + 1.0);
        }
    }

    ma.multiply_by_mut(&mb, mulf as Bin);

    let precision: f64 = ma
        .values
        .iter()
        .zip(confirm.iter())
        .map(|(&a, &b)| (a - b).abs())
        .sum();
    assert!(precision == 0.0);
}

#[test]
fn trans_dot_matches_explicit_transpose() {
    let mut ma: Matrix<f64> = Matrix::new(3, 2, 0.0);
    let mut mb: Matrix<f64> = Matrix::new(3, 4, 0.0);
    for i in 0..3 {
        for j in 0..2 {
            set(&mut ma, i, j, (i as f64) * 1.5 - (j as f64) * 0.25 + 0.125);
        }
        for j in 0..4 {
            set(&mut mb, i, j, (i as f64) * 0.75 + (j as f64) * 2.0 - 1.0);
        }
    }
    let mut ta: Matrix<f64> = Matrix::new(2, 3, 0.0);
    for i in 0..3 {
        for j in 0..2 {
            let v = ma.values[i * ma.cols + j];
            set(&mut ta, j, i, v);
        }
    }
    let mut r1: Matrix<f64> = Matrix::new(2, 4, 0.0);
    let mut r2: Matrix<f64> = Matrix::new(2, 4, 0.0);
    ma.trans_dot(&mut r1, &mb, addf as Bin, mulf as Bin, 0.0);
    ta.dot(&mut r2, &mb, addf as Bin, mulf as Bin, 0.0);
    assert_eq!(r1.values, r2.values);
}

#[test]
fn outer_product_accumulation() {
    let (d0, d1) = (0.5, -2.0);
    let (p0, p1, p2) = (3.0, 0.25, -1.5);
    let mut m: Matrix<f64> = Matrix::new(2, 3, 0.0);
    m.matrix_weight_compute(&vec![p0, p1, p2], &vec![d0, d1], addf as Bin, mulf as Bin);
    let confirm = vec![d0 * p0, d0 * p1, d0 * p2, d1 * p0, d1 * p1, d1 * p2];
    assert_eq!(m.values, confirm);
}

#[test]
fn unknown_activation_falls_back_to_relu() {
    let banana = get_actvation_from_string("banana");
    assert_eq!(banana, ActivationKind::Relu);
    assert_eq!(banana, get_actvation_from_string("relu"));
    assert_eq!(banana, get_actvation_from_string("default"));
    assert_eq!(get_actvation_from_string(" SIGMOID "), ActivationKind::Sigmoid);
    assert_eq!(get_actvation_from_string("sigmoïd"), ActivationKind::Relu);
    assert_eq!(get_actvation_from_string("Identity"), ActivationKind::Identity);
    assert_eq!(get_actvation_from_string("id"), ActivationKind::Identity);
}

#[test]
fn cost_registry_always_quadratic() {
    assert_eq!(get_cost_from_string("quadratic"), CostKind::Quadratic);
    assert_eq!(get_cost_from_string("default"), CostKind::Quadratic);
    assert_eq!(get_cost_from_string("banana"), CostKind::Quadratic);
}

fn make_init(seed: u64) -> Cell<u64> {
    Cell::new(seed)
}

fn next_uniform(state: &Cell<u64>) -> f64 {
    // Small deterministic linear congruential generator, uniform in [0, 1).
    let s = state
        .get()
        .wrapping_mul(6364136223846793005)
        .wrapping_add(1442695040888963407);
    state.set(s);
    ((s >> 11) as f64) / ((1u64 << 53) as f64)
}

#[test]
fn forward_is_deterministic() {
    let state = make_init(7);
    let r = &state;
    let initf = move || next_uniform(r) * 0.1;
    let mut nn = NeuralNetWork::new(&vec![3, 5, 2], "default", "sigmoid", "sigmoid", initf, ops());
    nn.input(&vec![0.3, -1.2, 2.5]);
    let out1 = nn.layers[nn.nb_layer - 1].post_activation.values.clone();
    nn.input(&vec![0.3, -1.2, 2.5]);
    let out2 = nn.layers[nn.nb_layer - 1].post_activation.values.clone();
    assert_eq!(out1, out2);
}

#[test]
fn forward_known_values() {
    // 2 inputs -> 1 identity neuron, weights and bias set by hand:
    // output = 2*x0 + 3*x1 + 0.5.
    let initf = || 0.0;
    let mut nn = NeuralNetWork::new(&vec![2, 1], "default", "identity", "identity", initf, ops());
    set(&mut nn.layers[0].w_matrix, 0, 0, 2.0);
    set(&mut nn.layers[0].w_matrix, 0, 1, 3.0);
    set(&mut nn.layers[0].b_matrix, 0, 0, 0.5);
    nn.input(&vec![1.5, -2.0]);
    assert_eq!(nn.layers[0].post_activation.values, vec![2.0 * 1.5 + 3.0 * (-2.0) + 0.5]);
}

#[test]
fn single_sample_update_scales_gradient() {
    // With a mini-batch of one sample the divisor is 1, so each weight
    // moves by exactly learning_rate * grad.
    let mut layer: Layer<f64> = Layer {
        w_matrix: Matrix::new(2, 3, 1.0),
        b_matrix: Matrix::new(2, 1, 0.25),
        pre_activation: Matrix::new(2, 1, 0.0),
        post_activation: Matrix::new(2, 1, 0.0),
        activation: ActivationKind::Identity,
        len: 2,
        grad_w: Matrix::new(2, 3, 0.0),
        grad_b: Matrix::new(2, 1, 0.0),
    };
    for n in 0..6 {
        layer.grad_w.values[n] = (n as f64) - 2.5;
    }
    layer.grad_b.values[0] = 4.0;
    layer.grad_b.values[1] = -1.0;
    let lr = 0.125;
    layer.update_parameters(1.0, lr, subf as Bin, mulf as Bin, divf as Bin);
    for n in 0..6 {
        let g = (n as f64) - 2.5;
        assert_eq!(layer.w_matrix.values[n], 1.0 - lr * g);
    }
    assert_eq!(layer.b_matrix.values[0], 0.25 - lr * 4.0);
    assert_eq!(layer.b_matrix.values[1], 0.25 - lr * (-1.0));
}

#[test]
fn xor_convergence() {
    let state = make_init(12345);
    let r = &state;
    let initf = move || next_uniform(r) * 2.0 - 1.0;
    let mut nn = NeuralNetWork::new(&vec![2, 4, 1], "default", "sigmoid", "sigmoid", initf, ops());
    let mut data: Vec<(Vec<f64>, Vec<f64>)> = Vec::new();
    for _ in 0..32 {
        data.push((vec![0.0, 0.0], vec![0.0]));
        data.push((vec![0.0, 1.0], vec![1.0]));
        data.push((vec![1.0, 0.0], vec![1.0]));
        data.push((vec![1.0, 1.0], vec![0.0]));
    }
    nn.train(&data, 4, 400, 2.0);
    let cost = nn.batch_cost(&data[0..4]);
    assert!(cost < 0.1, "cost after training: {cost}");
}
