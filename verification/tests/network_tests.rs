use mnist_net::get_weight_delta;
use mnist_net::merge_deltas;
use mnist_net::merge_gradients;
use mnist_net::param_count;
use mnist_net::BiasData;
use mnist_net::Matrix;
use mnist_net::ModelError;
use mnist_net::Network;
use mnist_net::NetworkData;
use mnist_net::Scalar;
use mnist_net::TrainingData;
use mnist_net::WeightData;

#[derive(Clone, Copy, Debug, PartialEq)]
struct F(f64);

impl Scalar for F {
    // the spec-level names are erased from verified code and never called at
    // run time; give them the same meaning as the executable methods
    fn spec_zero() -> F {
        F(0.0)
    }
    fn spec_one() -> F {
        F(1.0)
    }
    fn spec_plus(self, other: F) -> F {
        F(self.0 + other.0)
    }
    fn spec_minus(self, other: F) -> F {
        F(self.0 - other.0)
    }
    fn spec_times(self, other: F) -> F {
        F(self.0 * other.0)
    }
    fn spec_sigmoid(self) -> F {
        F(1.0 / (1.0 + std::f64::consts::E.powf(-self.0)))
    }
    fn spec_d_sigmoid(self) -> F {
        F(self.0 * (1.0 - self.0))
    }
    fn spec_from_pixel(p: u8) -> F {
        F(p as f64 / 255.0)
    }
    fn zero() -> F {
        F(0.0)
    }
    fn one() -> F {
        F(1.0)
    }
    fn plus(self, other: F) -> F {
        F(self.0 + other.0)
    }
    fn minus(self, other: F) -> F {
        F(self.0 - other.0)
    }
    fn times(self, other: F) -> F {
        F(self.0 * other.0)
    }
    fn sigmoid(self) -> F {
        F(1.0 / (1.0 + std::f64::consts::E.powf(-self.0)))
    }
    fn d_sigmoid(self) -> F {
        F(self.0 * (1.0 - self.0))
    }
    fn from_pixel(p: u8) -> F {
        F(p as f64 / 255.0)
    }
}

fn sigmoid(x: f64) -> f64 {
    1.0 / (1.0 + std::f64::consts::E.powf(-x))
}

fn weight_block(rows: usize, cols: usize, data: &[f64]) -> WeightData<F> {
    WeightData { rows, cols, data: data.iter().map(|x| F(*x)).collect() }
}

fn bias_block(data: &[f64]) -> BiasData<F> {
    BiasData { rows: data.len(), data: data.iter().map(|x| F(*x)).collect() }
}

/// A 2-layer network (3 inputs -> 2 hidden -> 2 outputs) with fixed values.
fn sample_data() -> NetworkData<F> {
    NetworkData {
        weights: vec![
            weight_block(2, 3, &[0.1, -0.2, 0.3, 0.4, 0.5, -0.6]),
            weight_block(2, 2, &[0.7, -0.8, 0.9, 0.25]),
        ],
        biases: vec![bias_block(&[0.05, -0.15]), bias_block(&[0.35, -0.45])],
    }
}

fn sample_network() -> Network<F> {
    Network::from_data(sample_data(), F(0.015)).unwrap()
}

fn bits_of(v: &[F]) -> Vec<u64> {
    v.iter().map(|x| x.0.to_bits()).collect()
}

fn network_bits(net: &Network<F>) -> Vec<Vec<u64>> {
    let snap = net.output_data();
    let mut all = Vec::new();
    for w in snap.weights.iter() {
        all.push(bits_of(&w.data));
    }
    for b in snap.biases.iter() {
        all.push(bits_of(&b.data));
    }
    all
}

#[test]
fn zero_network_outputs_half() {
    let data = NetworkData {
        weights: vec![weight_block(3, 2, &[0.0; 6]), weight_block(2, 3, &[0.0; 6])],
        biases: vec![bias_block(&[0.0; 3]), bias_block(&[0.0; 2])],
    };
    let net = Network::from_data(data, F(0.5)).unwrap();
    let out = net.feed_forward(vec![F(0.7), F(-0.3)]);
    assert_eq!(out, vec![F(0.5), F(0.5)]);
    let outs = net.feed_forward_outputs(&vec![F(123.0), F(-456.0)]);
    for layer in outs.iter().skip(1) {
        for unit in layer.iter() {
            assert_eq!(*unit, F(0.5));
        }
    }
}

#[test]
fn single_unit_exact() {
    let w = 1.25f64;
    let b = -0.5f64;
    let x = 0.75f64;
    let data = NetworkData {
        weights: vec![weight_block(1, 1, &[w])],
        biases: vec![bias_block(&[b])],
    };
    let net = Network::from_data(data, F(0.015)).unwrap();
    let out = net.feed_forward(vec![F(x)]);
    assert_eq!(out.len(), 1);
    assert_eq!(out[0].0.to_bits(), sigmoid(w * x + b).to_bits());
}

#[test]
fn snapshot_round_trip_is_bit_identical() {
    let net = sample_network();
    let snap = net.output_data();
    let restored = Network::from_data(snap, F(0.015)).unwrap();
    assert_eq!(network_bits(&net), network_bits(&restored));
    let input = vec![F(0.3), F(0.6), F(-0.9)];
    let a = net.feed_forward(input.clone());
    let b = restored.feed_forward(input);
    assert_eq!(bits_of(&a), bits_of(&b));
}

#[test]
fn import_rejects_wrong_weight_length() {
    let mut data = sample_data();
    data.weights[0].data.pop();
    assert!(matches!(Network::from_data(data, F(0.1)), Err(ModelError::Malformed)));
}

#[test]
fn import_rejects_bias_weight_mismatch() {
    let mut data = sample_data();
    data.biases[1] = bias_block(&[1.0, 2.0, 3.0]);
    assert!(matches!(Network::from_data(data, F(0.1)), Err(ModelError::Malformed)));
}

#[test]
fn import_rejects_broken_chain() {
    let mut data = sample_data();
    data.weights[1] = weight_block(2, 3, &[0.0; 6]);
    assert!(matches!(Network::from_data(data, F(0.1)), Err(ModelError::Malformed)));
}

#[test]
fn import_rejects_uneven_lists() {
    let mut data = sample_data();
    data.biases.pop();
    assert!(matches!(Network::from_data(data, F(0.1)), Err(ModelError::Malformed)));
}

fn example(inputs: &[f64], target: &[f64]) -> TrainingData<F> {
    TrainingData {
        inputs: inputs.iter().map(|x| F(*x)).collect(),
        target: target.iter().map(|x| F(*x)).collect(),
        classification: 0,
    }
}

#[test]
fn batch_of_one_matches_single_update() {
    let ex = example(&[0.2, -0.4, 0.8], &[1.0, 0.0]);
    let mut trained = sample_network();
    trained.train(vec![ex.clone()], 1, 1);

    let mut manual = sample_network();
    let (gradients, deltas) = manual.compute_example(&ex);
    manual.apply_update(&gradients, &deltas);

    assert_eq!(network_bits(&trained), network_bits(&manual));
}

#[test]
fn trailing_remainder_is_trained_on() {
    let examples = vec![
        example(&[0.1, 0.2, 0.3], &[1.0, 0.0]),
        example(&[-0.1, 0.4, 0.0], &[0.0, 1.0]),
        example(&[0.9, -0.9, 0.5], &[1.0, 0.0]),
        example(&[0.25, 0.5, -0.5], &[0.0, 1.0]),
        example(&[0.0, 0.0, 1.0], &[1.0, 0.0]),
    ];
    let mut trained = sample_network();
    trained.train(examples.clone(), 2, 1);

    // the same five examples by hand: batches [0,1], [2,3] and the
    // trailing remainder [4], each applied as one combined update
    let mut manual = sample_network();
    for batch in [&examples[0..2], &examples[2..4], &examples[4..5]] {
        let (mut summed_g, mut summed_d) = manual.compute_example(&batch[0]);
        for ex in batch.iter().skip(1) {
            let (g, d) = manual.compute_example(ex);
            merge_gradients(&mut summed_g, &g);
            merge_deltas(&mut summed_d, &d);
        }
        manual.apply_update(&summed_g, &summed_d);
    }

    assert_eq!(network_bits(&trained), network_bits(&manual));
}

#[test]
fn two_epochs_are_two_passes() {
    let examples = vec![
        example(&[0.1, 0.2, 0.3], &[1.0, 0.0]),
        example(&[-0.1, 0.4, 0.0], &[0.0, 1.0]),
        example(&[0.9, -0.9, 0.5], &[1.0, 0.0]),
    ];
    let mut twice = sample_network();
    twice.train(examples.clone(), 2, 2);

    let mut pass_by_pass = sample_network();
    pass_by_pass.train(examples.clone(), 2, 1);
    pass_by_pass.train(examples, 2, 1);

    assert_eq!(network_bits(&twice), network_bits(&pass_by_pass));
}

#[test]
fn gradient_uses_learning_rate_and_output_error() {
    // single layer, 1x1 weight: the output gradient must be exactly
    // (target - out) * out * (1 - out) * learning_rate
    let w = 0.5f64;
    let b = 0.1f64;
    let x = 0.4f64;
    let rate = 0.25f64;
    let data = NetworkData {
        weights: vec![weight_block(1, 1, &[w])],
        biases: vec![bias_block(&[b])],
    };
    let net = Network::from_data(data, F(rate)).unwrap();
    let ex = example(&[x], &[1.0]);
    let (gradients, deltas) = net.compute_example(&ex);
    let out = sigmoid(w * x + b);
    let expected = (1.0 - out) * (out * (1.0 - out)) * rate;
    assert_eq!(gradients.len(), 2);
    assert_eq!(gradients[1].len(), 1);
    assert_eq!(gradients[1][0].0.to_bits(), expected.to_bits());
    // the weight delta is the gradient times the input activation
    assert_eq!(deltas.len(), 1);
    assert_eq!(deltas[0].data.len(), 1);
    assert_eq!(deltas[0].data[0].0.to_bits(), (expected * x).to_bits());
}

#[test]
fn transpose_moves_entries() {
    let m = Matrix::new(2, 3, vec![F(1.0), F(2.0), F(3.0), F(4.0), F(5.0), F(6.0)]);
    let t = m.transpose();
    assert_eq!(t.rows, 3);
    assert_eq!(t.cols, 2);
    assert_eq!(t.data, vec![F(1.0), F(4.0), F(2.0), F(5.0), F(3.0), F(6.0)]);
}

#[test]
fn weight_delta_is_outer_product() {
    let activation = vec![F(2.0), F(3.0)];
    let gradient = vec![F(5.0), F(7.0), F(11.0)];
    let d = get_weight_delta(&activation, &gradient);
    assert_eq!(d.rows, 3);
    assert_eq!(d.cols, 2);
    assert_eq!(
        d.data,
        vec![F(10.0), F(15.0), F(14.0), F(21.0), F(22.0), F(33.0)]
    );
}

#[test]
fn fresh_network_takes_draw_differences() {
    let layers = vec![2usize, 1];
    let count = param_count(&layers, 3).unwrap();
    // layer 0: 2 * (3 + 1) = 8 parameters; layer 1: 1 * (2 + 1) = 3
    assert_eq!(count, 11);
    let draws: Vec<F> = (0..2 * count).map(|i| F(i as f64 * 0.125)).collect();
    let net = Network::new(layers, 3, F(0.015), &draws);
    let snap = net.output_data();
    assert_eq!(snap.weights.len(), 2);
    assert_eq!(snap.weights[0].rows, 2);
    assert_eq!(snap.weights[0].cols, 3);
    assert_eq!(snap.weights[1].rows, 1);
    assert_eq!(snap.weights[1].cols, 2);
    assert_eq!(snap.biases[0].rows, 2);
    assert_eq!(snap.biases[1].rows, 1);
    // every parameter is draw1 - draw2 for consecutive draws
    let mut cursor = 0usize;
    for block in 0..2 {
        for value in snap.weights[block].data.iter().chain(snap.biases[block].data.iter()) {
            let expected = draws[cursor].0 - draws[cursor + 1].0;
            assert_eq!(value.0.to_bits(), expected.to_bits());
            cursor += 2;
        }
    }
}

#[test]
fn mat_vec_mul_is_row_dot_products() {
    let m = Matrix::new(2, 3, vec![F(1.0), F(2.0), F(3.0), F(4.0), F(5.0), F(6.0)]);
    let v = vec![F(7.0), F(8.0), F(9.0)];
    let r = mnist_net::mat_vec_mul(&m, &v);
    assert_eq!(r, vec![F(1.0 * 7.0 + 2.0 * 8.0 + 3.0 * 9.0), F(4.0 * 7.0 + 5.0 * 8.0 + 6.0 * 9.0)]);
}

#[test]
fn vec_plus_adds_elementwise() {
    let r = mnist_net::vec_plus(&vec![F(1.5), F(-2.0)], &vec![F(0.25), F(4.0)]);
    assert_eq!(r, vec![F(1.75), F(2.0)]);
}

#[test]
fn mat_plus_adds_elementwise() {
    let a = Matrix::new(1, 2, vec![F(1.0), F(2.0)]);
    let b = Matrix::new(1, 2, vec![F(10.0), F(20.0)]);
    let r = mnist_net::mat_plus(&a, &b);
    assert_eq!(r.rows, 1);
    assert_eq!(r.cols, 2);
    assert_eq!(r.data, vec![F(11.0), F(22.0)]);
}

#[test]
fn hidden_gradient_uses_propagated_value() {
    // two 1x1 layers make every intermediate value easy to pin down
    let (w0, b0, w1, b1) = (0.8f64, -0.1f64, 0.6f64, 0.2f64);
    let (x, t, rate) = (0.9f64, 1.0f64, 0.5f64);
    let data = NetworkData {
        weights: vec![weight_block(1, 1, &[w0]), weight_block(1, 1, &[w1])],
        biases: vec![bias_block(&[b0]), bias_block(&[b1])],
    };
    let net = Network::from_data(data, F(rate)).unwrap();
    let ex = example(&[x], &[t]);
    let (gradients, deltas) = net.compute_example(&ex);
    let o1 = sigmoid(0.0 + w0 * x + b0);
    let o2 = sigmoid(0.0 + w1 * o1 + b1);
    let g2 = ((t - o2) * (o2 * (1.0 - o2))) * rate;
    let propagated = 0.0 + w1 * g2;
    let g1 = (propagated * (1.0 - propagated)) * rate;
    assert_eq!(gradients[2][0].0.to_bits(), g2.to_bits());
    // the derivative-from-output is applied to the propagated vector, not
    // to the hidden layer's own activation
    assert_eq!(gradients[1][0].0.to_bits(), g1.to_bits());
    let on_activation = ((o1 * (1.0 - o1)) * propagated) * rate;
    assert_ne!(gradients[1][0].0.to_bits(), on_activation.to_bits());
    // weight deltas are gradient times input activation, per layer
    assert_eq!(deltas[0].data[0].0.to_bits(), (g1 * x).to_bits());
    assert_eq!(deltas[1].data[0].0.to_bits(), (g2 * o1).to_bits());
}
