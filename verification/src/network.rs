use vstd::prelude::*;
use crate::matrix::copy_vec;
use crate::matrix::get_weight_delta;
use crate::matrix::mat_plus;
use crate::matrix::mat_vec_mul;
use crate::matrix::vec_plus;
use crate::matrix::MatModel;
use crate::matrix::Matrix;
use crate::scalar::Scalar;

verus! {

broadcast use crate::matrix::lemma_vecs_view_len, crate::matrix::lemma_vecs_view_index, crate::matrix::lemma_mats_view_len, crate::matrix::lemma_mats_view_index;

use crate::matrix::lemma_transposed_dot;
use crate::matrix::mats_view;
use crate::matrix::spec_col_prefix;
use crate::matrix::spec_dot_prefix;
use crate::matrix::spec_mat_plus;
use crate::matrix::spec_outer;
use crate::matrix::spec_vec_plus;
use crate::matrix::vecs_view;

/// One labeled example: the feature vector fed to the network, the desired
/// output vector, and the integer class label (used only for evaluation).
#[derive(Clone)]
pub struct TrainingData<S> {
    pub inputs: Vec<S>,
    pub target: Vec<S>,
    pub classification: u8,
}

/// Failure of reconstructing a network from a persisted snapshot: the
/// snapshot's structure disagrees with its own declared shapes.
#[derive(Clone, Copy, Debug, PartialEq, Eq, Structural)]
pub enum ModelError {
    Malformed,
}

/// Persisted form of one weight matrix: its shape and its row-major data.
pub struct WeightData<S> {
    pub rows: usize,
    pub cols: usize,
    pub data: Vec<S>,
}

/// Persisted form of one bias column vector (its column count is always 1).
pub struct BiasData<S> {
    pub rows: usize,
    pub data: Vec<S>,
}

/// Persisted snapshot of a whole network: one weight block and one bias
/// block per layer, in layer order. The learning rate is not persisted.
pub struct NetworkData<S> {
    pub weights: Vec<WeightData<S>>,
    pub biases: Vec<BiasData<S>>,
}

/// A feed-forward network: one weight matrix and one bias column vector per
/// layer, plus the learning rate folded into every gradient.
pub struct Network<S> {
    pub weights: Vec<Matrix<S>>,
    pub biases: Vec<Vec<S>>,
    pub learning_rate: S,
}

/// Spec-level model of a persisted bias block.
#[verifier::ext_equal]
pub ghost struct BiasModel<S> {
    pub rows: nat,
    pub data: Seq<S>,
}

/// Spec-level model of a persisted snapshot.
#[verifier::ext_equal]
pub ghost struct SnapModel<S> {
    pub weights: Seq<MatModel<S>>,
    pub biases: Seq<BiasModel<S>>,
}

/// Spec-level model of a network.
#[verifier::ext_equal]
pub ghost struct NetModel<S> {
    pub weights: Seq<MatModel<S>>,
    pub biases: Seq<Seq<S>>,
    pub learning_rate: S,
}

impl<S> View for WeightData<S> {
    type V = MatModel<S>;

    open spec fn view(&self) -> MatModel<S> {
        MatModel { rows: self.rows as nat, cols: self.cols as nat, data: self.data@ }
    }
}

impl<S> View for BiasData<S> {
    type V = BiasModel<S>;

    open spec fn view(&self) -> BiasModel<S> {
        BiasModel { rows: self.rows as nat, data: self.data@ }
    }
}

impl<S> View for NetworkData<S> {
    type V = SnapModel<S>;

    open spec fn view(&self) -> SnapModel<S> {
        SnapModel {
            weights: self.weights@.map_values(|w: WeightData<S>| w@),
            biases: self.biases@.map_values(|b: BiasData<S>| b@),
        }
    }
}

impl<S> View for Network<S> {
    type V = NetModel<S>;

    open spec fn view(&self) -> NetModel<S> {
        NetModel {
            weights: mats_view(self.weights@),
            biases: vecs_view(self.biases@),
            learning_rate: self.learning_rate,
        }
    }
}

impl<S> NetModel<S> {
    /// The shape invariant of a network: as many bias vectors as weight
    /// matrices; each bias as long as its matrix has rows; each matrix as
    /// wide as the previous one is tall, so layer outputs chain.
    pub open spec fn wf(self) -> bool {
        &&& self.weights.len() == self.biases.len()
        &&& forall|i: int| 0 <= i < self.weights.len() ==> (#[trigger] self.weights[i]).wf()
        &&& forall|i: int|
            0 <= i < self.weights.len() ==> (#[trigger] self.biases[i]).len()
                == self.weights[i].rows
        &&& forall|i: int|
            1 <= i < self.weights.len() ==> (#[trigger] self.weights[i]).cols == self.weights[i
                - 1].rows
    }

    /// The input width the first layer expects.
    pub open spec fn input_size(self) -> nat {
        self.weights[0].cols
    }

    /// The width of the final layer's output.
    pub open spec fn output_size(self) -> nat {
        self.weights[self.weights.len() - 1].rows
    }

    /// Two networks have the same shape: equally many layers, equally
    /// shaped matrices and bias vectors layer by layer.
    pub open spec fn same_shape(self, other: NetModel<S>) -> bool {
        &&& self.weights.len() == other.weights.len()
        &&& self.biases.len() == other.biases.len()
        &&& forall|i: int|
            0 <= i < self.weights.len() ==> (#[trigger] self.weights[i]).rows
                == other.weights[i].rows && self.weights[i].cols == other.weights[i].cols
        &&& forall|i: int|
            0 <= i < self.biases.len() ==> (#[trigger] self.biases[i]).len()
                == other.biases[i].len()
    }

    /// The intermediate record of a forward pass has the right shapes: one
    /// output vector per layer, the raw input standing at index 0.
    pub open spec fn outputs_shape(self, outs: Seq<Seq<S>>) -> bool {
        &&& outs.len() == self.weights.len() + 1
        &&& outs[0].len() == self.input_size()
        &&& forall|i: int|
            1 <= i < outs.len() ==> (#[trigger] outs[i]).len() == self.weights[i - 1].rows
    }

    /// A gradient record has the right shapes: one vector per layer plus an
    /// unused singleton at index 0, standing for the input layer, which has
    /// no gradient of its own.
    pub open spec fn gradient_shape(self, g: Seq<Seq<S>>) -> bool {
        &&& g.len() == self.weights.len() + 1
        &&& g[0].len() == 1
        &&& forall|i: int| 1 <= i < g.len() ==> (#[trigger] g[i]).len() == self.weights[i - 1].rows
    }

    /// A weight-delta record has the right shapes: one matrix per layer,
    /// each shaped exactly like that layer's weight matrix.
    pub open spec fn deltas_shape(self, d: Seq<MatModel<S>>) -> bool {
        &&& d.len() == self.weights.len()
        &&& forall|i: int|
            0 <= i < d.len() ==> (#[trigger] d[i]).wf() && d[i].rows == self.weights[i].rows
                && d[i].cols == self.weights[i].cols
    }

    /// The snapshot a network exports: weight blocks are the matrices
    /// themselves; each bias block records its length and its data.
    pub open spec fn export(self) -> SnapModel<S> {
        SnapModel {
            weights: self.weights,
            biases: self.biases.map_values(|b: Seq<S>| BiasModel { rows: b.len(), data: b }),
        }
    }
}

impl<S> SnapModel<S> {
    /// The structural invariant a snapshot must satisfy to be imported:
    /// every block's data length agrees with its declared shape, bias and
    /// weight blocks agree layer by layer, and matrix widths chain.
    pub open spec fn wf(self) -> bool {
        &&& self.weights.len() == self.biases.len()
        &&& forall|i: int| 0 <= i < self.weights.len() ==> (#[trigger] self.weights[i]).wf()
        &&& forall|i: int|
            0 <= i < self.biases.len() ==> (#[trigger] self.biases[i]).data.len()
                == self.biases[i].rows
        &&& forall|i: int|
            0 <= i < self.biases.len() ==> (#[trigger] self.biases[i]).rows
                == self.weights[i].rows
        &&& forall|i: int|
            1 <= i < self.weights.len() ==> (#[trigger] self.weights[i]).cols == self.weights[i
                - 1].rows
    }

    /// The network a snapshot reconstructs, given a fresh learning rate.
    pub open spec fn import(self, learning_rate: S) -> NetModel<S> {
        NetModel {
            weights: self.weights,
            biases: self.biases.map_values(|b: BiasModel<S>| b.data),
            learning_rate,
        }
    }
}

/// One layer's output value: multiply the weight matrix into the previous
/// layer's output, add the bias, and apply the activation, all elementwise
/// over the scalar's named operations.
pub open spec fn spec_layer<S: Scalar>(w: MatModel<S>, b: Seq<S>, input: Seq<S>) -> Seq<S> {
    Seq::new(
        w.rows,
        |j: int| spec_dot_prefix(w, input, j, w.cols as int).spec_plus(b[j]).spec_sigmoid(),
    )
}

/// The forward pass's value after the first `k` layers; `k == 0` is the raw
/// input itself.
pub open spec fn spec_forward<S: Scalar>(net: NetModel<S>, input: Seq<S>, k: int) -> Seq<S>
    decreases k,
{
    if k <= 0 {
        input
    } else {
        spec_layer(net.weights[k - 1], net.biases[k - 1], spec_forward(net, input, k - 1))
    }
}

/// The output layer's gradient: per unit,
/// `(target - out) * d_sigmoid(out) * rate`, with the learning rate folded
/// in right here.
pub open spec fn spec_output_gradient<S: Scalar>(out: Seq<S>, target: Seq<S>, rate: S) -> Seq<S> {
    Seq::new(
        out.len(),
        |j: int| target[j].spec_minus(out[j]).spec_times(out[j].spec_d_sigmoid()).spec_times(rate),
    )
}

/// A hidden layer's gradient: the next layer's gradient propagated through
/// the transposed weight matrix (entry `j` folds column `j` of `w` against
/// it), then the derivative-and-rate scaling applied to the propagated
/// value itself.
pub open spec fn spec_hidden_gradient<S: Scalar>(w: MatModel<S>, next: Seq<S>, rate: S) -> Seq<S> {
    Seq::new(
        w.cols,
        |j: int| spec_col_prefix(w, next, j, w.rows as int).spec_d_sigmoid().spec_times(rate),
    )
}

/// Gradient vector `i` of one example's record, walking back from the
/// output layer: the output layer's gradient at `i == layer count`, and
/// each hidden layer's gradient propagated from the one above it.
pub open spec fn spec_gradient<S: Scalar>(
    net: NetModel<S>,
    input: Seq<S>,
    target: Seq<S>,
    i: int,
) -> Seq<S>
    decreases net.weights.len() - i,
{
    if i >= net.weights.len() {
        spec_output_gradient(
            spec_forward(net, input, net.weights.len() as int),
            target,
            net.learning_rate,
        )
    } else {
        spec_hidden_gradient(
            net.weights[i],
            spec_gradient(net, input, target, i + 1),
            net.learning_rate,
        )
    }
}

/// One example's whole gradient record, index-aligned with the forward
/// outputs; slot 0 is the unused singleton placeholder for the input layer.
pub open spec fn spec_gradient_record<S: Scalar>(
    net: NetModel<S>,
    input: Seq<S>,
    target: Seq<S>,
) -> Seq<Seq<S>> {
    Seq::new(
        net.weights.len() + 1,
        |i: int|
            if i == 0 {
                seq![S::spec_zero()]
            } else {
                spec_gradient(net, input, target, i)
            },
    )
}

/// One example's weight-delta record: layer `i`'s delta is the outer
/// product of gradient `i + 1` with layer `i`'s input activation.
pub open spec fn spec_delta_record<S: Scalar>(
    net: NetModel<S>,
    input: Seq<S>,
    target: Seq<S>,
) -> Seq<MatModel<S>> {
    Seq::new(
        net.weights.len(),
        |i: int| spec_outer(spec_gradient(net, input, target, i + 1), spec_forward(net, input, i)),
    )
}

/// The parameters after one accumulated update: per layer,
/// `bias + gradient[layer + 1]` and `weight + delta[layer]`, elementwise.
pub open spec fn spec_apply<S: Scalar>(
    net: NetModel<S>,
    gradients: Seq<Seq<S>>,
    deltas: Seq<MatModel<S>>,
) -> NetModel<S> {
    NetModel {
        weights: Seq::new(net.weights.len(), |i: int| spec_mat_plus(net.weights[i], deltas[i])),
        biases: Seq::new(net.biases.len(), |i: int| spec_vec_plus(net.biases[i], gradients[i + 1])),
        learning_rate: net.learning_rate,
    }
}

/// The gradient accumulator after folding in examples `start..end`, in
/// order, every one evaluated at the same parameters `net`.
pub open spec fn spec_batch_gradients<S: Scalar>(
    net: NetModel<S>,
    data: Seq<TrainingData<S>>,
    start: int,
    end: int,
) -> Seq<Seq<S>>
    decreases end - start,
{
    if end <= start + 1 {
        spec_gradient_record(net, data[start].inputs@, data[start].target@)
    } else {
        let acc = spec_batch_gradients(net, data, start, end - 1);
        let g = spec_gradient_record(net, data[end - 1].inputs@, data[end - 1].target@);
        Seq::new(acc.len(), |i: int| spec_vec_plus(acc[i], g[i]))
    }
}

/// The weight-delta accumulator after folding in examples `start..end`.
pub open spec fn spec_batch_deltas<S: Scalar>(
    net: NetModel<S>,
    data: Seq<TrainingData<S>>,
    start: int,
    end: int,
) -> Seq<MatModel<S>>
    decreases end - start,
{
    if end <= start + 1 {
        spec_delta_record(net, data[start].inputs@, data[start].target@)
    } else {
        let acc = spec_batch_deltas(net, data, start, end - 1);
        let d = spec_delta_record(net, data[end - 1].inputs@, data[end - 1].target@);
        Seq::new(acc.len(), |i: int| spec_mat_plus(acc[i], d[i]))
    }
}

/// One epoch's training from example index `start` on: accumulate each
/// consecutive group of `batch` examples against the parameters as they
/// stood before the group, apply the single combined update, and go on —
/// the trailing remainder group included. (A degenerate `batch < 1` is
/// read as one whole-pass group; the trainer itself requires `batch >= 1`.)
pub open spec fn spec_train_from<S: Scalar>(
    net: NetModel<S>,
    data: Seq<TrainingData<S>>,
    batch: int,
    start: int,
) -> NetModel<S>
    decreases data.len() - start,
{
    if start < 0 || start >= data.len() {
        net
    } else {
        let end = if batch < 1 || start + batch > data.len() {
            data.len() as int
        } else {
            start + batch
        };
        spec_train_from(
            spec_apply(
                net,
                spec_batch_gradients(net, data, start, end),
                spec_batch_deltas(net, data, start, end),
            ),
            data,
            batch,
            end,
        )
    }
}

/// The whole training run: `epochs` full passes over the examples, each
/// batch's update applied to the parameters the next batch then sees.
pub open spec fn spec_train<S: Scalar>(
    net: NetModel<S>,
    data: Seq<TrainingData<S>>,
    batch: int,
    epochs: int,
) -> NetModel<S>
    decreases epochs,
{
    if epochs <= 0 {
        net
    } else {
        spec_train(spec_train_from(net, data, batch, 0), data, batch, epochs - 1)
    }
}

/// The number of scalar parameters of a network with the given layer sizes
/// fed by `number_of_inputs` features: every layer owns a weight matrix of
/// `size * previous` entries and a bias vector of `size` entries.
pub open spec fn spec_param_count(layers: Seq<usize>, number_of_inputs: nat) -> nat
    decreases layers.len(),
{
    if layers.len() == 0 {
        0
    } else {
        (layers[0] * (number_of_inputs + 1) + spec_param_count(
            layers.skip(1),
            layers[0] as nat,
        )) as nat
    }
}

/// The width of the layer feeding layer `i`: the input width for layer 0,
/// layer `i - 1`'s size otherwise.
pub open spec fn spec_prev_size(layers: Seq<usize>, number_of_inputs: nat, i: int) -> nat {
    if i <= 0 {
        number_of_inputs
    } else {
        layers[i - 1] as nat
    }
}

/// How many parameters the layers before layer `i` consume.
pub open spec fn spec_param_prefix(layers: Seq<usize>, number_of_inputs: nat, i: int) -> nat
    decreases i,
{
    if i <= 0 {
        0
    } else {
        (spec_param_prefix(layers, number_of_inputs, i - 1) + layers[i - 1] * (spec_prev_size(
            layers,
            number_of_inputs,
            i - 1,
        ) + 1)) as nat
    }
}

/// The run of `count` zero-centered values drawn from `draws`, starting at
/// parameter index `offset`: parameter `k` of the run is the difference of
/// draws `2 * (offset + k)` and `2 * (offset + k) + 1`.
pub open spec fn spec_diff_run<S: Scalar>(draws: Seq<S>, offset: int, count: nat) -> Seq<S> {
    Seq::new(
        count,
        |k: int| draws[2 * (offset + k)].spec_minus(draws[2 * (offset + k) + 1]),
    )
}

/// Law: peeling one layer off the parameter count.
proof fn lemma_param_count_step(layers: Seq<usize>, i: int, prev: nat)
    requires
        0 <= i < layers.len(),
    ensures
        spec_param_count(layers.skip(i), prev) == layers[i] * (prev + 1) + spec_param_count(
            layers.skip(i + 1),
            layers[i] as nat,
        ),
{
    assert(layers.skip(i).len() > 0);
    assert(layers.skip(i)[0] == layers[i]);
    assert(layers.skip(i).skip(1) =~= layers.skip(i + 1));
}

/// How many scalar parameters a network with these layer sizes has, or
/// `None` where the count does not fit in `usize`.
#[verifier::loop_isolation(false)]
pub fn param_count(layers: &Vec<usize>, number_of_inputs: usize) -> (r: Option<usize>)
    ensures
        r matches Some(p) ==> p == spec_param_count(layers@, number_of_inputs as nat),
        r is None ==> spec_param_count(layers@, number_of_inputs as nat) > usize::MAX,
{
    let mut acc: usize = 0;
    let mut prev = number_of_inputs;
    let mut i: usize = 0;
    assert(layers@.skip(0) =~= layers@);
    while i < layers.len()
        invariant
            i <= layers@.len(),
            prev == if i == 0 {
                number_of_inputs
            } else {
                layers@[i - 1]
            },
            spec_param_count(layers@, number_of_inputs as nat) == acc + spec_param_count(
                layers@.skip(i as int),
                prev as nat,
            ),
        decreases layers@.len() - i,
    {
        let size = layers[i];
        proof {
            lemma_param_count_step(layers@, i as int, prev as nat);
            assert(size * (prev + 1) == size * prev + size) by (nonlinear_arith);
        }
        let contribution = match size.checked_mul(prev) {
            Some(sp) => sp.checked_add(size),
            None => None,
        };
        let next_acc = match contribution {
            Some(c) => acc.checked_add(c),
            None => None,
        };
        match next_acc {
            Some(a) => {
                acc = a;
            },
            None => {
                return None;
            },
        }
        prev = size;
        i = i + 1;
    }
    assert(layers@.skip(i as int) =~= Seq::<usize>::empty());
    Some(acc)
}

/// The first example index of mini-batch `k`, for batches of size `b`.
pub open spec fn batch_start(k: int, b: int) -> int {
    k * b
}

/// One past the last example index of mini-batch `k`: a full batch holds
/// exactly `b` examples; the final batch may be a shorter trailing
/// remainder, cut off at the example count `n`.
pub open spec fn batch_end(k: int, b: int, n: int) -> int {
    if k * b + b <= n {
        k * b + b
    } else {
        n
    }
}

/// Law: with batch size `b >= 1`, every example index `i < n` falls into
/// exactly one mini-batch, namely batch `i / b` — the indices of a trailing
/// remainder group included, so no example is silently dropped when `b`
/// does not divide `n`.
pub proof fn lemma_batch_partition(n: int, b: int, i: int)
    requires
        b >= 1,
        0 <= i < n,
    ensures
        batch_start(i / b, b) <= i < batch_end(i / b, b, n),
        forall|k: int| k != i / b ==> !(#[trigger] batch_start(k, b) <= i < batch_end(k, b, n)),
{
    let q = i / b;
    vstd::arithmetic::div_mod::lemma_fundamental_div_mod(i, b);
    vstd::arithmetic::div_mod::lemma_mod_bound(i, b);
    assert(q * b == b * q) by (nonlinear_arith);
    assert forall|k: int| k != q implies !(#[trigger] batch_start(k, b) <= i < batch_end(
        k,
        b,
        n,
    )) by {
        if k < q {
            vstd::arithmetic::mul::lemma_mul_inequality(k + 1, q, b);
            assert((k + 1) * b == k * b + b) by (nonlinear_arith);
        } else {
            vstd::arithmetic::mul::lemma_mul_inequality(q + 1, k, b);
            assert((q + 1) * b == q * b + b) by (nonlinear_arith);
        }
    }
}

/// Law: a gradient record whose output layer carries the output-layer
/// formula and whose hidden layers each carry the propagated formula of the
/// layer above is, slot for slot, the record `spec_gradient` defines.
proof fn lemma_gradient_record<S: Scalar>(
    net: NetModel<S>,
    input: Seq<S>,
    target: Seq<S>,
    g: Seq<Seq<S>>,
    i: int,
)
    requires
        1 <= i <= net.weights.len(),
        g.len() == net.weights.len() + 1,
        g[net.weights.len() as int] == spec_output_gradient(
            spec_forward(net, input, net.weights.len() as int),
            target,
            net.learning_rate,
        ),
        forall|j: int|
            1 <= j < net.weights.len() ==> #[trigger] g[j] == spec_hidden_gradient(
                net.weights[j],
                g[j + 1],
                net.learning_rate,
            ),
    ensures
        g[i] == spec_gradient(net, input, target, i),
    decreases net.weights.len() - i,
{
    if i < net.weights.len() {
        lemma_gradient_record(net, input, target, g, i + 1);
    }
}

/// Law: having the same shape is transitive.
pub proof fn lemma_same_shape_trans<S>(a: NetModel<S>, b: NetModel<S>, c: NetModel<S>)
    requires
        a.same_shape(b),
        b.same_shape(c),
    ensures
        a.same_shape(c),
{
    assert forall|i: int| 0 <= i < a.weights.len() implies (#[trigger] a.weights[i]).rows
        == c.weights[i].rows && a.weights[i].cols == c.weights[i].cols by {
        assert(b.weights[i].rows == c.weights[i].rows);
    }
    assert forall|i: int| 0 <= i < a.biases.len() implies (#[trigger] a.biases[i]).len()
        == c.biases[i].len() by {
        assert(b.biases[i].len() == c.biases[i].len());
    }
}

/// Law: networks of the same shape expect the same input width and produce
/// the same output width.
pub proof fn lemma_same_shape_sizes<S>(a: NetModel<S>, b: NetModel<S>)
    requires
        a.same_shape(b),
        a.weights.len() >= 1,
    ensures
        a.weights.len() == b.weights.len(),
        a.input_size() == b.input_size(),
        a.output_size() == b.output_size(),
{
    assert(a.weights[0].cols == b.weights[0].cols);
    assert(a.weights[a.weights.len() - 1].rows == b.weights[b.weights.len() - 1].rows);
}

/// Add a worker's per-layer gradient vectors into the running batch
/// accumulator, elementwise; every vector keeps its length.
#[verifier::loop_isolation(false)]
pub fn merge_gradients<S: Scalar>(summed: &mut Vec<Vec<S>>, g: &Vec<Vec<S>>)
    requires
        old(summed)@.len() == g@.len(),
        forall|i: int|
            0 <= i < g@.len() ==> (#[trigger] vecs_view(old(summed)@)[i]).len() == vecs_view(
                g@,
            )[i].len(),
    ensures
        final(summed)@.len() == old(summed)@.len(),
        forall|i: int|
            0 <= i < g@.len() ==> (#[trigger] vecs_view(final(summed)@)[i]).len() == vecs_view(
                old(summed)@,
            )[i].len(),
        forall|i: int|
            0 <= i < g@.len() ==> #[trigger] vecs_view(final(summed)@)[i] == spec_vec_plus(
                vecs_view(old(summed)@)[i],
                vecs_view(g@)[i],
            ),
{
    let mut i: usize = 0;
    while i < g.len()
        invariant
            i <= g@.len(),
            summed@.len() == g@.len(),
            forall|k: int|
                0 <= k < g@.len() ==> (#[trigger] vecs_view(summed@)[k]).len() == vecs_view(
                    old(summed)@,
                )[k].len(),
            forall|k: int|
                0 <= k < i ==> #[trigger] vecs_view(summed@)[k] == spec_vec_plus(
                    vecs_view(old(summed)@)[k],
                    vecs_view(g@)[k],
                ),
            forall|k: int|
                i <= k < g@.len() ==> #[trigger] vecs_view(summed@)[k] == vecs_view(
                    old(summed)@,
                )[k],
        decreases g@.len() - i,
    {
        proof {
            assert(vecs_view(summed@)[i as int] == summed@[i as int]@);
            assert(vecs_view(g@)[i as int] == g@[i as int]@);
            assert(vecs_view(old(summed)@)[i as int] == old(summed)@[i as int]@);
        }
        let nv = vec_plus(&summed[i], &g[i]);
        let ghost nv_view = nv@;
        let ghost before = summed@;
        summed.set(i, nv);
        proof {
            assert forall|k: int|
                0 <= k < g@.len() implies (#[trigger] vecs_view(summed@)[k]).len() == vecs_view(
                old(summed)@,
            )[k].len() by {
                assert(vecs_view(summed@)[k] == summed@[k]@);
                assert(vecs_view(before)[k] == before[k]@);
                if k == i {
                    assert(summed@[k]@ == nv_view);
                } else {
                    assert(summed@[k] == before[k]);
                }
            }
            assert forall|k: int|
                0 <= k < i + 1 implies #[trigger] vecs_view(summed@)[k] == spec_vec_plus(
                vecs_view(old(summed)@)[k],
                vecs_view(g@)[k],
            ) by {
                assert(vecs_view(summed@)[k] == summed@[k]@);
                assert(vecs_view(before)[k] == before[k]@);
                if k == i {
                    assert(summed@[k]@ == nv_view);
                } else {
                    assert(summed@[k] == before[k]);
                }
            }
            assert forall|k: int|
                i + 1 <= k < g@.len() implies #[trigger] vecs_view(summed@)[k] == vecs_view(
                old(summed)@,
            )[k] by {
                assert(vecs_view(summed@)[k] == summed@[k]@);
                assert(vecs_view(before)[k] == before[k]@);
                assert(summed@[k] == before[k]);
            }
        }
        i = i + 1;
    }
}

/// Add a worker's per-layer weight deltas into the running batch
/// accumulator, elementwise; every matrix keeps its shape.
#[verifier::loop_isolation(false)]
pub fn merge_deltas<S: Scalar>(summed: &mut Vec<Matrix<S>>, d: &Vec<Matrix<S>>)
    requires
        old(summed)@.len() == d@.len(),
        forall|i: int|
            0 <= i < d@.len() ==> (#[trigger] mats_view(old(summed)@)[i]).wf() && mats_view(
                old(summed)@,
            )[i].rows == mats_view(d@)[i].rows && mats_view(old(summed)@)[i].cols == mats_view(
                d@,
            )[i].cols && mats_view(d@)[i].wf(),
    ensures
        final(summed)@.len() == old(summed)@.len(),
        forall|i: int|
            0 <= i < d@.len() ==> (#[trigger] mats_view(final(summed)@)[i]).wf() && mats_view(
                final(summed)@,
            )[i].rows == mats_view(old(summed)@)[i].rows && mats_view(final(summed)@)[i].cols
                == mats_view(old(summed)@)[i].cols,
        forall|i: int|
            0 <= i < d@.len() ==> #[trigger] mats_view(final(summed)@)[i] == spec_mat_plus(
                mats_view(old(summed)@)[i],
                mats_view(d@)[i],
            ),
{
    let mut i: usize = 0;
    while i < d.len()
        invariant
            i <= d@.len(),
            summed@.len() == d@.len(),
            forall|k: int|
                0 <= k < d@.len() ==> (#[trigger] mats_view(summed@)[k]).wf() && mats_view(
                    summed@,
                )[k].rows == mats_view(old(summed)@)[k].rows && mats_view(summed@)[k].cols
                    == mats_view(old(summed)@)[k].cols,
            forall|k: int|
                0 <= k < i ==> #[trigger] mats_view(summed@)[k] == spec_mat_plus(
                    mats_view(old(summed)@)[k],
                    mats_view(d@)[k],
                ),
            forall|k: int|
                i <= k < d@.len() ==> #[trigger] mats_view(summed@)[k] == mats_view(
                    old(summed)@,
                )[k],
        decreases d@.len() - i,
    {
        proof {
            assert(mats_view(summed@)[i as int] == summed@[i as int]@);
            assert(mats_view(d@)[i as int] == d@[i as int]@);
            assert(mats_view(old(summed)@)[i as int] == old(summed)@[i as int]@);
        }
        let nm = mat_plus(&summed[i], &d[i]);
        let ghost nm_model = nm@;
        let ghost before = summed@;
        summed.set(i, nm);
        proof {
            assert forall|k: int|
                0 <= k < d@.len() implies (#[trigger] mats_view(summed@)[k]).wf() && mats_view(
                summed@,
            )[k].rows == mats_view(old(summed)@)[k].rows && mats_view(summed@)[k].cols == mats_view(
                old(summed)@,
            )[k].cols by {
                assert(mats_view(summed@)[k] == summed@[k]@);
                assert(mats_view(before)[k] == before[k]@);
                if k == i {
                    assert(summed@[k]@ == nm_model);
                } else {
                    assert(summed@[k] == before[k]);
                }
            }
            assert forall|k: int|
                0 <= k < i + 1 implies #[trigger] mats_view(summed@)[k] == spec_mat_plus(
                mats_view(old(summed)@)[k],
                mats_view(d@)[k],
            ) by {
                assert(mats_view(summed@)[k] == summed@[k]@);
                assert(mats_view(before)[k] == before[k]@);
                if k == i {
                    assert(summed@[k]@ == nm_model);
                } else {
                    assert(summed@[k] == before[k]);
                }
            }
            assert forall|k: int|
                i + 1 <= k < d@.len() implies #[trigger] mats_view(summed@)[k] == mats_view(
                old(summed)@,
            )[k] by {
                assert(mats_view(summed@)[k] == summed@[k]@);
                assert(mats_view(before)[k] == before[k]@);
                assert(summed@[k] == before[k]);
            }
        }
        i = i + 1;
    }
}

/// Law: a snapshot imported from a well-formed snapshot is well-formed.
pub proof fn lemma_import_wf<S>(snap: SnapModel<S>, learning_rate: S)
    requires
        snap.wf(),
    ensures
        snap.import(learning_rate).wf(),
{
    let n = snap.import(learning_rate);
    assert forall|i: int| 0 <= i < n.weights.len() implies (#[trigger] n.biases[i]).len()
        == n.weights[i].rows by {
        assert(n.biases[i] == snap.biases[i].data);
    }
}

/// Law: exporting a well-formed network and importing the snapshot yields
/// the original network back, weight for weight and bias for bias; only the
/// learning rate is the importer's, since a snapshot does not carry one.
pub proof fn lemma_snapshot_round_trip<S>(n: NetModel<S>, learning_rate: S)
    requires
        n.wf(),
    ensures
        n.export().wf(),
        n.export().import(learning_rate) == (NetModel {
            weights: n.weights,
            biases: n.biases,
            learning_rate,
        }),
{
    let snap = n.export();
    assert forall|i: int| 0 <= i < snap.biases.len() implies (#[trigger] snap.biases[i]).data.len()
        == snap.biases[i].rows && snap.biases[i].rows == snap.weights[i].rows by {
        assert(snap.biases[i] == BiasModel { rows: n.biases[i].len(), data: n.biases[i] });
    }
    let back = snap.import(learning_rate);
    assert forall|i: int| 0 <= i < back.biases.len() implies #[trigger] back.biases[i]
        == n.biases[i] by {
        assert(snap.biases[i] == BiasModel { rows: n.biases[i].len(), data: n.biases[i] });
    }
    assert(back.biases =~= n.biases);
}

/// Apply the activation function to every entry of a vector.
#[verifier::loop_isolation(false)]
fn sigmoid_vec<S: Scalar>(v: &Vec<S>) -> (r: Vec<S>)
    ensures
        r@.len() == v@.len(),
        forall|k: int| 0 <= k < v@.len() ==> #[trigger] r@[k] == v@[k].spec_sigmoid(),
{
    let mut r: Vec<S> = Vec::new();
    let mut i: usize = 0;
    while i < v.len()
        invariant
            i <= v@.len(),
            r@.len() == i,
            forall|k: int| 0 <= k < i ==> #[trigger] r@[k] == v@[k].spec_sigmoid(),
        decreases v@.len() - i,
    {
        r.push(v[i].sigmoid());
        i = i + 1;
    }
    r
}

/// Law: training on a single example with batch size one for one epoch is
/// exactly the sequential rule — one gradient computation and one combined
/// update, nothing else. The orchestration (however many workers run it)
/// cannot change the value.
pub proof fn lemma_batch_of_one<S: Scalar>(net: NetModel<S>, data: Seq<TrainingData<S>>)
    requires
        data.len() == 1,
    ensures
        spec_train(net, data, 1, 1) == spec_apply(
            net,
            spec_gradient_record(net, data[0].inputs@, data[0].target@),
            spec_delta_record(net, data[0].inputs@, data[0].target@),
        ),
{
    let stepped = spec_apply(
        net,
        spec_batch_gradients(net, data, 0, 1),
        spec_batch_deltas(net, data, 0, 1),
    );
    assert(spec_train_from(net, data, 1, 0) == spec_train_from(stepped, data, 1, 1));
    assert(spec_train_from(stepped, data, 1, 1) == stepped);
    assert(spec_train(net, data, 1, 1) == spec_train(spec_train_from(net, data, 1, 0), data, 1, 0));
}

/// Law: a forward pass reads only the weights and biases, so on a network
/// restored from an exported snapshot it computes the very same value as on
/// the network that was exported, whatever learning rate the importer chose.
pub proof fn lemma_round_trip_forward<S: Scalar>(
    n: NetModel<S>,
    learning_rate: S,
    input: Seq<S>,
    k: int,
)
    requires
        n.wf(),
    ensures
        spec_forward(n.export().import(learning_rate), input, k) == spec_forward(n, input, k),
    decreases k,
{
    lemma_snapshot_round_trip(n, learning_rate);
    if k > 0 {
        lemma_round_trip_forward(n, learning_rate, input, k - 1);
    }
}

impl<S: Scalar> Network<S> {
    /// The shape invariant, on the executable network.
    pub open spec fn wf(&self) -> bool {
        self@.wf()
    }

    /// One layer's affine transform and activation: multiply the layer's
    /// weight matrix into the previous layer's output, add the bias, and
    /// apply the activation elementwise.
    #[verifier::loop_isolation(false)]
    fn layer_step(&self, layer: usize, input: &Vec<S>) -> (out: Vec<S>)
        requires
            self.wf(),
            layer < self.weights@.len(),
            input@.len() == self@.weights[layer as int].cols,
        ensures
            out@.len() == self@.weights[layer as int].rows,
            out@ == spec_layer(self@.weights[layer as int], self@.biases[layer as int], input@),
    {
        proof {
            assert(self@.weights[layer as int] == self.weights@[layer as int]@);
            assert(self@.biases[layer as int] == self.biases@[layer as int]@);
        }
        let z = mat_vec_mul(&self.weights[layer], input);
        let z = vec_plus(&z, &self.biases[layer]);
        let out = sigmoid_vec(&z);
        assert(out@ =~= spec_layer(
            self@.weights[layer as int],
            self@.biases[layer as int],
            input@,
        ));
        out
    }

    /// Run the forward pass: the input is layer 0's output; every layer in
    /// order applies its affine transform and the activation; the final
    /// layer's activation vector is the result.
    #[verifier::loop_isolation(false)]
    pub fn feed_forward(&self, inputs: Vec<S>) -> (out: Vec<S>)
        requires
            self.wf(),
            self.weights@.len() >= 1,
            inputs@.len() == self@.input_size(),
        ensures
            out@.len() == self@.output_size(),
            out@ == spec_forward(self@, inputs@, self.weights@.len() as int),
    {
        let ghost input_view = inputs@;
        let mut layer_output = inputs;
        let mut layer: usize = 0;
        while layer < self.biases.len()
            invariant
                layer <= self.biases@.len(),
                layer_output@.len() == if layer == 0 {
                    self@.input_size()
                } else {
                    self@.weights[layer - 1].rows
                },
                layer_output@ == spec_forward(self@, input_view, layer as int),
            decreases self.biases@.len() - layer,
        {
            layer_output = self.layer_step(layer, &layer_output);
            layer = layer + 1;
        }
        layer_output
    }

    /// Run the forward pass keeping every layer's output: index 0 holds the
    /// raw input and index i holds layer i's activation vector. Training
    /// needs all of them, since backpropagation walks them in reverse.
    #[verifier::loop_isolation(false)]
    pub fn feed_forward_outputs(&self, inputs: &Vec<S>) -> (outs: Vec<Vec<S>>)
        requires
            self.wf(),
            self.weights@.len() >= 1,
            inputs@.len() == self@.input_size(),
        ensures
            self@.outputs_shape(vecs_view(outs@)),
            vecs_view(outs@)[0] == inputs@,
            forall|i: int|
                0 <= i < outs@.len() ==> #[trigger] vecs_view(outs@)[i] == spec_forward(
                    self@,
                    inputs@,
                    i,
                ),
    {
        let mut outs: Vec<Vec<S>> = Vec::new();
        outs.push(copy_vec(inputs));
        let mut layer: usize = 0;
        while layer < self.biases.len()
            invariant
                layer <= self.biases@.len(),
                outs@.len() == layer + 1,
                vecs_view(outs@)[0] == inputs@,
                forall|i: int|
                    1 <= i <= layer ==> (#[trigger] vecs_view(outs@)[i]).len() == self@.weights[i
                        - 1].rows,
                forall|i: int|
                    0 <= i <= layer ==> #[trigger] vecs_view(outs@)[i] == spec_forward(
                        self@,
                        inputs@,
                        i,
                    ),
            decreases self.biases@.len() - layer,
        {
            proof {
                assert(vecs_view(outs@)[layer as int] == outs@[layer as int]@);
            }
            let next = self.layer_step(layer, &outs[outs.len() - 1]);
            let ghost next_view = next@;
            let ghost prev = outs@;
            outs.push(next);
            layer = layer + 1;
            proof {
                assert(vecs_view(outs@)[0] == outs@[0]@);
                assert(vecs_view(prev)[0] == prev[0]@);
                assert forall|i: int| 1 <= i <= layer implies (#[trigger] vecs_view(outs@)[i]).len()
                    == self@.weights[i - 1].rows && vecs_view(outs@)[i] == spec_forward(
                    self@,
                    inputs@,
                    i,
                ) by {
                    assert(vecs_view(outs@)[i] == outs@[i]@);
                    if i < layer {
                        assert(vecs_view(prev)[i] == prev[i]@);
                        assert(outs@[i] == prev[i]);
                    } else {
                        assert(outs@[i]@ == next_view);
                        assert(vecs_view(prev)[i - 1] == prev[i - 1]@);
                    }
                }
            }
        }
        outs
    }

    /// Backpropagate one example's error. Takes the full record of layer
    /// outputs from a forward pass (the input at index 0) and the target
    /// vector, and returns one gradient vector per layer, index-aligned
    /// with the outputs; index 0 is an unused singleton placeholder.
    ///
    /// The output layer's gradient is
    /// `(target - output) * d_sigmoid(output) * learning_rate`: the learning
    /// rate is folded in here, not at the update step, and the sign already
    /// encodes the error direction, so updates are plain additions.
    ///
    /// A hidden layer's gradient propagates the next layer's gradient
    /// through the transposed weight matrix and then applies the
    /// derivative-and-rate scaling to the propagated vector itself (not to
    /// the layer's stored activation) — deliberately kept as the update
    /// rule expects it.
    #[verifier::loop_isolation(false)]
    pub fn calculate_gradient(&self, layer_outputs: &Vec<Vec<S>>, target: &Vec<S>) -> (g: Vec<
        Vec<S>,
    >)
        requires
            self.wf(),
            self.weights@.len() >= 1,
            self@.outputs_shape(vecs_view(layer_outputs@)),
            target@.len() == self@.output_size(),
        ensures
            self@.gradient_shape(vecs_view(g@)),
            vecs_view(g@)[0] == seq![S::spec_zero()],
            vecs_view(g@)[self.weights@.len() as int] == spec_output_gradient(
                vecs_view(layer_outputs@)[self.weights@.len() as int],
                target@,
                self@.learning_rate,
            ),
            forall|i: int|
                1 <= i < self.weights@.len() ==> #[trigger] vecs_view(g@)[i]
                    == spec_hidden_gradient(
                    self@.weights[i],
                    vecs_view(g@)[i + 1],
                    self@.learning_rate,
                ),
    {
        let total = layer_outputs.len();
        let mut gradients: Vec<Vec<S>> = Vec::new();
        while gradients.len() < total
            invariant
                gradients@.len() <= total,
                forall|i: int|
                    0 <= i < gradients@.len() ==> #[trigger] vecs_view(gradients@)[i] == seq![
                        S::spec_zero(),
                    ],
            decreases total - gradients@.len(),
        {
            let mut z: Vec<S> = Vec::new();
            z.push(S::zero());
            assert(z@ =~= seq![S::spec_zero()]);
            let ghost prev = gradients@;
            gradients.push(z);
            proof {
                assert forall|i: int|
                    0 <= i < gradients@.len() implies #[trigger] vecs_view(gradients@)[i] == seq![
                        S::spec_zero(),
                    ] by {
                    assert(vecs_view(gradients@)[i] == gradients@[i]@);
                    if i < prev.len() {
                        assert(gradients@[i] == prev[i]);
                        assert(vecs_view(prev)[i] == prev[i]@);
                    }
                }
            }
        }
        let last = total - 1;
        // the output layer gets the special error-times-derivative form
        let out = &layer_outputs[last];
        proof {
            assert(vecs_view(layer_outputs@)[last as int] == layer_outputs@[last as int]@);
            assert(out@.len() == self@.weights[last - 1].rows);
        }
        let mut g_last: Vec<S> = Vec::new();
        let mut j: usize = 0;
        while j < out.len()
            invariant
                j <= out@.len(),
                g_last@.len() == j,
                out@.len() == target@.len(),
                forall|k: int|
                    0 <= k < j ==> #[trigger] g_last@[k] == target@[k].spec_minus(
                        out@[k],
                    ).spec_times(out@[k].spec_d_sigmoid()).spec_times(self@.learning_rate),
            decreases out@.len() - j,
        {
            g_last.push(target[j].minus(out[j]).times(out[j].d_sigmoid()).times(
                self.learning_rate,
            ));
            j = j + 1;
        }
        assert(g_last@ =~= spec_output_gradient(out@, target@, self@.learning_rate));
        let ghost filled = gradients@;
        let ghost g_last_view = g_last@;
        gradients.set(last, g_last);
        proof {
            assert forall|k: int| 0 <= k < last implies #[trigger] vecs_view(gradients@)[k] == seq![
                S::spec_zero(),
            ] by {
                assert(vecs_view(gradients@)[k] == gradients@[k]@);
                assert(gradients@[k] == filled[k]);
                assert(vecs_view(filled)[k] == filled[k]@);
            }
            assert(vecs_view(gradients@)[last as int] == gradients@[last as int]@);
            assert(gradients@[last as int]@ == g_last_view);
        }
        // hidden layers, walking backward; index 0 stays the placeholder
        let mut i = last;
        while i >= 2
            invariant
                1 <= i <= last,
                gradients@.len() == total,
                forall|k: int|
                    0 <= k < i ==> #[trigger] vecs_view(gradients@)[k] == seq![S::spec_zero()],
                forall|k: int|
                    i <= k <= last ==> (#[trigger] vecs_view(gradients@)[k]).len()
                        == self@.weights[k - 1].rows,
                vecs_view(gradients@)[last as int] == spec_output_gradient(
                    vecs_view(layer_outputs@)[last as int],
                    target@,
                    self@.learning_rate,
                ),
                forall|k: int|
                    i <= k < last ==> #[trigger] vecs_view(gradients@)[k] == spec_hidden_gradient(
                        self@.weights[k],
                        vecs_view(gradients@)[k + 1],
                        self@.learning_rate,
                    ),
            decreases i,
        {
            let idx = i - 1;
            proof {
                assert(self@.weights[idx as int] == self.weights@[idx as int]@);
                assert(vecs_view(gradients@)[idx + 1] == gradients@[idx + 1]@);
            }
            let t = self.weights[idx].transpose();
            let ghost w_model = self@.weights[idx as int];
            let ghost g_next = gradients@[idx + 1]@;
            let propagated = mat_vec_mul(&t, &gradients[idx + 1]);
            proof {
                assert forall|jj: int| 0 <= jj < w_model.cols implies #[trigger] propagated@[jj]
                    == spec_col_prefix(w_model, g_next, jj, w_model.rows as int) by {
                    lemma_transposed_dot(w_model, t@, g_next, jj, w_model.rows as int);
                };
            }
            let mut g: Vec<S> = Vec::new();
            let mut j: usize = 0;
            while j < propagated.len()
                invariant
                    j <= propagated@.len(),
                    g@.len() == j,
                    forall|k: int|
                        0 <= k < j ==> #[trigger] g@[k] == propagated@[
                            k
                        ].spec_d_sigmoid().spec_times(self@.learning_rate),
                decreases propagated@.len() - j,
            {
                g.push(propagated[j].d_sigmoid().times(self.learning_rate));
                j = j + 1;
            }
            assert(g@ =~= spec_hidden_gradient(w_model, g_next, self@.learning_rate));
            let ghost before = gradients@;
            let ghost g_view = g@;
            gradients.set(idx, g);
            proof {
                assert forall|k: int| 0 <= k < idx implies #[trigger] vecs_view(gradients@)[k]
                    == seq![S::spec_zero()] by {
                    assert(vecs_view(gradients@)[k] == gradients@[k]@);
                    assert(gradients@[k] == before[k]);
                    assert(vecs_view(before)[k] == before[k]@);
                }
                assert forall|k: int|
                    idx <= k <= last implies (#[trigger] vecs_view(gradients@)[k]).len()
                    == self@.weights[k - 1].rows by {
                    assert(vecs_view(gradients@)[k] == gradients@[k]@);
                    if k == idx {
                        assert(gradients@[k]@ == g_view);
                    } else {
                        assert(gradients@[k] == before[k]);
                        assert(vecs_view(before)[k] == before[k]@);
                    }
                }
                assert(vecs_view(gradients@)[last as int] == gradients@[last as int]@);
                assert(gradients@[last as int] == before[last as int]);
                assert(vecs_view(before)[last as int] == before[last as int]@);
                assert forall|k: int|
                    idx <= k < last implies #[trigger] vecs_view(gradients@)[k]
                    == spec_hidden_gradient(
                    self@.weights[k],
                    vecs_view(gradients@)[k + 1],
                    self@.learning_rate,
                ) by {
                    assert(vecs_view(gradients@)[k] == gradients@[k]@);
                    assert(vecs_view(gradients@)[k + 1] == gradients@[k + 1]@);
                    assert(gradients@[k + 1] == before[k + 1]);
                    assert(vecs_view(before)[k + 1] == before[k + 1]@);
                    if k == idx {
                        assert(gradients@[k]@ == g_view);
                    } else {
                        assert(gradients@[k] == before[k]);
                        assert(vecs_view(before)[k] == before[k]@);
                    }
                }
            }
            i = idx;
        }
        proof {
            assert(vecs_view(gradients@)[0] == gradients@[0]@);
        }
        gradients
    }

    /// Build a fresh network with the given layer sizes, each parameter
    /// initialized to the difference of two consecutive draws from `draws`
    /// (two uniform draws in [0,1) give a zero-centered value). The random
    /// source is an explicit parameter — the caller supplies
    /// `2 * spec_param_count(..)` pre-drawn values — so construction is
    /// reproducible. Layer `i`'s weight matrix is `layers[i]` rows by the
    /// previous layer's size (the input width for layer 0); its bias vector
    /// has `layers[i]` entries.
    #[verifier::loop_isolation(false)]
    pub fn new(layers: Vec<usize>, number_of_inputs: usize, learning_rate: S, draws: &Vec<S>) -> (net:
        Network<S>)
        requires
            draws@.len() == 2 * spec_param_count(layers@, number_of_inputs as nat),
        ensures
            net.wf(),
            net@.weights.len() == layers@.len(),
            net@.learning_rate == learning_rate,
            forall|i: int|
                0 <= i < layers@.len() ==> (#[trigger] net@.weights[i]).rows == layers@[i]
                    && net@.weights[i].cols == (if i == 0 {
                    number_of_inputs as nat
                } else {
                    layers@[i - 1] as nat
                }),
            forall|i: int| 0 <= i < layers@.len() ==> (#[trigger] net@.biases[i]).len() == layers@[i],
            forall|i: int|
                0 <= i < layers@.len() ==> (#[trigger] net@.weights[i]).data == spec_diff_run(
                    draws@,
                    spec_param_prefix(layers@, number_of_inputs as nat, i) as int,
                    (layers@[i] * spec_prev_size(layers@, number_of_inputs as nat, i)) as nat,
                ),
            forall|i: int|
                0 <= i < layers@.len() ==> #[trigger] net@.biases[i] == spec_diff_run(
                    draws@,
                    spec_param_prefix(layers@, number_of_inputs as nat, i) + layers@[i]
                        * spec_prev_size(layers@, number_of_inputs as nat, i),
                    layers@[i] as nat,
                ),
    {
        let draws_total = draws.len();
        let mut weights: Vec<Matrix<S>> = Vec::new();
        let mut biases: Vec<Vec<S>> = Vec::new();
        let mut cursor: usize = 0;
        let mut prev = number_of_inputs;
        let mut layer: usize = 0;
        assert(layers@.skip(0) =~= layers@);
        while layer < layers.len()
            invariant
                layer <= layers@.len(),
                prev == if layer == 0 {
                    number_of_inputs
                } else {
                    layers@[layer - 1]
                },
                cursor + 2 * spec_param_count(layers@.skip(layer as int), prev as nat)
                    == draws@.len(),
                cursor == 2 * spec_param_prefix(layers@, number_of_inputs as nat, layer as int),
                weights@.len() == layer,
                biases@.len() == layer,
                forall|i: int|
                    0 <= i < layer ==> (#[trigger] mats_view(weights@)[i]).wf() && mats_view(
                        weights@,
                    )[i].rows == layers@[i] && mats_view(weights@)[i].cols == (if i == 0 {
                        number_of_inputs as nat
                    } else {
                        layers@[i - 1] as nat
                    }),
                forall|i: int|
                    0 <= i < layer ==> (#[trigger] vecs_view(biases@)[i]).len() == layers@[i],
                forall|i: int|
                    0 <= i < layer ==> (#[trigger] mats_view(weights@)[i]).data == spec_diff_run(
                        draws@,
                        spec_param_prefix(layers@, number_of_inputs as nat, i) as int,
                        (layers@[i] * spec_prev_size(layers@, number_of_inputs as nat, i)) as nat,
                    ),
                forall|i: int|
                    0 <= i < layer ==> #[trigger] vecs_view(biases@)[i] == spec_diff_run(
                        draws@,
                        spec_param_prefix(layers@, number_of_inputs as nat, i) + layers@[i]
                            * spec_prev_size(layers@, number_of_inputs as nat, i),
                        layers@[i] as nat,
                    ),
            decreases layers@.len() - layer,
        {
            let size = layers[layer];
            proof {
                lemma_param_count_step(layers@, layer as int, prev as nat);
                assert(size * (prev + 1) == size * prev + size) by (nonlinear_arith);
                assert(size * prev <= spec_param_count(layers@.skip(layer as int), prev as nat));
                assert(2 * spec_param_count(layers@.skip(layer as int), prev as nat)
                    <= draws_total);
            }
            let weight_entries = size * prev;
            let ghost wbase = spec_param_prefix(layers@, number_of_inputs as nat, layer as int) as int;
            let mut data: Vec<S> = Vec::new();
            while data.len() < weight_entries
                invariant
                    data@.len() <= weight_entries,
                    cursor + 2 * (weight_entries - data@.len()) + 2 * size + 2 * spec_param_count(
                        layers@.skip(layer as int + 1),
                        size as nat,
                    ) == draws@.len(),
                    cursor == 2 * (wbase + data@.len()),
                    forall|k: int|
                        0 <= k < data@.len() ==> #[trigger] data@[k] == draws@[2 * (wbase
                            + k)].spec_minus(draws@[2 * (wbase + k) + 1]),
                decreases weight_entries - data@.len(),
            {
                data.push(draws[cursor].minus(draws[cursor + 1]));
                cursor = cursor + 2;
            }
            assert(data@ =~= spec_diff_run(draws@, wbase, weight_entries as nat));
            let m = Matrix::new(size, prev, data);
            let ghost m_model = m@;
            let ghost weights_snap = weights@;
            weights.push(m);
            let ghost bbase = wbase + weight_entries;
            let mut bias: Vec<S> = Vec::new();
            while bias.len() < size
                invariant
                    bias@.len() <= size,
                    cursor + 2 * (size - bias@.len()) + 2 * spec_param_count(
                        layers@.skip(layer as int + 1),
                        size as nat,
                    ) == draws@.len(),
                    cursor == 2 * (bbase + bias@.len()),
                    forall|k: int|
                        0 <= k < bias@.len() ==> #[trigger] bias@[k] == draws@[2 * (bbase
                            + k)].spec_minus(draws@[2 * (bbase + k) + 1]),
                decreases size - bias@.len(),
            {
                bias.push(draws[cursor].minus(draws[cursor + 1]));
                cursor = cursor + 2;
            }
            assert(bias@ =~= spec_diff_run(draws@, bbase, size as nat));
            let ghost bias_view = bias@;
            let ghost biases_snap = biases@;
            biases.push(bias);
            proof {
                assert forall|i: int|
                    0 <= i < layer + 1 implies (#[trigger] mats_view(weights@)[i]).wf()
                    && mats_view(weights@)[i].rows == layers@[i] && mats_view(weights@)[i].cols
                    == (if i == 0 {
                    number_of_inputs as nat
                } else {
                    layers@[i - 1] as nat
                }) && mats_view(weights@)[i].data == spec_diff_run(
                    draws@,
                    spec_param_prefix(layers@, number_of_inputs as nat, i) as int,
                    (layers@[i] * spec_prev_size(layers@, number_of_inputs as nat, i)) as nat,
                ) by {
                    assert(mats_view(weights@)[i] == weights@[i]@);
                    if i < layer {
                        assert(weights@[i] == weights_snap[i]);
                        assert(mats_view(weights_snap)[i] == weights_snap[i]@);
                    } else {
                        assert(weights@[i]@ == m_model);
                        assert(spec_prev_size(layers@, number_of_inputs as nat, i) == prev as nat);
                    }
                }
                assert forall|i: int|
                    0 <= i < layer + 1 implies (#[trigger] vecs_view(biases@)[i]).len()
                    == layers@[i] && vecs_view(biases@)[i] == spec_diff_run(
                    draws@,
                    spec_param_prefix(layers@, number_of_inputs as nat, i) + layers@[i]
                        * spec_prev_size(layers@, number_of_inputs as nat, i),
                    layers@[i] as nat,
                ) by {
                    assert(vecs_view(biases@)[i] == biases@[i]@);
                    if i < layer {
                        assert(biases@[i] == biases_snap[i]);
                        assert(vecs_view(biases_snap)[i] == biases_snap[i]@);
                    } else {
                        assert(biases@[i]@ == bias_view);
                        assert(spec_prev_size(layers@, number_of_inputs as nat, i) == prev as nat);
                    }
                }
                assert(spec_param_prefix(layers@, number_of_inputs as nat, layer as int + 1)
                    == spec_param_prefix(layers@, number_of_inputs as nat, layer as int) + size * (
                prev + 1));
            }
            prev = size;
            layer = layer + 1;
        }
        let net = Network { weights, biases, learning_rate };
        proof {
            assert forall|i: int|
                0 <= i < net@.weights.len() implies (#[trigger] net@.biases[i]).len()
                == net@.weights[i].rows by {
                assert(net@.biases[i].len() == layers@[i]);
            }
            assert forall|i: int|
                1 <= i < net@.weights.len() implies (#[trigger] net@.weights[i]).cols
                == net@.weights[i - 1].rows by {
                assert(net@.weights[i].cols == layers@[i - 1] as nat);
            }
            assert forall|i: int|
                0 <= i < net@.weights.len() implies (#[trigger] net@.weights[i]).wf() by {
                assert(mats_view(net.weights@)[i].wf());
            }
        }
        net
    }

    /// One worker's whole job for one training example: run the forward
    /// pass, backpropagate the error, and take the outer product of each
    /// layer's input activation with the next gradient. Returns the
    /// per-layer gradients and the per-layer weight deltas; the caller
    /// merges them into a batch accumulator.
    #[verifier::loop_isolation(false)]
    pub fn compute_example(&self, example: &TrainingData<S>) -> (r: (Vec<Vec<S>>, Vec<Matrix<S>>))
        requires
            self.wf(),
            self.weights@.len() >= 1,
            example.inputs@.len() == self@.input_size(),
            example.target@.len() == self@.output_size(),
        ensures
            self@.gradient_shape(vecs_view(r.0@)),
            self@.deltas_shape(mats_view(r.1@)),
            vecs_view(r.0@) == spec_gradient_record(self@, example.inputs@, example.target@),
            mats_view(r.1@) == spec_delta_record(self@, example.inputs@, example.target@),
    {
        let ghost net = self@;
        let ghost x = example.inputs@;
        let ghost tgt = example.target@;
        let outs = self.feed_forward_outputs(&example.inputs);
        let grads = self.calculate_gradient(&outs, &example.target);
        proof {
            assert(vecs_view(outs@)[net.weights.len() as int] == spec_forward(
                net,
                x,
                net.weights.len() as int,
            ));
            assert forall|k: int|
                1 <= k <= net.weights.len() implies #[trigger] vecs_view(grads@)[k]
                == spec_gradient(net, x, tgt, k) by {
                lemma_gradient_record(net, x, tgt, vecs_view(grads@), k);
            }
            assert(vecs_view(grads@) =~= spec_gradient_record(net, x, tgt));
        }
        let mut deltas: Vec<Matrix<S>> = Vec::new();
        let mut i: usize = 0;
        while i < self.weights.len()
            invariant
                i <= self.weights@.len(),
                deltas@.len() == i,
                forall|k: int|
                    0 <= k < i ==> (#[trigger] mats_view(deltas@)[k]).wf() && mats_view(
                        deltas@,
                    )[k].rows == self@.weights[k].rows && mats_view(deltas@)[k].cols
                        == self@.weights[k].cols,
                forall|k: int|
                    0 <= k < i ==> #[trigger] mats_view(deltas@)[k] == spec_outer(
                        spec_gradient(net, x, tgt, k + 1),
                        spec_forward(net, x, k),
                    ),
            decreases self.weights@.len() - i,
        {
            proof {
                assert(vecs_view(outs@)[i as int] == outs@[i as int]@);
                assert(vecs_view(grads@)[i + 1] == grads@[i + 1]@);
            }
            let d = get_weight_delta(&outs[i], &grads[i + 1]);
            let ghost d_model = d@;
            let ghost prev = deltas@;
            deltas.push(d);
            proof {
                assert forall|k: int| 0 <= k < i + 1 implies (#[trigger] mats_view(deltas@)[k]).wf()
                    && mats_view(deltas@)[k].rows == self@.weights[k].rows && mats_view(
                    deltas@,
                )[k].cols == self@.weights[k].cols && mats_view(deltas@)[k] == spec_outer(
                    spec_gradient(net, x, tgt, k + 1),
                    spec_forward(net, x, k),
                ) by {
                    assert(mats_view(deltas@)[k] == deltas@[k]@);
                    if k < i {
                        assert(deltas@[k] == prev[k]);
                        assert(mats_view(prev)[k] == prev[k]@);
                    } else {
                        assert(deltas@[k]@ == d_model);
                    }
                }
            }
            i = i + 1;
        }
        proof {
            assert(mats_view(deltas@) =~= spec_delta_record(net, x, tgt));
        }
        (grads, deltas)
    }

    /// Add one batch's accumulated gradients and weight deltas onto the
    /// parameters, layer by layer: `bias += gradient[layer + 1]` and
    /// `weight += delta[layer]`. The gradients' sign and learning rate were
    /// already folded in by the gradient computer, so this is a plain sum.
    /// Shapes, and the learning rate, are unchanged.
    #[verifier::loop_isolation(false)]
    pub fn apply_update(&mut self, gradients: &Vec<Vec<S>>, deltas: &Vec<Matrix<S>>)
        requires
            old(self).wf(),
            old(self)@.gradient_shape(vecs_view(gradients@)),
            old(self)@.deltas_shape(mats_view(deltas@)),
        ensures
            final(self).wf(),
            final(self)@.same_shape(old(self)@),
            final(self)@.learning_rate == old(self)@.learning_rate,
            final(self)@ == spec_apply(old(self)@, vecs_view(gradients@), mats_view(deltas@)),
    {
        let layer_total = self.biases.len();
        let mut i: usize = 0;
        while i < layer_total
            invariant
                i <= layer_total,
                self.weights@.len() == layer_total,
                self.biases@.len() == layer_total,
                self.learning_rate == old(self).learning_rate,
                forall|k: int|
                    0 <= k < layer_total ==> (#[trigger] self@.weights[k]).rows
                        == old(self)@.weights[k].rows && self@.weights[k].cols
                        == old(self)@.weights[k].cols && self@.weights[k].wf(),
                forall|k: int|
                    0 <= k < layer_total ==> (#[trigger] self@.biases[k]).len()
                        == old(self)@.biases[k].len(),
                forall|k: int|
                    0 <= k < i ==> #[trigger] self@.biases[k] == spec_vec_plus(
                        old(self)@.biases[k],
                        vecs_view(gradients@)[k + 1],
                    ),
                forall|k: int|
                    0 <= k < i ==> #[trigger] self@.weights[k] == spec_mat_plus(
                        old(self)@.weights[k],
                        mats_view(deltas@)[k],
                    ),
                forall|k: int|
                    i <= k < layer_total ==> #[trigger] self@.biases[k] == old(self)@.biases[k],
                forall|k: int|
                    i <= k < layer_total ==> #[trigger] self@.weights[k] == old(self)@.weights[k],
            decreases layer_total - i,
        {
            proof {
                assert(self@.biases[i as int] == self.biases@[i as int]@);
                assert(self@.weights[i as int] == self.weights@[i as int]@);
                assert(vecs_view(gradients@)[i + 1] == gradients@[i + 1]@);
                assert(mats_view(deltas@)[i as int] == deltas@[i as int]@);
                assert(old(self)@.biases[i as int].len() == old(self)@.weights[i as int].rows);
                assert(self@.biases[i as int] == old(self)@.biases[i as int]);
                assert(self@.weights[i as int] == old(self)@.weights[i as int]);
                assert(self@.weights[i as int].wf());
                assert(mats_view(deltas@)[i as int].wf());
            }
            let nb = vec_plus(&self.biases[i], &gradients[i + 1]);
            let ghost nb_view = nb@;
            let ghost biases_before = self.biases@;
            self.biases.set(i, nb);
            let nw = mat_plus(&self.weights[i], &deltas[i]);
            let ghost nw_model = nw@;
            let ghost weights_before = self.weights@;
            self.weights.set(i, nw);
            proof {
                assert forall|k: int|
                    0 <= k < layer_total implies (#[trigger] self@.weights[k]).rows
                        == old(self)@.weights[k].rows && self@.weights[k].cols
                        == old(self)@.weights[k].cols && self@.weights[k].wf() by {
                    assert(self@.weights[k] == self.weights@[k]@);
                    if k == i {
                        assert(self.weights@[k]@ == nw_model);
                        assert(mats_view(weights_before)[k] == weights_before[k]@);
                    } else {
                        assert(self.weights@[k] == weights_before[k]);
                        assert(mats_view(weights_before)[k] == weights_before[k]@);
                    }
                }
                assert forall|k: int|
                    0 <= k < layer_total implies (#[trigger] self@.biases[k]).len()
                        == old(self)@.biases[k].len() by {
                    assert(self@.biases[k] == self.biases@[k]@);
                    if k == i {
                        assert(self.biases@[k]@ == nb_view);
                        assert(vecs_view(biases_before)[k] == biases_before[k]@);
                        assert(gradients@[k + 1]@.len() == old(self)@.weights[k].rows);
                    } else {
                        assert(self.biases@[k] == biases_before[k]);
                        assert(vecs_view(biases_before)[k] == biases_before[k]@);
                    }
                }
                assert forall|k: int|
                    0 <= k < i + 1 implies #[trigger] self@.biases[k] == spec_vec_plus(
                        old(self)@.biases[k],
                        vecs_view(gradients@)[k + 1],
                    ) by {
                    assert(self@.biases[k] == self.biases@[k]@);
                    if k == i {
                        assert(self.biases@[k]@ == nb_view);
                        assert(vecs_view(biases_before)[k] == biases_before[k]@);
                        assert(vecs_view(gradients@)[k + 1] == gradients@[k + 1]@);
                    } else {
                        assert(self.biases@[k] == biases_before[k]);
                        assert(vecs_view(biases_before)[k] == biases_before[k]@);
                    }
                }
                assert forall|k: int|
                    0 <= k < i + 1 implies #[trigger] self@.weights[k] == spec_mat_plus(
                        old(self)@.weights[k],
                        mats_view(deltas@)[k],
                    ) by {
                    assert(self@.weights[k] == self.weights@[k]@);
                    if k == i {
                        assert(self.weights@[k]@ == nw_model);
                        assert(mats_view(weights_before)[k] == weights_before[k]@);
                        assert(mats_view(deltas@)[k] == deltas@[k]@);
                    } else {
                        assert(self.weights@[k] == weights_before[k]);
                        assert(mats_view(weights_before)[k] == weights_before[k]@);
                    }
                }
                assert forall|k: int|
                    i + 1 <= k < layer_total implies #[trigger] self@.biases[k] == old(
                        self,
                    )@.biases[k] by {
                    assert(self@.biases[k] == self.biases@[k]@);
                    assert(self.biases@[k] == biases_before[k]);
                    assert(vecs_view(biases_before)[k] == biases_before[k]@);
                }
                assert forall|k: int|
                    i + 1 <= k < layer_total implies #[trigger] self@.weights[k] == old(
                        self,
                    )@.weights[k] by {
                    assert(self@.weights[k] == self.weights@[k]@);
                    assert(self.weights@[k] == weights_before[k]);
                    assert(mats_view(weights_before)[k] == weights_before[k]@);
                }
            }
            i = i + 1;
        }
        proof {
            assert(self@.weights =~= spec_apply(
                old(self)@,
                vecs_view(gradients@),
                mats_view(deltas@),
            ).weights);
            assert(self@.biases =~= spec_apply(
                old(self)@,
                vecs_view(gradients@),
                mats_view(deltas@),
            ).biases);
            assert(self@ =~= spec_apply(old(self)@, vecs_view(gradients@), mats_view(deltas@)));
            assert forall|k: int|
                0 <= k < self@.weights.len() implies (#[trigger] self@.biases[k]).len()
                    == self@.weights[k].rows by {
                assert(old(self)@.biases[k].len() == old(self)@.weights[k].rows);
            }
            assert forall|k: int|
                1 <= k < self@.weights.len() implies (#[trigger] self@.weights[k]).cols
                    == self@.weights[k - 1].rows by {
                assert(old(self)@.weights[k].cols == old(self)@.weights[k - 1].rows);
                assert(self@.weights[k - 1].rows == old(self)@.weights[k - 1].rows);
            }
            assert(self.wf());
            assert(self@.same_shape(old(self)@));
        }
    }

    /// Train on a sequence of examples for `epoch` full passes, in
    /// mini-batches of `batch_size`. Within each epoch the examples are
    /// taken in order and split into consecutive groups of `batch_size`;
    /// every example's gradients and weight deltas are accumulated into the
    /// group's sums, and only when the whole group is done is the single
    /// combined update applied to the parameters. A trailing group smaller
    /// than `batch_size` is trained on just the same — no example is
    /// dropped. Shapes and the learning rate are unchanged throughout.
    #[verifier::loop_isolation(false)]
    pub fn train(&mut self, training_data: Vec<TrainingData<S>>, batch_size: usize, epoch: usize)
        requires
            old(self).wf(),
            old(self).weights@.len() >= 1,
            batch_size >= 1,
            forall|k: int|
                0 <= k < training_data@.len() ==> (#[trigger] training_data@[k]).inputs@.len()
                    == old(self)@.input_size() && training_data@[k].target@.len()
                    == old(self)@.output_size(),
        ensures
            final(self).wf(),
            final(self)@.same_shape(old(self)@),
            final(self)@.learning_rate == old(self)@.learning_rate,
            final(self)@ == spec_train(
                old(self)@,
                training_data@,
                batch_size as int,
                epoch as int,
            ),
    {
        let ghost data = training_data@;
        let ghost b = batch_size as int;
        let example_total = training_data.len();
        let mut e: usize = 0;
        while e < epoch
            invariant
                e <= epoch,
                self.wf(),
                self.weights@.len() >= 1,
                self@.same_shape(old(self)@),
                self@.learning_rate == old(self)@.learning_rate,
                spec_train(old(self)@, data, b, epoch as int) == spec_train(
                    self@,
                    data,
                    b,
                    epoch - e,
                ),
            decreases epoch - e,
        {
            let ghost epoch_start = self@;
            let mut start: usize = 0;
            while start < example_total
                invariant
                    start <= example_total,
                    self.wf(),
                    self.weights@.len() >= 1,
                    self@.same_shape(old(self)@),
                    self@.learning_rate == old(self)@.learning_rate,
                    spec_train_from(epoch_start, data, b, 0) == spec_train_from(
                        self@,
                        data,
                        b,
                        start as int,
                    ),
                decreases example_total - start,
            {
                proof {
                    lemma_same_shape_sizes(self@, old(self)@);
                }
                let end = if example_total - start < batch_size {
                    example_total
                } else {
                    start + batch_size
                };
                let (mut summed_g, mut summed_d) = self.compute_example(&training_data[start]);
                let mut k = start + 1;
                while k < end
                    invariant
                        start < k <= end <= example_total,
                        self.wf(),
                        self.weights@.len() >= 1,
                        self@.same_shape(old(self)@),
                        self@.learning_rate == old(self)@.learning_rate,
                        self@.gradient_shape(vecs_view(summed_g@)),
                        self@.deltas_shape(mats_view(summed_d@)),
                        vecs_view(summed_g@) == spec_batch_gradients(
                            self@,
                            data,
                            start as int,
                            k as int,
                        ),
                        mats_view(summed_d@) == spec_batch_deltas(
                            self@,
                            data,
                            start as int,
                            k as int,
                        ),
                    decreases end - k,
                {
                    proof {
                        lemma_same_shape_sizes(self@, old(self)@);
                    }
                    let (gk, dk) = self.compute_example(&training_data[k]);
                    proof {
                        assert forall|i: int|
                            0 <= i < gk@.len() implies (#[trigger] vecs_view(summed_g@)[i]).len()
                            == vecs_view(gk@)[i].len() by {
                            if i >= 1 {
                                assert(vecs_view(summed_g@)[i].len() == self@.weights[i - 1].rows);
                                assert(vecs_view(gk@)[i].len() == self@.weights[i - 1].rows);
                            }
                        }
                        assert forall|i: int|
                            0 <= i < dk@.len() implies (#[trigger] mats_view(summed_d@)[i]).wf()
                            && mats_view(summed_d@)[i].rows == mats_view(dk@)[i].rows && mats_view(
                            summed_d@,
                        )[i].cols == mats_view(dk@)[i].cols && mats_view(dk@)[i].wf() by {
                            assert(mats_view(summed_d@)[i].rows == self@.weights[i].rows);
                            assert(mats_view(dk@)[i].rows == self@.weights[i].rows);
                        }
                    }
                    let ghost summed_g_before = summed_g@;
                    let ghost summed_d_before = summed_d@;
                    let ghost gk_view = vecs_view(gk@);
                    let ghost dk_view = mats_view(dk@);
                    merge_gradients(&mut summed_g, &gk);
                    merge_deltas(&mut summed_d, &dk);
                    proof {
                        assert forall|i: int|
                            1 <= i < vecs_view(summed_g@).len() implies (#[trigger] vecs_view(
                            summed_g@,
                        )[i]).len() == self@.weights[i - 1].rows by {
                            assert(vecs_view(summed_g@)[i].len() == vecs_view(
                                summed_g_before,
                            )[i].len());
                        }
                        assert(vecs_view(summed_g@)[0].len() == 1);
                        assert(self@.gradient_shape(vecs_view(summed_g@)));
                        assert forall|i: int|
                            0 <= i < mats_view(summed_d@).len() implies (#[trigger] mats_view(
                            summed_d@,
                        )[i]).wf() && mats_view(summed_d@)[i].rows == self@.weights[i].rows
                            && mats_view(summed_d@)[i].cols == self@.weights[i].cols by {
                            assert(mats_view(summed_d@)[i].rows == mats_view(
                                summed_d_before,
                            )[i].rows);
                        }
                        assert(self@.deltas_shape(mats_view(summed_d@)));
                        // the accumulators now hold one more example's fold
                        assert(vecs_view(summed_g@) =~= spec_batch_gradients(
                            self@,
                            data,
                            start as int,
                            k as int + 1,
                        )) by {
                            let acc = spec_batch_gradients(self@, data, start as int, k as int);
                            let expected = spec_batch_gradients(
                                self@,
                                data,
                                start as int,
                                k as int + 1,
                            );
                            assert(gk_view == spec_gradient_record(
                                self@,
                                data[k as int].inputs@,
                                data[k as int].target@,
                            ));
                            assert forall|i: int|
                                0 <= i < vecs_view(summed_g@).len() implies #[trigger] vecs_view(
                                summed_g@,
                            )[i] == expected[i] by {
                                assert(vecs_view(summed_g@)[i] == spec_vec_plus(
                                    vecs_view(summed_g_before)[i],
                                    gk_view[i],
                                ));
                            }
                        };
                        assert(mats_view(summed_d@) =~= spec_batch_deltas(
                            self@,
                            data,
                            start as int,
                            k as int + 1,
                        )) by {
                            let expected = spec_batch_deltas(self@, data, start as int, k as int + 1);
                            assert(dk_view == spec_delta_record(
                                self@,
                                data[k as int].inputs@,
                                data[k as int].target@,
                            ));
                            assert forall|i: int|
                                0 <= i < mats_view(summed_d@).len() implies #[trigger] mats_view(
                                summed_d@,
                            )[i] == expected[i] by {
                                assert(mats_view(summed_d@)[i] == spec_mat_plus(
                                    mats_view(summed_d_before)[i],
                                    dk_view[i],
                                ));
                            }
                        };
                    }
                    k = k + 1;
                }
                let ghost before_update = self@;
                self.apply_update(&summed_g, &summed_d);
                proof {
                    lemma_same_shape_trans(self@, before_update, old(self)@);
                    // this batch's combined update is one step of the epoch
                    assert(self@ == spec_apply(
                        before_update,
                        spec_batch_gradients(before_update, data, start as int, end as int),
                        spec_batch_deltas(before_update, data, start as int, end as int),
                    ));
                    assert(spec_train_from(before_update, data, b, start as int)
                        == spec_train_from(self@, data, b, end as int));
                }
                start = end;
            }
            e = e + 1;
            proof {
                assert(spec_train_from(self@, data, b, example_total as int) == self@);
                assert(spec_train_from(epoch_start, data, b, 0) == self@);
                assert(spec_train(epoch_start, data, b, (epoch - e) as int + 1) == spec_train(
                    self@,
                    data,
                    b,
                    epoch - e,
                ));
            }
        }
    }

    /// Persist the network: walk the layers in order, recording each weight
    /// matrix's shape with its row-major data and each bias vector's length
    /// with its data. The learning rate is not part of the snapshot.
    #[verifier::loop_isolation(false)]
    pub fn output_data(&self) -> (d: NetworkData<S>)
        requires
            self.wf(),
        ensures
            d@ == self@.export(),
            d@.wf(),
    {
        let mut weights: Vec<WeightData<S>> = Vec::new();
        let mut biases: Vec<BiasData<S>> = Vec::new();
        let mut layer: usize = 0;
        while layer < self.biases.len()
            invariant
                layer <= self.biases@.len(),
                weights@.len() == layer,
                biases@.len() == layer,
                forall|k: int| 0 <= k < layer ==> (#[trigger] weights@[k])@ == self@.weights[k],
                forall|k: int|
                    0 <= k < layer ==> (#[trigger] biases@[k])@ == self@.export().biases[k],
            decreases self.biases@.len() - layer,
        {
            let w = &self.weights[layer];
            weights.push(WeightData { rows: w.rows, cols: w.cols, data: copy_vec(&w.data) });
            biases.push(
                BiasData { rows: self.biases[layer].len(), data: copy_vec(&self.biases[layer]) },
            );
            layer = layer + 1;
        }
        let d = NetworkData { weights, biases };
        proof {
            assert(d@.weights =~= self@.export().weights);
            assert(d@.biases =~= self@.export().biases);
            assert(d@ =~= self@.export());
            lemma_snapshot_round_trip(self@, self.learning_rate);
        }
        d
    }

    /// Reconstruct a network from a persisted snapshot and a fresh learning
    /// rate. The snapshot is rejected whole — no partially-built network —
    /// if any block's data length disagrees with its declared shape, or the
    /// blocks do not chain into a well-formed network.
    #[verifier::loop_isolation(false)]
    pub fn from_data(data: NetworkData<S>, learning_rate: S) -> (r: Result<Network<S>, ModelError>)
        ensures
            data@.wf() ==> (r matches Ok(n) && n@ == data@.import(learning_rate) && n.wf()),
            !data@.wf() ==> r == Err::<Network<S>, ModelError>(ModelError::Malformed),
    {
        let layer_total = data.weights.len();
        if data.biases.len() != layer_total {
            return Err(ModelError::Malformed);
        }
        let mut i: usize = 0;
        while i < layer_total
            invariant
                i <= layer_total,
                forall|k: int| 0 <= k < i ==> (#[trigger] data@.weights[k]).wf(),
                forall|k: int|
                    0 <= k < i ==> (#[trigger] data@.biases[k]).data.len()
                        == data@.biases[k].rows,
                forall|k: int|
                    0 <= k < i ==> (#[trigger] data@.biases[k]).rows == data@.weights[k].rows,
                forall|k: int|
                    1 <= k < i ==> (#[trigger] data@.weights[k]).cols == data@.weights[k
                        - 1].rows,
            decreases layer_total - i,
        {
            proof {
                assert(data@.weights.len() == data.weights@.len());
                assert(data@.biases.len() == data.biases@.len());
                assert(data@.weights[i as int] == data.weights@[i as int]@);
                assert(data@.biases[i as int] == data.biases@[i as int]@);
            }
            let w = &data.weights[i];
            let data_len = w.data.len();
            let len_ok = match w.rows.checked_mul(w.cols) {
                Some(p) => data_len == p,
                None => false,
            };
            if !len_ok {
                return Err(ModelError::Malformed);
            }
            let b = &data.biases[i];
            if b.data.len() != b.rows {
                return Err(ModelError::Malformed);
            }
            if b.rows != w.rows {
                return Err(ModelError::Malformed);
            }
            if i > 0 {
                if w.cols != data.weights[i - 1].rows {
                    return Err(ModelError::Malformed);
                }
            }
            i = i + 1;
        }
        assert(data@.wf());
        let mut weights: Vec<Matrix<S>> = Vec::new();
        let mut biases: Vec<Vec<S>> = Vec::new();
        let mut i: usize = 0;
        while i < layer_total
            invariant
                i <= layer_total,
                data@.wf(),
                weights@.len() == i,
                biases@.len() == i,
                forall|k: int| 0 <= k < i ==> (#[trigger] weights@[k])@ == data@.weights[k],
                forall|k: int| 0 <= k < i ==> (#[trigger] biases@[k])@ == data@.biases[k].data,
            decreases layer_total - i,
        {
            let w = &data.weights[i];
            proof {
                assert(data@.weights[i as int].wf());
            }
            weights.push(Matrix::new(w.rows, w.cols, copy_vec(&w.data)));
            biases.push(copy_vec(&data.biases[i].data));
            i = i + 1;
        }
        let n = Network { weights, biases, learning_rate };
        proof {
            assert(n@.weights =~= data@.import(learning_rate).weights);
            assert(n@.biases =~= data@.import(learning_rate).biases);
            assert(n@ =~= data@.import(learning_rate));
            lemma_import_wf(data@, learning_rate);
        }
        Ok(n)
    }
}

} // verus!
