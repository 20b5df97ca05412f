//! The network: an ordered stack of hidden layers and one output layer,
//! with forward propagation, backpropagation with in-place weight updates,
//! and persistence through a byte codec.

use vstd::prelude::*;

use crate::activation::Activation;
use crate::activation::ActivationType;
use crate::activation::spec_activate;
use crate::dense_layer::DenseLayer;
use crate::dense_layer::holded_seq;
use crate::layer::Layer;
use crate::activation::spec_derivative;
use crate::network_config::NetworkConfig;
use crate::neuron::Neuron;
use crate::neuron::NeuronModel;
use crate::neuron::wsum;
use crate::scalar::B_TWO;
use crate::scalar::B_ZERO;
use crate::scalar::add_bits;
use crate::scalar::fadd;
use crate::scalar::fmul;
use crate::scalar::fsub;
use crate::scalar::mul_bits;
use crate::scalar::sub_bits;

verus! {

/// A network as the contracts see it: layers become sequences of
/// `NeuronModel`, the hidden stack a sequence of layers.
#[verifier::ext_equal]
pub ghost struct NetModel {
    pub activation: ActivationType,
    pub output_activation: ActivationType,
    pub hidden_layers: Seq<Seq<NeuronModel>>,
    pub output_layer: Seq<NeuronModel>,
    pub learning_rate: u64,
    pub input_size: u16,
    pub output_size: u16,
}

/// The width every hidden layer shares.
pub open spec fn layer_width(m: NetModel) -> nat {
    m.hidden_layers[0].len()
}

/// Shape invariant of a network: at least one hidden layer, all hidden layers
/// of one non-zero width, fan-in of the first hidden layer equal to the input
/// size, fan-in of every later hidden layer and of the output layer equal to
/// the width, and one output neuron per output entry.
pub open spec fn wf_model(m: NetModel) -> bool {
    &&& m.input_size >= 1
    &&& m.output_size >= 1
    &&& m.hidden_layers.len() >= 1
    &&& layer_width(m) >= 1
    &&& forall|k: int|
        0 <= k < m.hidden_layers.len() ==> (#[trigger] m.hidden_layers[k]).len() == layer_width(m)
    &&& forall|j: int|
        0 <= j < m.hidden_layers[0].len() ==> (#[trigger] m.hidden_layers[0][j]).weights.len()
            == m.input_size
    &&& forall|k: int, j: int|
        1 <= k < m.hidden_layers.len() && 0 <= j < m.hidden_layers[k].len() ==> (#[trigger] m
            .hidden_layers[k][j]).weights.len() == layer_width(m)
    &&& m.output_layer.len() == m.output_size
    &&& forall|i: int|
        0 <= i < m.output_layer.len() ==> (#[trigger] m.output_layer[i]).weights.len()
            == layer_width(m)
}

/// The activated output of each neuron of `layer` against the inputs `xs`.
pub open spec fn layer_values(layer: Seq<NeuronModel>, xs: Seq<u64>, kind: ActivationType) -> Seq<
    u64,
> {
    Seq::new(layer.len(), |i: int| spec_activate(kind, wsum(layer[i].bias, layer[i].weights, xs)))
}

/// `layer` after one forward step against the inputs `xs`: biases and weights
/// unchanged, `sum` and `holded` overwritten.
pub open spec fn layer_after_forward(
    layer: Seq<NeuronModel>,
    xs: Seq<u64>,
    kind: ActivationType,
) -> Seq<NeuronModel> {
    Seq::new(
        layer.len(),
        |i: int|
            NeuronModel {
                bias: layer[i].bias,
                weights: layer[i].weights,
                sum: wsum(layer[i].bias, layer[i].weights, xs),
                holded: spec_activate(kind, wsum(layer[i].bias, layer[i].weights, xs)),
            },
    )
}

/// The values hidden layer `k` produces during a forward pass on `xs`.
pub open spec fn hidden_vals(m: NetModel, xs: Seq<u64>, k: int) -> Seq<u64>
    decreases k,
{
    if k <= 0 {
        layer_values(m.hidden_layers[0], xs, m.activation)
    } else {
        layer_values(m.hidden_layers[k], hidden_vals(m, xs, k - 1), m.activation)
    }
}

/// The values hidden layer `k` consumes during a forward pass on `xs`: the
/// raw input for the first layer, the previous layer's values after that.
pub open spec fn vals_into_hidden(m: NetModel, xs: Seq<u64>, k: int) -> Seq<u64> {
    if k == 0 {
        xs
    } else {
        hidden_vals(m, xs, k - 1)
    }
}

/// What the output layer produces for the input `xs`: the result of the whole
/// forward pass. A function of the parameters (biases, weights, activations)
/// and the input alone.
pub open spec fn net_outputs(m: NetModel, xs: Seq<u64>) -> Seq<u64> {
    layer_values(
        m.output_layer,
        hidden_vals(m, xs, m.hidden_layers.len() - 1),
        m.output_activation,
    )
}

/// The whole network after one forward pass on `xs`: every layer's `sum` and
/// `holded` overwritten, everything else unchanged.
pub open spec fn spec_feed_forward(m: NetModel, xs: Seq<u64>) -> NetModel {
    NetModel {
        hidden_layers: Seq::new(
            m.hidden_layers.len(),
            |k: int| layer_after_forward(m.hidden_layers[k], vals_into_hidden(m, xs, k), m.activation),
        ),
        output_layer: layer_after_forward(
            m.output_layer,
            hidden_vals(m, xs, m.hidden_layers.len() - 1),
            m.output_activation,
        ),
        ..m
    }
}

/// Equality of the learned parameters and configuration: everything but the
/// transient `sum` and `holded` scratch values.
pub open spec fn neuron_params_eq(a: NeuronModel, b: NeuronModel) -> bool {
    a.bias == b.bias && a.weights == b.weights
}

/// Two networks agree on everything `net_outputs` can observe.
pub open spec fn params_eq(a: NetModel, b: NetModel) -> bool {
    &&& a.activation == b.activation
    &&& a.output_activation == b.output_activation
    &&& a.learning_rate == b.learning_rate
    &&& a.input_size == b.input_size
    &&& a.output_size == b.output_size
    &&& a.hidden_layers.len() == b.hidden_layers.len()
    &&& forall|k: int|
        0 <= k < a.hidden_layers.len() ==> (#[trigger] a.hidden_layers[k]).len()
            == b.hidden_layers[k].len()
    &&& forall|k: int, j: int|
        0 <= k < a.hidden_layers.len() && 0 <= j < a.hidden_layers[k].len()
            ==> neuron_params_eq(#[trigger] a.hidden_layers[k][j], b.hidden_layers[k][j])
    &&& a.output_layer.len() == b.output_layer.len()
    &&& forall|i: int|
        0 <= i < a.output_layer.len() ==> neuron_params_eq(
            #[trigger] a.output_layer[i],
            b.output_layer[i],
        )
}

/// The activated outputs of a layer depend only on its biases and weights.
proof fn lemma_layer_values_params(
    a: Seq<NeuronModel>,
    b: Seq<NeuronModel>,
    xs: Seq<u64>,
    kind: ActivationType,
)
    requires
        a.len() == b.len(),
        forall|j: int| 0 <= j < a.len() ==> neuron_params_eq(#[trigger] a[j], b[j]),
    ensures
        layer_values(a, xs, kind) == layer_values(b, xs, kind),
{
    assert(layer_values(a, xs, kind) =~= layer_values(b, xs, kind));
}

proof fn lemma_hidden_vals_params(a: NetModel, b: NetModel, xs: Seq<u64>, k: int)
    requires
        params_eq(a, b),
        0 <= k < a.hidden_layers.len(),
    ensures
        hidden_vals(a, xs, k) == hidden_vals(b, xs, k),
    decreases k,
{
    if k <= 0 {
        lemma_layer_values_params(a.hidden_layers[0], b.hidden_layers[0], xs, a.activation);
    } else {
        lemma_hidden_vals_params(a, b, xs, k - 1);
        lemma_layer_values_params(
            a.hidden_layers[k],
            b.hidden_layers[k],
            hidden_vals(a, xs, k - 1),
            a.activation,
        );
    }
}

/// Determinism of the forward pass: two networks with equal parameters — in
/// particular, one network before and after any number of `predict` calls —
/// produce equal outputs for equal inputs.
pub proof fn lemma_outputs_of_params(a: NetModel, b: NetModel, xs: Seq<u64>)
    requires
        params_eq(a, b),
        a.hidden_layers.len() >= 1,
    ensures
        net_outputs(a, xs) == net_outputs(b, xs),
{
    lemma_hidden_vals_params(a, b, xs, a.hidden_layers.len() - 1);
    lemma_layer_values_params(
        a.output_layer,
        b.output_layer,
        hidden_vals(a, xs, a.hidden_layers.len() - 1),
        a.output_activation,
    );
}

/// A forward pass only rewrites the transient scratch values: the parameters,
/// and with them everything `net_outputs` observes, stay as they were.
pub proof fn lemma_feed_forward_params(m: NetModel, xs: Seq<u64>)
    ensures
        params_eq(m, spec_feed_forward(m, xs)),
{
}

/// Determinism of `predict`: a forward pass does not change what a later
/// forward pass returns, so two `predict` calls on an unmodified network
/// return equal vectors.
pub proof fn lemma_predict_twice(m: NetModel, xs: Seq<u64>)
    requires
        m.hidden_layers.len() >= 1,
    ensures
        net_outputs(spec_feed_forward(m, xs), xs) == net_outputs(m, xs),
{
    lemma_feed_forward_params(m, xs);
    lemma_outputs_of_params(m, spec_feed_forward(m, xs), xs);
}

/// A forward pass preserves the shape invariant.
pub proof fn lemma_feed_forward_wf(m: NetModel, xs: Seq<u64>)
    requires
        wf_model(m),
    ensures
        wf_model(spec_feed_forward(m, xs)),
{
}

/// The `holded` values a forward step leaves behind are exactly the layer's
/// activated outputs.
proof fn lemma_holded_after_forward(layer: Seq<NeuronModel>, xs: Seq<u64>, kind: ActivationType)
    ensures
        holded_seq(layer_after_forward(layer, xs, kind)) == layer_values(layer, xs, kind),
{
    assert(holded_seq(layer_after_forward(layer, xs, kind)) =~= layer_values(layer, xs, kind));
}

/// The backward error signal of each output neuron against the target `ts`:
/// the squared-error loss derivative chained through the output activation,
/// `2 * (holded_i - ts_i) * derivative(sum_i)`.
pub open spec fn out_errs(m: NetModel, ts: Seq<u64>) -> Seq<u64> {
    Seq::new(
        m.output_layer.len(),
        |i: int|
            fmul(
                fmul(B_TWO, fsub(m.output_layer[i].holded, ts[i])),
                spec_derivative(m.output_activation, m.output_layer[i].sum),
            ),
    )
}

/// A neuron after one gradient step with error signal `err` against the
/// previous layer's values `prev`: `bias -= err * lr` and
/// `weights[j] -= prev[j] * (err * lr)`; the scratch values stay.
pub open spec fn updated_neuron(n: NeuronModel, err: u64, prev: Seq<u64>, lr: u64) -> NeuronModel {
    NeuronModel {
        bias: fsub(n.bias, fmul(err, lr)),
        weights: Seq::new(
            n.weights.len(),
            |j: int| fsub(n.weights[j], fmul(prev[j], fmul(err, lr))),
        ),
        ..n
    }
}

/// A layer after one gradient step, neuron `i` with error signal `errs[i]`.
pub open spec fn updated_layer(
    layer: Seq<NeuronModel>,
    errs: Seq<u64>,
    prev: Seq<u64>,
    lr: u64,
) -> Seq<NeuronModel> {
    Seq::new(layer.len(), |i: int| updated_neuron(layer[i], errs[i], prev, lr))
}

/// `weights[0][j]*errs[0] + ... + weights[n-1][j]*errs[n-1]`, folded left:
/// the error signals of a layer, pulled back through its weight column `j`.
pub open spec fn col_dot(layer: Seq<NeuronModel>, errs: Seq<u64>, j: int, n: int) -> u64
    decreases n,
{
    if n <= 0 {
        B_ZERO
    } else {
        fadd(col_dot(layer, errs, j, n - 1), fmul(layer[n - 1].weights[j], errs[n - 1]))
    }
}

/// The error propagated to each of the `fan_in` neurons feeding `layer`.
pub open spec fn col_dots(layer: Seq<NeuronModel>, errs: Seq<u64>, fan_in: nat) -> Seq<u64> {
    Seq::new(fan_in, |j: int| col_dot(layer, errs, j, layer.len() as int))
}

/// The values hidden layer `k` consumed in the preceding forward pass, as the
/// network stores them: the raw input for the first layer, the previous
/// layer's `holded` values after that.
pub open spec fn stored_vals_into(m: NetModel, xs: Seq<u64>, k: int) -> Seq<u64> {
    if k == 0 {
        xs
    } else {
        holded_seq(m.hidden_layers[k - 1])
    }
}

/// The output layer after its gradient step against the target `ts`.
pub open spec fn bp_out_layer(m: NetModel, ts: Seq<u64>) -> Seq<NeuronModel> {
    updated_layer(
        m.output_layer,
        out_errs(m, ts),
        holded_seq(m.hidden_layers[m.hidden_layers.len() - 1]),
        m.learning_rate,
    )
}

/// The propagated error arriving at hidden layer `k`: the downstream layer's
/// error signals pulled back through its weights, read after that layer's own
/// update, as backpropagation walks from the output towards the input.
pub open spec fn bp_perr_into(m: NetModel, xs: Seq<u64>, ts: Seq<u64>, k: int) -> Seq<u64>
    decreases m.hidden_layers.len() - k, 0int,
{
    if k + 1 >= m.hidden_layers.len() {
        col_dots(bp_out_layer(m, ts), out_errs(m, ts), layer_width(m))
    } else {
        col_dots(bp_layer(m, xs, ts, k + 1), bp_errs(m, xs, ts, k + 1), layer_width(m))
    }
}

/// The error signal of each neuron of hidden layer `k`: the propagated error
/// times the activation derivative at the stored pre-activation sum.
pub open spec fn bp_errs(m: NetModel, xs: Seq<u64>, ts: Seq<u64>, k: int) -> Seq<u64>
    decreases m.hidden_layers.len() - k, 1int,
{
    Seq::new(
        m.hidden_layers[k].len(),
        |j: int|
            fmul(
                bp_perr_into(m, xs, ts, k)[j],
                spec_derivative(m.activation, m.hidden_layers[k][j].sum),
            ),
    )
}

/// Hidden layer `k` after its gradient step.
pub open spec fn bp_layer(m: NetModel, xs: Seq<u64>, ts: Seq<u64>, k: int) -> Seq<NeuronModel>
    decreases m.hidden_layers.len() - k, 2int,
{
    updated_layer(
        m.hidden_layers[k],
        bp_errs(m, xs, ts, k),
        stored_vals_into(m, xs, k),
        m.learning_rate,
    )
}

/// The whole network after one backward pass against input `xs` and target
/// `ts`, assuming a forward pass on `xs` just stored every `sum` and
/// `holded`: every bias and weight takes its gradient step, everything else
/// is unchanged.
pub open spec fn spec_backprop(m: NetModel, xs: Seq<u64>, ts: Seq<u64>) -> NetModel {
    NetModel {
        hidden_layers: Seq::new(m.hidden_layers.len(), |k: int| bp_layer(m, xs, ts, k)),
        output_layer: bp_out_layer(m, ts),
        ..m
    }
}

/// The whole network after one training step on the example `(xs, ts)`: a
/// forward pass followed by a backward pass.
pub open spec fn spec_train(m: NetModel, xs: Seq<u64>, ts: Seq<u64>) -> NetModel {
    spec_backprop(spec_feed_forward(m, xs), xs, ts)
}

/// The network after training on the first `n` examples of two parallel
/// collections, in the given order.
pub open spec fn spec_train_many(m: NetModel, xs: Seq<Seq<u64>>, ts: Seq<Seq<u64>>, n: int) -> NetModel
    decreases n,
{
    if n <= 0 {
        m
    } else {
        spec_train(spec_train_many(m, xs, ts, n - 1), xs[n - 1], ts[n - 1])
    }
}

/// A backward pass preserves the shape invariant and the scratch values.
pub proof fn lemma_backprop_wf(m: NetModel, xs: Seq<u64>, ts: Seq<u64>)
    requires
        wf_model(m),
    ensures
        wf_model(spec_backprop(m, xs, ts)),
{
    let r = spec_backprop(m, xs, ts);
    assert(r.hidden_layers[0].len() == m.hidden_layers[0].len());
    assert forall|k: int| 0 <= k < r.hidden_layers.len() implies (#[trigger] r.hidden_layers[k]).len()
        == layer_width(r) by {
        assert(r.hidden_layers[k] == bp_layer(m, xs, ts, k));
    }
    assert forall|j: int| 0 <= j < r.hidden_layers[0].len() implies (
    #[trigger] r.hidden_layers[0][j]).weights.len() == m.input_size by {
        assert(r.hidden_layers[0] == bp_layer(m, xs, ts, 0));
    }
    assert forall|k: int, j: int|
        1 <= k < r.hidden_layers.len() && 0 <= j < r.hidden_layers[k].len() implies (
    #[trigger] r.hidden_layers[k][j]).weights.len() == layer_width(r) by {
        assert(r.hidden_layers[k] == bp_layer(m, xs, ts, k));
    }
}

/// The multilayer perceptron. It exclusively owns its layers; `train`
/// mutates weights and scratch state in place, `predict` only the scratch
/// state.
pub struct NeuralNetwork {
    pub activation: Activation,
    pub output_activation: Activation,
    pub hidden_layers: Vec<DenseLayer>,
    pub output_layer: DenseLayer,
    pub learning_rate: u64,
    pub input_size: u16,
    pub output_size: u16,
}

impl View for NeuralNetwork {
    type V = NetModel;

    open spec fn view(&self) -> NetModel {
        NetModel {
            activation: self.activation.activation_type,
            output_activation: self.output_activation.activation_type,
            hidden_layers: self.hidden_layers@.map_values(|l: DenseLayer| l@),
            output_layer: self.output_layer@,
            learning_rate: self.learning_rate,
            input_size: self.input_size,
            output_size: self.output_size,
        }
    }
}

/// A fresh vector with the same entries.
fn copy_values(v: &Vec<u64>) -> (r: Vec<u64>)
    ensures
        r@ == v@,
{
    let mut out: Vec<u64> = Vec::new();
    let mut i: usize = 0;
    while i < v.len()
        invariant
            i <= v@.len(),
            out@ =~= v@.subrange(0, i as int),
        decreases v@.len() - i,
    {
        out.push(v[i]);
        i = i + 1;
    }
    proof {
        assert(out@ =~= v@);
    }
    out
}

/// One forward step of a whole layer against the values `source` presents.
fn forward_layer(source: &Layer, layer: &DenseLayer, act: &Activation) -> (r: DenseLayer)
    requires
        forall|j: int|
            0 <= j < layer@.len() ==> (#[trigger] layer@[j]).weights.len()
                == source.values().len(),
    ensures
        r@ == layer_after_forward(layer@, source.values(), act.activation_type),
{
    let mut neurons: Vec<Neuron> = Vec::new();
    let mut j: usize = 0;
    while j < layer.neurons.len()
        invariant
            j <= layer.neurons@.len(),
            neurons@.len() == j,
            forall|i: int|
                0 <= i < layer@.len() ==> (#[trigger] layer@[i]).weights.len()
                    == source.values().len(),
            forall|i: int|
                0 <= i < j ==> (#[trigger] neurons@[i])@ == layer_after_forward(
                    layer@,
                    source.values(),
                    act.activation_type,
                )[i],
        decreases layer.neurons@.len() - j,
    {
        let old_neuron = &layer.neurons[j];
        proof {
            assert(layer@[j as int] == layer.neurons@[j as int]@);
        }
        let sum: u64 = old_neuron.compute_sum(source);
        let holded: u64 = act.function(sum);
        let weights: Vec<u64> = copy_values(&old_neuron.weights);
        let bias: u64 = old_neuron.bias;
        neurons.push(Neuron { holded, bias, sum, weights });
        j = j + 1;
    }
    let r = DenseLayer { neurons };
    proof {
        assert(r@ =~= layer_after_forward(layer@, source.values(), act.activation_type));
    }
    r
}

/// The backward error signals of the output layer against `target`.
fn output_error_signals(layer: &DenseLayer, target: &Vec<u64>, act: &Activation) -> (r: Vec<u64>)
    requires
        target@.len() == layer@.len(),
    ensures
        r@ == Seq::new(
            layer@.len(),
            |i: int|
                fmul(
                    fmul(B_TWO, fsub(layer@[i].holded, target@[i])),
                    spec_derivative(act.activation_type, layer@[i].sum),
                ),
        ),
{
    let mut out: Vec<u64> = Vec::new();
    let mut i: usize = 0;
    while i < layer.neurons.len()
        invariant
            i <= layer@.len(),
            target@.len() == layer@.len(),
            out@.len() == i,
            forall|q: int|
                0 <= q < i ==> out@[q] == fmul(
                    fmul(B_TWO, fsub((#[trigger] layer@[q]).holded, target@[q])),
                    spec_derivative(act.activation_type, layer@[q].sum),
                ),
        decreases layer@.len() - i,
    {
        let n = &layer.neurons[i];
        proof {
            assert(layer@[i as int] == layer.neurons@[i as int]@);
        }
        let e: u64 = mul_bits(
            mul_bits(B_TWO, sub_bits(n.holded, target[i])),
            act.derivative(n.sum),
        );
        out.push(e);
        i = i + 1;
    }
    proof {
        assert(out@ =~= Seq::new(
            layer@.len(),
            |i: int|
                fmul(
                    fmul(B_TWO, fsub(layer@[i].holded, target@[i])),
                    spec_derivative(act.activation_type, layer@[i].sum),
                ),
        ));
    }
    out
}

/// The error signal of each neuron of a hidden layer: the propagated error
/// times the activation derivative at the stored pre-activation sum.
fn hidden_error_signals(layer: &DenseLayer, perr: &Vec<u64>, act: &Activation) -> (r: Vec<u64>)
    requires
        perr@.len() >= layer@.len(),
    ensures
        r@ == Seq::new(
            layer@.len(),
            |j: int| fmul(perr@[j], spec_derivative(act.activation_type, layer@[j].sum)),
        ),
{
    let mut out: Vec<u64> = Vec::new();
    let mut j: usize = 0;
    while j < layer.neurons.len()
        invariant
            j <= layer@.len(),
            perr@.len() >= layer@.len(),
            out@.len() == j,
            forall|q: int|
                0 <= q < j ==> out@[q] == fmul(
                    perr@[q],
                    spec_derivative(act.activation_type, (#[trigger] layer@[q]).sum),
                ),
        decreases layer@.len() - j,
    {
        proof {
            assert(layer@[j as int] == layer.neurons@[j as int]@);
        }
        let e: u64 = mul_bits(perr[j], act.derivative(layer.neurons[j].sum));
        out.push(e);
        j = j + 1;
    }
    proof {
        assert(out@ =~= Seq::new(
            layer@.len(),
            |j: int| fmul(perr@[j], spec_derivative(act.activation_type, layer@[j].sum)),
        ));
    }
    out
}

/// One gradient step of a whole layer: neuron `i` moves by error signal
/// `errs[i]` against the values `prev` it consumed in the forward pass.
fn gradient_layer(layer: &DenseLayer, errs: &Vec<u64>, prev: &Vec<u64>, lr: u64) -> (r: DenseLayer)
    requires
        errs@.len() == layer@.len(),
        forall|i: int| 0 <= i < layer@.len() ==> (#[trigger] layer@[i]).weights.len() == prev@.len(),
    ensures
        r@ == updated_layer(layer@, errs@, prev@, lr),
{
    let mut neurons: Vec<Neuron> = Vec::new();
    let mut i: usize = 0;
    while i < layer.neurons.len()
        invariant
            i <= layer@.len(),
            errs@.len() == layer@.len(),
            forall|q: int|
                0 <= q < layer@.len() ==> (#[trigger] layer@[q]).weights.len() == prev@.len(),
            neurons@.len() == i,
            forall|q: int|
                0 <= q < i ==> (#[trigger] neurons@[q])@ == updated_neuron(
                    layer@[q],
                    errs@[q],
                    prev@,
                    lr,
                ),
        decreases layer@.len() - i,
    {
        let n = &layer.neurons[i];
        proof {
            assert(layer@[i as int] == layer.neurons@[i as int]@);
        }
        let err: u64 = errs[i];
        let step: u64 = mul_bits(err, lr);
        let bias: u64 = sub_bits(n.bias, step);
        let mut weights: Vec<u64> = Vec::new();
        let mut j: usize = 0;
        while j < n.weights.len()
            invariant
                j <= n.weights@.len(),
                n.weights@.len() == prev@.len(),
                step == fmul(err, lr),
                weights@.len() == j,
                forall|q: int|
                    0 <= q < j ==> weights@[q] == fsub(
                        n.weights@[q],
                        fmul(prev@[q], fmul(err, lr)),
                    ),
            decreases n.weights@.len() - j,
        {
            let w: u64 = sub_bits(n.weights[j], mul_bits(prev[j], step));
            weights.push(w);
            j = j + 1;
        }
        let fresh = Neuron { holded: n.holded, bias, sum: n.sum, weights };
        proof {
            assert(fresh@ =~= updated_neuron(layer@[i as int], errs@[i as int], prev@, lr));
        }
        neurons.push(fresh);
        i = i + 1;
    }
    let r = DenseLayer { neurons };
    proof {
        assert(r@ =~= updated_layer(layer@, errs@, prev@, lr));
    }
    r
}

/// The error signals of a layer pulled back through its weights: entry `j` of
/// the result is the dot product of weight column `j` with `errs`.
fn column_dots(layer: &DenseLayer, errs: &Vec<u64>, fan_in: usize) -> (r: Vec<u64>)
    requires
        errs@.len() == layer@.len(),
        forall|i: int| 0 <= i < layer@.len() ==> (#[trigger] layer@[i]).weights.len() == fan_in,
    ensures
        r@ == col_dots(layer@, errs@, fan_in as nat),
{
    let mut out: Vec<u64> = Vec::new();
    let mut j: usize = 0;
    while j < fan_in
        invariant
            j <= fan_in,
            errs@.len() == layer@.len(),
            forall|q: int| 0 <= q < layer@.len() ==> (#[trigger] layer@[q]).weights.len() == fan_in,
            out@.len() == j,
            forall|q: int|
                0 <= q < j ==> out@[q] == col_dot(layer@, errs@, q, layer@.len() as int),
        decreases fan_in - j,
    {
        let mut acc: u64 = B_ZERO;
        let mut i: usize = 0;
        while i < layer.neurons.len()
            invariant
                i <= layer@.len(),
                j < fan_in,
                errs@.len() == layer@.len(),
                forall|q: int|
                    0 <= q < layer@.len() ==> (#[trigger] layer@[q]).weights.len() == fan_in,
                acc == col_dot(layer@, errs@, j as int, i as int),
            decreases layer@.len() - i,
        {
            proof {
                assert(layer@[i as int] == layer.neurons@[i as int]@);
            }
            acc = add_bits(acc, mul_bits(layer.neurons[i].weights[j], errs[i]));
            i = i + 1;
        }
        out.push(acc);
        j = j + 1;
    }
    proof {
        assert(out@ =~= col_dots(layer@, errs@, fan_in as nat));
    }
    out
}

impl NeuralNetwork {
    /// A fresh network built from `config`: `layers_quantity` hidden layers of
    /// `layers_size` neurons (the first with fan-in `input_size`, the rest
    /// with fan-in `layers_size`) and an output layer of `output_size`
    /// neurons with fan-in `layers_size`. All size fields must be non-zero;
    /// a zero size is a construction-time contract violation.
    pub fn new(config: NetworkConfig, rng: &mut rand::rngs::StdRng) -> (r: NeuralNetwork)
        requires
            config.layers_size >= 1,
            config.layers_quantity >= 1,
            config.input_size >= 1,
            config.output_size >= 1,
        ensures
            wf_model(r@),
            r@.activation == config.activation.activation_type,
            r@.output_activation == config.output_activation.activation_type,
            r@.learning_rate == config.learning_rate,
            r@.input_size == config.input_size,
            r@.output_size == config.output_size,
            r@.hidden_layers.len() == config.layers_quantity,
            layer_width(r@) == config.layers_size,
    {
        let mut hidden_layers: Vec<DenseLayer> = Vec::new();
        let first = DenseLayer::new(config.layers_size, config.input_size, rng);
        hidden_layers.push(first);

        let mut i: u16 = 1;
        while i < config.layers_quantity
            invariant
                1 <= i <= config.layers_quantity,
                hidden_layers@.len() == i,
                config.layers_size >= 1,
                hidden_layers@[0]@.len() == config.layers_size,
                forall|j: int|
                    0 <= j < config.layers_size ==> (#[trigger] hidden_layers@[0]@[j]).weights.len()
                        == config.input_size,
                forall|k: int|
                    1 <= k < i ==> (#[trigger] hidden_layers@[k])@.len() == config.layers_size,
                forall|k: int, j: int|
                    1 <= k < i && 0 <= j < config.layers_size ==> (#[trigger] hidden_layers@[k]@[j]).weights.len()
                        == config.layers_size,
            decreases config.layers_quantity - i,
        {
            let next = DenseLayer::new(config.layers_size, config.layers_size, rng);
            hidden_layers.push(next);
            i = i + 1;
        }

        let activation = config.activation;
        let output_activation = config.output_activation;
        let output_layer = DenseLayer::new(config.output_size, config.layers_size, rng);
        let learning_rate = config.learning_rate;
        let input_size = config.input_size;
        let output_size = config.output_size;

        let r = NeuralNetwork {
            activation,
            output_activation,
            hidden_layers,
            output_layer,
            learning_rate,
            input_size,
            output_size,
        };
        proof {
            assert forall|k: int| 0 <= k < r@.hidden_layers.len() implies (
            #[trigger] r@.hidden_layers[k]).len() == layer_width(r@) by {
                assert(r@.hidden_layers[k] == r.hidden_layers@[k]@);
                assert(r@.hidden_layers[0] == r.hidden_layers@[0]@);
            }
            assert forall|k: int, j: int|
                1 <= k < r@.hidden_layers.len() && 0 <= j < r@.hidden_layers[k].len() implies (
            #[trigger] r@.hidden_layers[k][j]).weights.len() == layer_width(r@) by {
                assert(r@.hidden_layers[k] == r.hidden_layers@[k]@);
                assert(r@.hidden_layers[0] == r.hidden_layers@[0]@);
            }
            assert(r@.hidden_layers[0] == r.hidden_layers@[0]@);
            assert(wf_model(r@));
        }
        r
    }

    /// One forward pass: every neuron's `sum` and `holded` are overwritten,
    /// layer by layer from the input to the output layer; parameters are
    /// untouched.
    fn feed_forward(&mut self, input: &Vec<u64>)
        requires
            wf_model(old(self)@),
            input@.len() == old(self)@.input_size,
        ensures
            final(self)@ == spec_feed_forward(old(self)@, input@),
    {
        let ghost m = old(self)@;
        let first = forward_layer(&Layer::InputLayer(input), &self.hidden_layers[0], &self.activation);
        proof {
            assert(m.hidden_layers[0] == self.hidden_layers@[0]@);
        }
        self.hidden_layers.set(0, first);

        let mut k: usize = 1;
        while k < self.hidden_layers.len()
            invariant
                1 <= k <= m.hidden_layers.len(),
                wf_model(m),
                input@.len() == m.input_size,
                self.hidden_layers@.len() == m.hidden_layers.len(),
                self.activation == old(self).activation,
                self.output_activation == old(self).output_activation,
                self.output_layer == old(self).output_layer,
                self.learning_rate == old(self).learning_rate,
                self.input_size == old(self).input_size,
                self.output_size == old(self).output_size,
                m == old(self)@,
                forall|i: int|
                    0 <= i < k ==> (#[trigger] self.hidden_layers@[i])@ == layer_after_forward(
                        m.hidden_layers[i],
                        vals_into_hidden(m, input@, i),
                        m.activation,
                    ),
                forall|i: int|
                    k <= i < m.hidden_layers.len() ==> (#[trigger] self.hidden_layers@[i])@
                        == m.hidden_layers[i],
            decreases self.hidden_layers@.len() - k,
        {
            proof {
                lemma_holded_after_forward(
                    m.hidden_layers[k - 1],
                    vals_into_hidden(m, input@, k - 1),
                    m.activation,
                );
            }
            let source = Layer::DenseLayer(&self.hidden_layers[k - 1]);
            let fresh = forward_layer(&source, &self.hidden_layers[k], &self.activation);
            self.hidden_layers.set(k, fresh);
            k = k + 1;
        }

        proof {
            lemma_holded_after_forward(
                m.hidden_layers[m.hidden_layers.len() - 1],
                vals_into_hidden(m, input@, m.hidden_layers.len() - 1),
                m.activation,
            );
        }
        let last_index: usize = self.hidden_layers.len() - 1;
        let source = Layer::DenseLayer(&self.hidden_layers[last_index]);
        let fresh_out = forward_layer(&source, &self.output_layer, &self.output_activation);
        self.output_layer = fresh_out;

        proof {
            assert(self@.hidden_layers =~= spec_feed_forward(m, input@).hidden_layers);
            assert(self@ =~~= spec_feed_forward(m, input@));
        }
    }

    /// The network's prediction for `input`: runs a forward pass and returns
    /// the output layer's activated values as a fresh vector. The result is a
    /// function of the parameters and the input alone, and the parameters are
    /// not changed: two calls on an unmodified network return equal vectors.
    pub fn predict(&mut self, input: &Vec<u64>) -> (r: Vec<u64>)
        requires
            wf_model(old(self)@),
            input@.len() == old(self)@.input_size,
        ensures
            r@ == net_outputs(old(self)@, input@),
            r@.len() == old(self)@.output_size,
            final(self)@ == spec_feed_forward(old(self)@, input@),
            wf_model(final(self)@),
            params_eq(old(self)@, final(self)@),
    {
        let ghost m = old(self)@;
        self.feed_forward(input);
        let r = self.output_layer.holded_values();
        proof {
            lemma_holded_after_forward(
                m.output_layer,
                hidden_vals(m, input@, m.hidden_layers.len() - 1),
                m.output_activation,
            );
            lemma_feed_forward_wf(m, input@);
            lemma_feed_forward_params(m, input@);
        }
        r
    }

    /// Whether the stored layers satisfy the shape invariant `wf_model`.
    pub fn is_wf(&self) -> (b: bool)
        ensures
            b == wf_model(self@),
    {
        if self.input_size == 0 {
            return false;
        }
        if self.output_size == 0 {
            return false;
        }
        if self.hidden_layers.len() == 0 {
            return false;
        }
        proof {
            assert(self@.hidden_layers[0] == self.hidden_layers@[0]@);
        }
        let width: usize = self.hidden_layers[0].neurons.len();
        if width == 0 {
            return false;
        }

        let mut k: usize = 0;
        while k < self.hidden_layers.len()
            invariant
                k <= self.hidden_layers@.len(),
                width as nat == layer_width(self@),
                self.input_size >= 1,
                self.output_size >= 1,
                self.hidden_layers@.len() >= 1,
                width >= 1,
                forall|q: int|
                    0 <= q < k ==> (#[trigger] self@.hidden_layers[q]).len() == width,
                forall|j: int|
                    k > 0 ==> (0 <= j < width ==> (#[trigger] self@.hidden_layers[0][j]).weights.len()
                        == self.input_size),
                forall|q: int, j: int|
                    1 <= q < k && 0 <= j < width ==> (#[trigger] self@.hidden_layers[q][j]).weights.len()
                        == width,
            decreases self.hidden_layers@.len() - k,
        {
            proof {
                assert(self@.hidden_layers[k as int] == self.hidden_layers@[k as int]@);
            }
            let layer = &self.hidden_layers[k];
            if layer.neurons.len() != width {
                return false;
            }
            let expect: usize = if k == 0 {
                self.input_size as usize
            } else {
                width
            };
            let mut j: usize = 0;
            while j < layer.neurons.len()
                invariant
                    j <= layer.neurons@.len(),
                    layer@ == self@.hidden_layers[k as int],
                    k < self.hidden_layers@.len(),
                    layer.neurons@.len() == width,
                    (k == 0 ==> expect == self.input_size),
                    (k > 0 ==> expect == width),
                    forall|q: int|
                        0 <= q < j ==> (#[trigger] layer@[q]).weights.len() == expect,
                decreases layer.neurons@.len() - j,
            {
                proof {
                    assert(layer@[j as int] == layer.neurons@[j as int]@);
                }
                if layer.neurons[j].weights.len() != expect {
                    return false;
                }
                j = j + 1;
            }
            k = k + 1;
        }

        if self.output_layer.neurons.len() != self.output_size as usize {
            return false;
        }
        let mut t: usize = 0;
        while t < self.output_layer.neurons.len()
            invariant
                t <= self.output_layer.neurons@.len(),
                width as nat == layer_width(self@),
                self.input_size >= 1,
                self.output_size >= 1,
                self.hidden_layers@.len() >= 1,
                width >= 1,
                self@.output_layer.len() == self.output_size,
                forall|q: int|
                    0 <= q < self.hidden_layers@.len() ==> (#[trigger] self@.hidden_layers[q]).len()
                        == width,
                forall|j: int|
                    0 <= j < width ==> (#[trigger] self@.hidden_layers[0][j]).weights.len()
                        == self.input_size,
                forall|q: int, j: int|
                    1 <= q < self.hidden_layers@.len() && 0 <= j < width ==> (
                    #[trigger] self@.hidden_layers[q][j]).weights.len() == width,
                forall|q: int|
                    0 <= q < t ==> (#[trigger] self@.output_layer[q]).weights.len() == width,
            decreases self.output_layer.neurons@.len() - t,
        {
            proof {
                assert(self@.output_layer[t as int] == self.output_layer.neurons@[t as int]@);
            }
            if self.output_layer.neurons[t].weights.len() != width {
                return false;
            }
            t = t + 1;
        }
        proof {
            assert(wf_model(self@));
        }
        true
    }

    /// One backward pass against the `sum`/`holded` values the immediately
    /// preceding forward pass on `input` stored: every bias and weight takes
    /// its gradient step, walking from the output layer towards the input.
    /// The propagated error for a layer is computed into an explicit buffer
    /// before that layer is touched, and is read from the downstream layer's
    /// weights after their own update.
    fn backpropagate(&mut self, input: &Vec<u64>, target: &Vec<u64>)
        requires
            wf_model(old(self)@),
            input@.len() == old(self)@.input_size,
            target@.len() == old(self)@.output_size,
        ensures
            final(self)@ == spec_backprop(old(self)@, input@, target@),
    {
        let ghost m = old(self)@;
        let last: usize = self.hidden_layers.len() - 1;
        proof {
            assert(m.hidden_layers[last as int] == self.hidden_layers@[last as int]@);
        }
        let prev_h: Vec<u64> = self.hidden_layers[last].holded_values();
        let errs: Vec<u64> = output_error_signals(&self.output_layer, target, &self.output_activation);
        proof {
            assert(errs@ =~= out_errs(m, target@));
        }
        let new_out = gradient_layer(&self.output_layer, &errs, &prev_h, self.learning_rate);
        self.output_layer = new_out;
        proof {
            assert(self.output_layer@ == bp_out_layer(m, target@));
        }

        let width: usize = self.hidden_layers[0].neurons.len();
        proof {
            assert(m.hidden_layers[0] == self.hidden_layers@[0]@);
            assert(width == layer_width(m));
        }
        let mut perr: Vec<u64> = column_dots(&self.output_layer, &errs, width);
        proof {
            assert(perr@ == bp_perr_into(m, input@, target@, m.hidden_layers.len() - 1));
        }

        let mut k: usize = self.hidden_layers.len();
        while k > 0
            invariant
                k <= m.hidden_layers.len(),
                wf_model(m),
                input@.len() == m.input_size,
                target@.len() == m.output_size,
                self.hidden_layers@.len() == m.hidden_layers.len(),
                self.activation == old(self).activation,
                self.output_activation == old(self).output_activation,
                self.learning_rate == old(self).learning_rate,
                self.input_size == old(self).input_size,
                self.output_size == old(self).output_size,
                m == old(self)@,
                width == layer_width(m),
                self.output_layer@ == bp_out_layer(m, target@),
                forall|i: int|
                    0 <= i < k ==> (#[trigger] self.hidden_layers@[i])@ == m.hidden_layers[i],
                forall|i: int|
                    k <= i < m.hidden_layers.len() ==> (#[trigger] self.hidden_layers@[i])@
                        == bp_layer(m, input@, target@, i),
                k > 0 ==> perr@ == bp_perr_into(m, input@, target@, k - 1),
            decreases k,
        {
            k = k - 1;
            proof {
                assert(m.hidden_layers[k as int] == self.hidden_layers@[k as int]@);
            }
            let herrs: Vec<u64> = hidden_error_signals(&self.hidden_layers[k], &perr, &self.activation);
            proof {
                assert(herrs@ =~= bp_errs(m, input@, target@, k as int));
            }
            let updated = if k == 0 {
                gradient_layer(&self.hidden_layers[k], &herrs, input, self.learning_rate)
            } else {
                proof {
                    assert(m.hidden_layers[k - 1] == self.hidden_layers@[k - 1]@);
                }
                let prev_vals: Vec<u64> = self.hidden_layers[k - 1].holded_values();
                gradient_layer(&self.hidden_layers[k], &herrs, &prev_vals, self.learning_rate)
            };
            self.hidden_layers.set(k, updated);
            proof {
                assert(self.hidden_layers@[k as int]@ == bp_layer(m, input@, target@, k as int));
            }
            if k > 0 {
                proof {
                    let lay = self.hidden_layers@[k as int]@;
                    assert forall|q: int| 0 <= q < lay.len() implies (
                    #[trigger] lay[q]).weights.len() == width by {
                        assert(lay[q] == updated_neuron(
                            m.hidden_layers[k as int][q],
                            bp_errs(m, input@, target@, k as int)[q],
                            stored_vals_into(m, input@, k as int),
                            m.learning_rate,
                        ));
                    }
                }
                perr = column_dots(&self.hidden_layers[k], &herrs, width);
                proof {
                    assert(perr@ == bp_perr_into(m, input@, target@, k - 1));
                }
            }
        }

        proof {
            assert(self@.hidden_layers =~= spec_backprop(m, input@, target@).hidden_layers);
            assert(self@ =~~= spec_backprop(m, input@, target@));
        }
    }

    /// One training step on the example `(input, predictions)`: a forward
    /// pass, then a backward pass that updates every weight and bias in
    /// place. Both vectors must match the configured sizes; a mismatch is a
    /// caller bug excluded by contract.
    pub fn train(&mut self, input: &Vec<u64>, predictions: &Vec<u64>)
        requires
            wf_model(old(self)@),
            input@.len() == old(self)@.input_size,
            predictions@.len() == old(self)@.output_size,
        ensures
            final(self)@ == spec_train(old(self)@, input@, predictions@),
            wf_model(final(self)@),
    {
        let ghost m = old(self)@;
        self.feed_forward(input);
        proof {
            lemma_feed_forward_wf(m, input@);
        }
        self.backpropagate(input, predictions);
        proof {
            lemma_backprop_wf(spec_feed_forward(m, input@), input@, predictions@);
        }
    }

    /// Trains on two equal-length parallel collections, example by example,
    /// in the given order: no shuffling, no batching.
    pub fn train_many(&mut self, inputs: &Vec<Vec<u64>>, predictions: &Vec<Vec<u64>>)
        requires
            wf_model(old(self)@),
            inputs@.len() == predictions@.len(),
            forall|i: int|
                0 <= i < inputs@.len() ==> (#[trigger] inputs@[i])@.len() == old(self)@.input_size,
            forall|i: int|
                0 <= i < predictions@.len() ==> (#[trigger] predictions@[i])@.len() == old(
                    self,
                )@.output_size,
        ensures
            final(self)@ == spec_train_many(
                old(self)@,
                inputs.deep_view(),
                predictions.deep_view(),
                inputs@.len() as int,
            ),
            wf_model(final(self)@),
    {
        let ghost m = old(self)@;
        let ghost dxs = inputs.deep_view();
        let ghost dts = predictions.deep_view();
        let mut i: usize = 0;
        while i < inputs.len()
            invariant
                i <= inputs@.len(),
                inputs@.len() == predictions@.len(),
                dxs == inputs.deep_view(),
                dts == predictions.deep_view(),
                forall|q: int|
                    0 <= q < inputs@.len() ==> (#[trigger] inputs@[q])@.len() == m.input_size,
                forall|q: int|
                    0 <= q < predictions@.len() ==> (#[trigger] predictions@[q])@.len()
                        == m.output_size,
                self@ == spec_train_many(m, dxs, dts, i as int),
                wf_model(self@),
                self@.input_size == m.input_size,
                self@.output_size == m.output_size,
            decreases inputs@.len() - i,
        {
            self.train(&inputs[i], &predictions[i]);
            proof {
                assert(dxs[i as int] =~= inputs@[i as int]@);
                assert(dts[i as int] =~= predictions@[i as int]@);
            }
            i = i + 1;
        }
    }
}

} // verus!
