//! A single neuron: its bias, its incoming weights, and the scratch values
//! (`sum`, `holded`) written by the most recent forward pass.

use vstd::prelude::*;

use crate::layer::Layer;
use crate::random::next_u64;
use crate::scalar::B_ONE;
use crate::scalar::B_TWO;
use crate::scalar::B_ZERO;
use crate::scalar::add_bits;
use crate::scalar::div_bits;
use crate::scalar::fadd;
use crate::scalar::fmul;
use crate::scalar::from_u16_bits;
use crate::scalar::mul_bits;
use crate::scalar::sqrt_bits;
use crate::scalar::sub_bits;

verus! {

/// A neuron as the contracts see it: the `Vec` of weights becomes a `Seq`.
#[verifier::ext_equal]
pub ghost struct NeuronModel {
    pub holded: u64,
    pub bias: u64,
    pub sum: u64,
    pub weights: Seq<u64>,
}

/// One unit of a dense layer. `weights` has one entry per neuron of the
/// preceding layer (the fan-in) and its length never changes after
/// construction. `sum` is the last pre-activation value and `holded` the last
/// activated value; both are scratch state valid only right after the most
/// recent forward pass.
pub struct Neuron {
    pub holded: u64,
    pub bias: u64,
    pub sum: u64,
    pub weights: Vec<u64>,
}

impl View for Neuron {
    type V = NeuronModel;

    open spec fn view(&self) -> NeuronModel {
        NeuronModel { holded: self.holded, bias: self.bias, sum: self.sum, weights: self.weights@ }
    }
}

/// The pre-activation sum over the first `n` weight/input pairs:
/// `bias + xs[0]*ws[0] + ... + xs[n-1]*ws[n-1]`, folded left in index order.
pub open spec fn wsum_prefix(bias: u64, ws: Seq<u64>, xs: Seq<u64>, n: int) -> u64
    decreases n,
{
    if n <= 0 {
        bias
    } else {
        fadd(wsum_prefix(bias, ws, xs, n - 1), fmul(xs[n - 1], ws[n - 1]))
    }
}

/// The full pre-activation sum of a neuron with bias `bias` and weights `ws`
/// against the input values `xs`.
pub open spec fn wsum(bias: u64, ws: Seq<u64>, xs: Seq<u64>) -> u64 {
    wsum_prefix(bias, ws, xs, ws.len() as int)
}

impl Neuron {
    /// A fresh neuron with `weights_size` weights. The bias and every weight
    /// are drawn from `[-limit, limit]` where `limit = sqrt(1 / sqrt(fan-in))`;
    /// the draws come from the passed generator, so nothing is promised of
    /// their values beyond the shape stated here.
    pub fn new(weights_size: u16, rng: &mut rand::rngs::StdRng) -> (r: Neuron)
        ensures
            r.weights@.len() == weights_size,
            r.sum == B_ZERO,
            r.holded == B_ZERO,
    {
        let limit: u64 = sqrt_bits(div_bits(B_ONE, sqrt_bits(from_u16_bits(weights_size))));
        let mut weights: Vec<u64> = Vec::new();
        let mut i: u16 = 0;
        while i < weights_size
            invariant
                i <= weights_size,
                weights@.len() == i,
            decreases weights_size - i,
        {
            let w: u64 = uniform_symmetric(rng, limit);
            weights.push(w);
            i = i + 1;
        }

        let holded: u64 = B_ZERO;
        let bias: u64 = uniform_symmetric(rng, limit);
        let sum: u64 = B_ZERO;

        Neuron { holded, bias, sum, weights }
    }

    /// The pre-activation sum of this neuron against the values the given
    /// layer presents: `bias + value_0 * weight_0 + ...` in index order.
    pub fn compute_sum(&self, layer: &Layer) -> (r: u64)
        requires
            layer.values().len() == self.weights@.len(),
        ensures
            r == wsum(self.bias, self.weights@, layer.values()),
    {
        let mut sum: u64 = self.bias;
        let mut i: usize = 0;
        while i < self.weights.len()
            invariant
                i <= self.weights@.len(),
                layer.values().len() == self.weights@.len(),
                sum == wsum_prefix(self.bias, self.weights@, layer.values(), i as int),
            decreases self.weights@.len() - i,
        {
            sum = add_bits(sum, mul_bits(layer.value_at(i), self.weights[i]));
            i = i + 1;
        }
        sum
    }
}

/// A value in `[-limit, limit]`: the high 52 bits of one draw become the
/// fraction of a value in `[1, 2)`, shifted to `[0, 1)` and scaled.
fn uniform_symmetric(rng: &mut rand::rngs::StdRng, limit: u64) -> u64 {
    let u: u64 = next_u64(rng);
    let frac_bits: u64 = (u & 0x000FFFFFFFFFFFFF) | 0x3FF0000000000000;
    let frac: u64 = sub_bits(frac_bits, B_ONE);
    sub_bits(mul_bits(frac, mul_bits(B_TWO, limit)), limit)
}

} // verus!
