//! A minimal multilayer perceptron: a stack of fully connected layers with
//! pointwise activations, trained by per-example stochastic gradient descent
//! with backpropagation, and persisted as a self-describing byte blob.
//!
//! Every scalar is the bit pattern of an IEEE 754 binary64 value, carried in
//! a `u64`; see the `scalar` module.

use vstd::prelude::*;

pub mod activation;
pub mod codec;
pub mod dense_layer;
pub mod layer;
pub mod network_config;
pub mod neural_network;
pub mod neuron;
pub mod random;
pub mod scalar;

verus! {

/// The index of the first maximum of `s`, under the strict IEEE ordering,
/// as the left-to-right scan of `max_index` finds it.
pub open spec fn spec_max_index(s: Seq<u64>, n: int) -> int
    decreases n,
{
    if n <= 1 {
        0
    } else {
        let p = spec_max_index(s, n - 1);
        if crate::scalar::fgt(s[n - 1], s[p]) {
            n - 1
        } else {
            p
        }
    }
}

/// The position of the largest entry of a prediction vector: the index of its
/// first maximum under the IEEE ordering.
pub fn max_index(vector: &Vec<u64>) -> (r: usize)
    requires
        vector@.len() >= 1,
    ensures
        r == spec_max_index(vector@, vector@.len() as int),
        r < vector@.len(),
{
    let mut max_index: usize = 0;
    let mut max_value: u64 = vector[0];
    let mut i: usize = 1;
    while i < vector.len()
        invariant
            1 <= i <= vector@.len(),
            max_index == spec_max_index(vector@, i as int),
            max_index < i,
            max_value == vector@[max_index as int],
        decreases vector@.len() - i,
    {
        if crate::scalar::gt_bits(vector[i], max_value) {
            max_index = i;
            max_value = vector[i];
        }
        i = i + 1;
    }
    max_index
}

} // verus!
