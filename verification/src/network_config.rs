//! The configuration a network is built from. All size fields must be
//! non-zero; `NeuralNetwork::new` requires that of its callers.

use vstd::prelude::*;

use crate::activation::Activation;

verus! {

/// Construction parameters of a network: the activation of the hidden stack,
/// a (possibly distinct) activation for the output layer, the four sizes, and
/// the learning rate (an IEEE 754 binary64 bit pattern, like every scalar).
pub struct NetworkConfig {
    pub activation: Activation,
    pub output_activation: Activation,
    pub layers_quantity: u16,
    pub layers_size: u16,
    pub input_size: u16,
    pub output_size: u16,
    pub learning_rate: u64,
}

} // verus!
