//! The shared read view over the two kinds of value source a layer can
//! consume: the raw input vector, or the activated outputs of the preceding
//! dense layer. A tagged variant, never mutated through this view.

use vstd::prelude::*;

use crate::dense_layer::DenseLayer;
use crate::dense_layer::holded_seq;

verus! {

/// What a forward step reads its inputs from.
pub enum Layer<'a> {
    DenseLayer(&'a DenseLayer),
    InputLayer(&'a Vec<u64>),
}

impl<'a> Layer<'a> {
    /// The ordered values this source presents: the raw input entries, or the
    /// `holded` value of each neuron of the dense layer, in neuron order.
    pub open spec fn values(&self) -> Seq<u64> {
        match *self {
            Layer::DenseLayer(layer) => holded_seq(layer@),
            Layer::InputLayer(input) => input@,
        }
    }

    /// The value at position `i` of this source.
    pub fn value_at(&self, i: usize) -> (r: u64)
        requires
            i < self.values().len(),
        ensures
            r == self.values()[i as int],
    {
        match self {
            Layer::DenseLayer(layer) => layer.neurons[i].holded,
            Layer::InputLayer(input) => input[i],
        }
    }

    /// All values this source presents, as a fresh vector.
    pub fn get_values(&self) -> (r: Vec<u64>)
        ensures
            r@ == self.values(),
    {
        match self {
            Layer::DenseLayer(layer) => layer.holded_values(),
            Layer::InputLayer(input) => {
                let mut values: Vec<u64> = Vec::new();
                let mut i: usize = 0;
                while i < input.len()
                    invariant
                        i <= input@.len(),
                        values@ =~= input@.subrange(0, i as int),
                    decreases input@.len() - i,
                {
                    values.push(input[i]);
                    i = i + 1;
                }
                proof {
                    assert(values@ =~= input@);
                }
                values
            },
        }
    }
}

} // verus!
