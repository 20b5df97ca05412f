//! A dense (fully connected) layer: an ordered collection of neurons that all
//! share the same fan-in.

use vstd::prelude::*;

use crate::neuron::Neuron;
use crate::neuron::NeuronModel;
use crate::scalar::B_ZERO;

verus! {

/// A fully connected layer.
pub struct DenseLayer {
    pub neurons: Vec<Neuron>,
}

impl View for DenseLayer {
    type V = Seq<NeuronModel>;

    open spec fn view(&self) -> Seq<NeuronModel> {
        self.neurons@.map_values(|n: Neuron| n@)
    }
}

/// The activated output of every neuron of a layer, in neuron order.
pub open spec fn holded_seq(layer: Seq<NeuronModel>) -> Seq<u64> {
    layer.map_values(|n: NeuronModel| n.holded)
}

impl DenseLayer {
    /// A fresh layer of `size` neurons, each with fan-in `sibling_size` and
    /// randomly drawn weights and bias.
    pub fn new(size: u16, sibling_size: u16, rng: &mut rand::rngs::StdRng) -> (r: DenseLayer)
        ensures
            r@.len() == size,
            forall|j: int|
                0 <= j < size ==> {
                    &&& (#[trigger] r@[j]).weights.len() == sibling_size
                    &&& r@[j].sum == B_ZERO
                    &&& r@[j].holded == B_ZERO
                },
    {
        let mut neurons: Vec<Neuron> = Vec::new();
        let mut i: u16 = 0;
        while i < size
            invariant
                i <= size,
                neurons@.len() == i,
                forall|j: int|
                    0 <= j < i ==> {
                        &&& (#[trigger] neurons@[j])@.weights.len() == sibling_size
                        &&& neurons@[j]@.sum == B_ZERO
                        &&& neurons@[j]@.holded == B_ZERO
                    },
            decreases size - i,
        {
            let n = Neuron::new(sibling_size, rng);
            neurons.push(n);
            i = i + 1;
        }

        let r = DenseLayer { neurons };
        proof {
            assert forall|j: int| 0 <= j < size implies {
                &&& (#[trigger] r@[j]).weights.len() == sibling_size
                &&& r@[j].sum == B_ZERO
                &&& r@[j].holded == B_ZERO
            } by {
                assert(r@[j] == r.neurons@[j]@);
            }
        }
        r
    }

    /// The activated output of every neuron, in neuron order.
    pub fn holded_values(&self) -> (r: Vec<u64>)
        ensures
            r@ == holded_seq(self@),
    {
        let mut values: Vec<u64> = Vec::new();
        let mut i: usize = 0;
        while i < self.neurons.len()
            invariant
                i <= self.neurons@.len(),
                values@.len() == i,
                forall|j: int| 0 <= j < i ==> values@[j] == (#[trigger] self.neurons@[j])@.holded,
            decreases self.neurons@.len() - i,
        {
            values.push(self.neurons[i].holded);
            i = i + 1;
        }
        proof {
            assert(values@ =~= holded_seq(self@));
        }
        values
    }
}

} // verus!
