//! Network layer geometry: an ordered list of layer sizes and the total
//! neuron count they add up to.

use vstd::prelude::*;

verus! {

/// The sum of all layer sizes.
pub open spec fn layer_sum(layers: Seq<usize>) -> int
    decreases layers.len(),
{
    if layers.len() == 0 {
        0
    } else {
        layer_sum(layers.drop_last()) + layers.last()
    }
}

/// A partial sum of non-negative sizes never exceeds the whole sum.
proof fn lemma_layer_sum_prefix_le(layers: Seq<usize>, i: int)
    requires
        0 <= i <= layers.len(),
    ensures
        layer_sum(layers.take(i)) <= layer_sum(layers),
    decreases layers.len() - i,
{
    if i == layers.len() {
        assert(layers.take(i) =~= layers);
    } else {
        lemma_layer_sum_prefix_le(layers, i + 1);
        assert(layers.take(i + 1).drop_last() =~= layers.take(i));
    }
}

/// The shape of a layered network: each layer's size, and the total number of
/// neurons across all layers.
#[derive(Clone, Debug)]
pub struct Geometry {
    layers_geometry: Vec<usize>,
    num_neurons: usize,
}

impl Geometry {
    /// The layer sizes, in order.
    pub closed spec fn layers_spec(&self) -> Seq<usize> {
        self.layers_geometry@
    }

    /// The stored total neuron count.
    pub closed spec fn neurons_spec(&self) -> int {
        self.num_neurons as int
    }

    /// Builds a geometry from its layer sizes; the neuron count is their sum.
    pub fn new(layers: Vec<usize>) -> (g: Geometry)
        requires
            layer_sum(layers@) <= usize::MAX,
        ensures
            g.layers_spec() == layers@,
            g.neurons_spec() == layer_sum(layers@),
    {
        let n = layers.len();
        let mut total: usize = 0;
        let mut i: usize = 0;
        while i < n
            invariant
                i <= n,
                n == layers@.len(),
                total == layer_sum(layers@.take(i as int)),
                layer_sum(layers@) <= usize::MAX,
            decreases n - i,
        {
            proof {
                assert(layers@.take(i + 1).drop_last() =~= layers@.take(i as int));
                assert(layers@.take(i + 1).last() == layers@[i as int]);
                lemma_layer_sum_prefix_le(layers@, i + 1);
            }
            total = total + layers[i];
            i += 1;
        }
        proof {
            assert(layers@.take(n as int) =~= layers@);
        }
        Geometry { layers_geometry: layers, num_neurons: total }
    }

    /// The total number of neurons across all layers.
    pub fn num_neurons(&self) -> (r: usize)
        ensures
            r == self.neurons_spec(),
    {
        self.num_neurons
    }

    /// The layer sizes, in order.
    pub fn layers(&self) -> (r: &Vec<usize>)
        ensures
            r@ == self.layers_spec(),
    {
        &self.layers_geometry
    }
}

} // verus!
