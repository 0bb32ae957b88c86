//! Where the device heap places the weights and the tensors of a program.
use vstd::prelude::*;

verus! {

/// The size of the device heap and the offsets of the weights and the tensors in it.
#[derive(Clone, Copy, PartialEq, Eq, Debug, Hash, Structural)]
pub struct Placement {
    heap: u64,
    weights: u64,
    tensors: u64,
}

impl Placement {
    pub closed spec fn heap_spec(self) -> nat {
        self.heap as nat
    }

    pub closed spec fn weights_spec(self) -> nat {
        self.weights as nat
    }

    pub closed spec fn tensors_spec(self) -> nat {
        self.tensors as nat
    }

    pub fn new(heap: u64, weights: u64, tensors: u64) -> (r: Placement)
        ensures
            r.heap_spec() == heap,
            r.weights_spec() == weights,
            r.tensors_spec() == tensors,
    {
        Placement { heap, weights, tensors }
    }

    pub fn heap(self) -> (r: u64)
        ensures
            r == self.heap_spec(),
    {
        self.heap
    }

    pub fn weights(self) -> (r: u64)
        ensures
            r == self.weights_spec(),
    {
        self.weights
    }

    pub fn tensors(self) -> (r: u64)
        ensures
            r == self.tensors_spec(),
    {
        self.tensors
    }
}

} // verus!
