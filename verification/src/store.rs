//! The device stores a value lives in.
use vstd::prelude::*;

verus! {

pub const TENSORS: u32 = 0;
pub const WEIGHTS: u32 = 1;

/// The device store a value lives in.
#[derive(Clone, Copy, PartialEq, Eq, Debug, Hash, Structural)]
pub enum Store {
    Tensors,
    Weights,
}

pub open spec fn store_code(s: Store) -> nat {
    match s {
        Store::Tensors => 0,
        Store::Weights => 1,
    }
}

impl Store {
    /// Every store, in the order of its code.
    pub fn all() -> (r: Vec<Store>)
        ensures
            r@ == seq![Store::Tensors, Store::Weights],
    {
        vec![Store::Tensors, Store::Weights]
    }

    pub fn code(self) -> (r: u32)
        ensures
            r == store_code(self),
    {
        match self {
            Store::Tensors => TENSORS,
            Store::Weights => WEIGHTS,
        }
    }
}

} // verus!
