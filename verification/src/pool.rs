//! How a pooling window folds the numbers it covers.
use vstd::prelude::*;

verus! {

/// How a pooling window folds the numbers it covers.
#[derive(Clone, Copy, PartialEq, Eq, Debug, Hash, Structural)]
pub enum Pool {
    Max,
    Mean,
}

pub open spec fn pool_name(p: Pool) -> Seq<char> {
    match p {
        Pool::Max => "max"@,
        Pool::Mean => "mean"@,
    }
}

impl Pool {
    pub fn name(self) -> (r: &'static str)
        ensures
            r@ == pool_name(self),
    {
        match self {
            Pool::Max => "max",
            Pool::Mean => "mean",
        }
    }
}

} // verus!
