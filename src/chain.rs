//! The target chains a fuzzing session can run against.
use vstd::prelude::*;

verus! {

/// A target chain, each with its own execution backend.
#[derive(Debug, Clone, Copy, PartialEq, Eq)]
pub enum Chain {
    Sui,
    Aptos,
}

impl Chain {
    /// Every chain a backend exists for, in a fixed order.
    pub fn supported_chains() -> (r: Vec<Chain>)
        ensures
            r@ == seq![Chain::Sui, Chain::Aptos],
    {
        let mut r: Vec<Chain> = Vec::new();
        r.push(Chain::Sui);
        r.push(Chain::Aptos);
        assert(r@ =~= seq![Chain::Sui, Chain::Aptos]);
        r
    }
}

} // verus!
