use vstd::prelude::*;

use crate::config::CChain;

verus! {

/// A chain the screener works on.
#[derive(Debug, PartialEq, Eq, PartialOrd, Ord, Hash)]
pub struct Chain {
    pub id: u32,
    pub name: String,
    pub rpc_url: String,
}

/// A chain as plain values.
pub struct ChainView {
    pub id: u32,
    pub name: Seq<char>,
    pub rpc_url: Seq<char>,
}

impl View for Chain {
    type V = ChainView;

    open spec fn view(&self) -> ChainView {
        ChainView { id: self.id, name: self.name@, rpc_url: self.rpc_url@ }
    }
}

/// The chain that a configuration entry describes.
pub open spec fn chain_of_config(c: CChain) -> ChainView {
    ChainView { id: c.id, name: c.name@, rpc_url: c.rpc_url@ }
}

impl Chain {
    /// A copy with the same fields.
    pub fn duplicate(&self) -> (r: Chain)
        ensures
            r@ == self@,
    {
        Chain { id: self.id, name: self.name.clone(), rpc_url: self.rpc_url.clone() }
    }
}

/// The chains that the configuration lists, one for each entry, in order.
pub fn get_available_chains(chains_config: &Vec<CChain>) -> (chains: Vec<Chain>)
    ensures
        chains@.len() == chains_config@.len(),
        forall|i: int| 0 <= i < chains@.len() ==> #[trigger] chains@[i]@ == chain_of_config(chains_config@[i]),
{
    let mut chains: Vec<Chain> = Vec::new();
    let mut i: usize = 0;
    while i < chains_config.len()
        invariant
            i <= chains_config@.len(),
            chains@.len() == i,
            forall|k: int| 0 <= k < i ==> #[trigger] chains@[k]@ == chain_of_config(chains_config@[k]),
        decreases chains_config.len() - i,
    {
        let c = &chains_config[i];
        chains.push(Chain { id: c.id, name: c.name.clone(), rpc_url: c.rpc_url.clone() });
        i += 1;
    }
    chains
}

} // verus!
