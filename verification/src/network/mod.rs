//! The network layer: nodes and the network that holds them.

pub mod node;

use vstd::prelude::*;

use crate::network::node::{Node, NodeView};

verus! {

/// The nodes of a simulated network.
pub struct Network {
    nodes: Vec<Node>,
}

impl View for Network {
    type V = Seq<NodeView>;

    closed spec fn view(&self) -> Seq<NodeView> {
        self.nodes@.map_values(|n: Node| n@)
    }
}

impl Network {
    /// A network without nodes.
    pub fn new() -> (network: Self)
        ensures
            network@ == Seq::<NodeView>::empty(),
    {
        let network = Network { nodes: Vec::new() };
        assert(network@ =~= Seq::<NodeView>::empty());
        network
    }

    /// Adds a node to the network.
    pub fn add_node(&mut self, node: Node)
        ensures
            final(self)@ == old(self)@.push(node@),
    {
        let ghost added = node@;
        self.nodes.push(node);
        assert(self@ =~= old(self)@.push(added));
    }
}

} // verus!
