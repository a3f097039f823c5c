//! The Merkle tree over the encodings of a block's transactions.

use vstd::prelude::*;

use crate::crypto::{sha256, sha256_spec};
use crate::util::{append_bytes, copy_bytes};

verus! {

/// A node of a Merkle tree: a leaf holds the hash of a piece of data, an
/// inner node the hash of its children's hashes.
pub struct MerkleNode {
    pub left: Option<Box<MerkleNode>>,
    pub right: Option<Box<MerkleNode>>,
    pub data: Vec<u8>,
}

/// A Merkle tree, given by its root.
pub struct MerkleTree {
    pub root: MerkleNode,
}

pub struct MerkleNodeView {
    pub left: Option<Box<MerkleNodeView>>,
    pub right: Option<Box<MerkleNodeView>>,
    pub data: Seq<u8>,
}

pub open spec fn node_view(node: MerkleNode) -> MerkleNodeView
    decreases node,
{
    MerkleNodeView {
        left: match node.left {
            Some(l) => Some(Box::new(node_view(*l))),
            None => None,
        },
        right: match node.right {
            Some(r) => Some(Box::new(node_view(*r))),
            None => None,
        },
        data: node.data@,
    }
}

impl View for MerkleNode {
    type V = MerkleNodeView;

    open spec fn view(&self) -> MerkleNodeView {
        node_view(*self)
    }
}

/// The view of an optional child.
pub open spec fn child_view(child: Option<Box<MerkleNode>>) -> Option<Box<MerkleNodeView>> {
    match child {
        Some(c) => Some(Box::new(node_view(*c))),
        None => None,
    }
}

/// A leaf over `data`.
pub open spec fn leaf_spec(data: Seq<u8>) -> MerkleNodeView {
    MerkleNodeView { left: None, right: None, data: sha256_spec(data) }
}

/// An inner node over two children.
pub open spec fn branch_spec(left: MerkleNodeView, right: MerkleNodeView) -> MerkleNodeView {
    MerkleNodeView {
        left: Some(Box::new(left)),
        right: Some(Box::new(right)),
        data: sha256_spec(left.data + right.data),
    }
}

/// The data padded to an even number of items by repeating the last one.
pub open spec fn padded(data: Seq<Seq<u8>>) -> Seq<Seq<u8>> {
    if data.len() % 2 != 0 {
        data.push(data.last())
    } else {
        data
    }
}

/// A level of the tree padded to an even number of nodes by repeating its
/// last node.
pub open spec fn pad_level(level: Seq<MerkleNodeView>) -> Seq<MerkleNodeView> {
    if level.len() % 2 != 0 {
        level.push(level.last())
    } else {
        level
    }
}

/// The level above: the branches over consecutive pairs of the padded level.
pub open spec fn next_level(level: Seq<MerkleNodeView>) -> Seq<MerkleNodeView> {
    let p = pad_level(level);
    Seq::new(p.len() / 2, |j: int| branch_spec(p[2 * j], p[2 * j + 1]))
}

/// The root over a level: the level's only node, or the root over the level
/// above.
pub open spec fn level_root(level: Seq<MerkleNodeView>) -> MerkleNodeView
    decreases level.len(),
{
    if level.len() <= 1 {
        level[0]
    } else {
        proof {
            assert(next_level(level).len() < level.len());
        }
        level_root(next_level(level))
    }
}

/// The leaves over the (padded) data.
pub open spec fn leaves_spec(data: Seq<Seq<u8>>) -> Seq<MerkleNodeView> {
    padded(data).map_values(|d: Seq<u8>| leaf_spec(d))
}

/// The tree that `MerkleTree::new` builds: the data is padded to an even
/// number of items, each item becomes a leaf, and levels of branches over
/// pairs (each level padded in the same way) are built until one node is
/// left.
pub open spec fn merkle_root_spec(data: Seq<Seq<u8>>) -> MerkleNodeView {
    level_root(leaves_spec(data))
}

/// The views of a vector of nodes.
pub open spec fn nodes_view(nodes: Seq<MerkleNode>) -> Seq<MerkleNodeView> {
    nodes.map_values(|n: MerkleNode| n@)
}

impl MerkleNode {
    /// A leaf when both children are absent (hashing `data`), otherwise an
    /// inner node hashing the concatenated data of its children.
    pub fn new(left: Option<Box<MerkleNode>>, right: Option<Box<MerkleNode>>, data: &Vec<u8>) -> (node: Self)
        requires
            left is None <==> right is None,
        ensures
            node@.left == child_view(left),
            node@.right == child_view(right),
            left is None ==> node@.data == sha256_spec(data@),
            left matches Some(l) ==> node@.data == sha256_spec(l.data@ + right.unwrap().data@),
    {
        let hash: Vec<u8>;
        if left.is_none() && right.is_none() {
            hash = sha256(data.as_slice());
        } else {
            let mut prev_hashes: Vec<u8> = Vec::new();
            let left_data = copy_bytes(left.as_ref().unwrap().data.as_slice());
            let right_data = copy_bytes(right.as_ref().unwrap().data.as_slice());
            append_bytes(&mut prev_hashes, left_data.as_slice());
            append_bytes(&mut prev_hashes, right_data.as_slice());
            hash = sha256(prev_hashes.as_slice());
        }
        MerkleNode { left, right, data: hash }
    }

    /// A copy of the subtree.
    pub fn duplicate(&self) -> (copy: Self)
        ensures
            copy@ == self@,
        decreases self,
    {
        let left = match &self.left {
            Some(l) => Some(Box::new(l.duplicate())),
            None => None,
        };
        let right = match &self.right {
            Some(r) => Some(Box::new(r.duplicate())),
            None => None,
        };
        MerkleNode { left, right, data: copy_bytes(self.data.as_slice()) }
    }
}

impl MerkleTree {
    /// The tree over one or more pieces of data (see `merkle_root_spec`); a
    /// single piece is paired with itself.
    pub fn new(data: Vec<Vec<u8>>) -> (tree: Self)
        requires
            1 <= data@.len(),
        ensures
            tree.root@ == merkle_root_spec(data@.map_values(|d: Vec<u8>| d@)),
    {
        let ghost views = data@.map_values(|d: Vec<u8>| d@);
        let mut data = data;
        let mut nodes: Vec<MerkleNode> = Vec::new();
        if data.len() % 2 != 0 {
            let last_transaction = copy_bytes(data[data.len() - 1].as_slice());
            data.push(last_transaction);
        }
        let ghost d = padded(views);
        assert(data@.map_values(|x: Vec<u8>| x@) =~= d);
        let mut i: usize = 0;
        while i < data.len()
            invariant
                i <= data@.len() == d.len(),
                d == data@.map_values(|x: Vec<u8>| x@),
                nodes@.len() == i,
                forall|j: int| 0 <= j < i ==> (#[trigger] nodes@[j])@ == leaf_spec(d[j]),
            decreases data@.len() - i,
        {
            let node = MerkleNode::new(None, None, &data[i]);
            nodes.push(node);
            i = i + 1;
        }
        let ghost target = merkle_root_spec(views);
        assert(nodes_view(nodes@) =~= leaves_spec(views));
        while nodes.len() > 1
            invariant
                nodes@.len() >= 1,
                level_root(nodes_view(nodes@)) == target,
            decreases nodes@.len(),
        {
            let ghost level = nodes_view(nodes@);
            if nodes.len() % 2 != 0 {
                let last = nodes[nodes.len() - 1].duplicate();
                nodes.push(last);
            }
            let ghost p = nodes_view(nodes@);
            assert(p =~= pad_level(level));
            let mut above: Vec<MerkleNode> = Vec::new();
            let mut j: usize = 0;
            while j < nodes.len()
                invariant
                    p == nodes_view(nodes@),
                    p.len() % 2 == 0,
                    j % 2 == 0,
                    j <= p.len(),
                    above@.len() * 2 == j,
                    forall|k: int| 0 <= k < above@.len() ==> (#[trigger] above@[k])@ == branch_spec(p[2 * k], p[2 * k + 1]),
                decreases p.len() - j,
            {
                let left = nodes[j].duplicate();
                let right = nodes[j + 1].duplicate();
                let ghost lv = left@;
                let ghost rv = right@;
                assert(lv == p[j as int] && rv == p[j + 1]);
                let node = MerkleNode::new(Some(Box::new(left)), Some(Box::new(right)), &Vec::new());
                assert(node@ =~= branch_spec(lv, rv));
                above.push(node);
                j = j + 2;
            }
            assert(nodes_view(above@) =~= next_level(level));
            nodes = above;
        }
        MerkleTree { root: nodes[0].duplicate() }
    }
}

/// A single piece of data is paired with itself: the tree over `[d]` is
/// the tree over `[d, d]`.
pub proof fn lemma_single_item_paired_with_itself(d: Seq<u8>)
    ensures
        merkle_root_spec(seq![d]) == merkle_root_spec(seq![d, d]),
{
    assert(padded(seq![d]) =~= seq![d, d]);
    assert(padded(seq![d, d]) =~= seq![d, d]);
}

} // verus!
