//! Saved records under a Merkle root: a hash tree over the records, and the
//! layout of a save file that carries the tree's root.
//!
//! ```text
//! [count: u32 little-endian] [root_len: u32 little-endian] [root hash]
//! [records: count times the record size]
//! ```

use crate::endian::{push_u32_le, read_u32_le, u32_le_at, u32_le_bytes};
use crate::foreign::{sha256, sha256_digest};
use vstd::prelude::*;

verus! {

/// A node of a hash tree: a leaf with its block, or an inner node with the
/// joined hashes of its two children and the children.
#[derive(Debug)]
pub enum MerkleNode {
    Leaf(Vec<u8>),
    Internal(Vec<u8>, Box<MerkleNode>, Box<MerkleNode>),
}

/// A [`MerkleNode`] as a value of specifications.
pub enum MerkleView {
    Leaf(Seq<u8>),
    Internal(Seq<u8>, Box<MerkleView>, Box<MerkleView>),
}

impl MerkleView {
    /// The hash of the node: of a leaf, the digest of its block; of an
    /// inner node, the digest of its children's hashes, joined.
    pub open spec fn hash(self) -> Seq<u8>
        decreases self,
    {
        match self {
            MerkleView::Leaf(data) => sha256(data),
            MerkleView::Internal(_, left, right) => sha256(left.hash() + right.hash()),
        }
    }
}

/// The leaves of a list of blocks.
pub open spec fn leaves(blocks: Seq<Seq<u8>>) -> Seq<MerkleView> {
    Seq::new(blocks.len(), |i: int| MerkleView::Leaf(blocks[i]))
}

/// The inner node over two nodes.
pub open spec fn join(left: MerkleView, right: MerkleView) -> MerkleView {
    MerkleView::Internal(left.hash() + right.hash(), Box::new(left), Box::new(right))
}

/// The next level of a tree: the nodes joined in pairs, the last one with
/// itself where their number is odd.
pub open spec fn pair_up(nodes: Seq<MerkleView>) -> Seq<MerkleView> {
    Seq::new(
        ((nodes.len() + 1) / 2) as nat,
        |k: int|
            join(
                nodes[2 * k],
                if 2 * k + 1 < nodes.len() {
                    nodes[2 * k + 1]
                } else {
                    nodes[2 * k]
                },
            ),
    )
}

/// The root of the tree over a level of nodes, or `None` for no nodes.
pub open spec fn root_of(nodes: Seq<MerkleView>) -> Option<MerkleView>
    decreases nodes.len(),
{
    if nodes.len() == 0 {
        None
    } else if nodes.len() == 1 {
        Some(nodes[0])
    } else {
        root_of(pair_up(nodes))
    }
}

/// The views of a list of byte vectors.
pub open spec fn blocks_view(blocks: Seq<Vec<u8>>) -> Seq<Seq<u8>> {
    Seq::new(blocks.len(), |i: int| blocks[i]@)
}

/// The views of a list of nodes.
pub open spec fn nodes_view(nodes: Seq<MerkleNode>) -> Seq<MerkleView> {
    Seq::new(nodes.len(), |i: int| nodes[i].view())
}

impl MerkleNode {
    /// The node as a value of specifications.
    pub open spec fn view(&self) -> MerkleView
        decreases self,
    {
        match self {
            MerkleNode::Leaf(data) => MerkleView::Leaf(data@),
            MerkleNode::Internal(joined, left, right) => MerkleView::Internal(
                joined@,
                Box::new(left.view()),
                Box::new(right.view()),
            ),
        }
    }

    /// Creates a leaf over a block.
    pub fn new_leaf(data: Vec<u8>) -> (r: Self)
        ensures
            r.view() == MerkleView::Leaf(data@),
    {
        MerkleNode::Leaf(data)
    }

    /// Computes the hash of the node.
    pub fn hash(&self) -> (r: Vec<u8>)
        ensures
            r@ == self.view().hash(),
            r@.len() == 32,
        decreases self,
    {
        match self {
            MerkleNode::Leaf(data) => sha256_digest(data.as_slice()),
            MerkleNode::Internal(_, left, right) => {
                let mut combined = left.hash();
                let right_hash = right.hash();
                let ghost before = combined@;
                combined.extend_from_slice(right_hash.as_slice());
                assert(combined@ =~= before + right_hash@);
                sha256_digest(combined.as_slice())
            },
        }
    }

    /// Returns a copy of the node and all below it.
    pub fn duplicate(&self) -> (r: Self)
        ensures
            r.view() == self.view(),
        decreases self,
    {
        match self {
            MerkleNode::Leaf(data) => MerkleNode::Leaf(data.clone()),
            MerkleNode::Internal(joined, left, right) => MerkleNode::Internal(
                joined.clone(),
                Box::new(left.duplicate()),
                Box::new(right.duplicate()),
            ),
        }
    }
}

/// Builds the hash tree over a list of blocks: a leaf for each block, and
/// level upon level of pairs until one node is left. `None` for no blocks.
pub fn build_merkle_tree(blocks: &[Vec<u8>]) -> (r: Option<MerkleNode>)
    ensures
        match root_of(leaves(blocks_view(blocks@))) {
            Some(root) => r is Some && r.unwrap().view() == root,
            None => r is None,
        },
{
    if blocks.len() == 0 {
        return None;
    }
    let mut nodes: Vec<MerkleNode> = Vec::new();
    let mut i: usize = 0;
    while i < blocks.len()
        invariant
            i <= blocks@.len(),
            nodes@.len() == i,
            forall|k: int|
                0 <= k < i ==> (#[trigger] nodes@[k]).view() == MerkleView::Leaf(blocks@[k]@),
        decreases blocks@.len() - i,
    {
        nodes.push(MerkleNode::new_leaf(blocks[i].clone()));
        i += 1;
    }
    assert(nodes_view(nodes@) =~= leaves(blocks_view(blocks@)));
    while nodes.len() > 1
        invariant
            nodes@.len() >= 1,
            root_of(nodes_view(nodes@)) == root_of(leaves(blocks_view(blocks@))),
        decreases nodes@.len(),
    {
        let mut next_level: Vec<MerkleNode> = Vec::new();
        let len = nodes.len();
        let mut i: usize = 0;
        while i < len
            invariant
                len == nodes@.len(),
                len >= 2,
                i <= len,
                i == 2 * next_level@.len() || (i == len && 2 * next_level@.len() == len + 1),
                forall|j: int|
                    0 <= j < next_level@.len() ==> (#[trigger] next_level@[j]).view() == pair_up(
                        nodes_view(nodes@),
                    )[j],
            decreases len - i,
        {
            let left = nodes[i].duplicate();
            let right = if len - i >= 2 {
                nodes[i + 1].duplicate()
            } else {
                nodes[i].duplicate()
            };
            let mut combined_hash = left.hash();
            let right_hash = right.hash();
            let ghost before = combined_hash@;
            combined_hash.extend_from_slice(right_hash.as_slice());
            assert(combined_hash@ =~= before + right_hash@);
            next_level.push(MerkleNode::Internal(combined_hash, Box::new(left), Box::new(right)));
            i = if len - i >= 2 {
                i + 2
            } else {
                len
            };
        }
        assert(nodes_view(next_level@) =~= pair_up(nodes_view(nodes@)));
        nodes = next_level;
    }
    nodes.pop()
}

/// Why the bytes of a save file are refused.
#[derive(Debug, PartialEq, Eq, Structural)]
pub enum SaveError {
    /// The file ends before what it announces does.
    UnexpectedEof,
    /// The file holds no record, so that there is no root to check.
    Empty,
    /// The records do not hash to the root that the file carries.
    RootMismatch,
}

/// The `count` records of `size` bytes each that stand one after the other
/// from byte `start` of `data` on.
pub open spec fn records_at(data: Seq<u8>, start: int, size: nat, count: nat) -> Seq<Seq<u8>> {
    Seq::new(count, |i: int| data.subrange(start + i * size, start + i * size + size))
}

/// The bytes of the save file of some records, given whole as `records`,
/// of `size` bytes each: their number (cut down to 32 bits), the length of
/// the root hash and the root hash of the tree over them, and the records.
/// `None` where there is no whole record.
pub open spec fn save_bytes(records: Seq<u8>, size: nat) -> Option<Seq<u8>> {
    match root_of(leaves(records_at(records, 0, size, records.len() / size))) {
        Some(root) => Some(
            u32_le_bytes((records.len() / size) as u32) + u32_le_bytes(32) + root.hash()
                + records,
        ),
        None => None,
    }
}

fn split_records(data: &[u8], start: usize, size: usize, count: usize) -> (r: Vec<Vec<u8>>)
    requires
        size > 0,
        start + count * size <= data@.len(),
    ensures
        blocks_view(r@) == records_at(data@, start as int, size as nat, count as nat),
{
    let mut blocks: Vec<Vec<u8>> = Vec::new();
    let len = data.len();
    let mut i: usize = 0;
    while i < count
        invariant
            i <= count,
            size > 0,
            len == data@.len(),
            start + count * size <= data@.len(),
            blocks@.len() == i,
            forall|k: int|
                0 <= k < i ==> (#[trigger] blocks@[k])@ == data@.subrange(
                    start + k * size,
                    start + k * size + size,
                ),
        decreases count - i,
    {
        proof {
            assert(0 <= i * size && i * size + size <= count * size) by (nonlinear_arith)
                requires
                    0 <= i < count,
                    size > 0,
            ;
        }
        let at = start + i * size;
        blocks.push(vstd::slice::slice_to_vec(vstd::slice::slice_subrange(data, at, at + size)));
        i += 1;
    }
    assert(blocks_view(blocks@) =~= records_at(data@, start as int, size as nat, count as nat));
    blocks
}

/// Writes some records of `size` bytes each, given whole as `records`, as
/// the bytes of a save file. There must be at least one whole record.
pub fn save_game(records: &[u8], size: usize) -> (r: Vec<u8>)
    requires
        size > 0,
        records@.len() >= size,
        records@.len() % (size as nat) == 0,
    ensures
        Some(r@) == save_bytes(records@, size as nat),
{
    let count = records.len() / size;
    proof {
        assert(count * size == records@.len()) by (nonlinear_arith)
            requires
                count == records@.len() / (size as nat),
                records@.len() % (size as nat) == 0,
                size > 0,
        ;
        assert(count >= 1) by (nonlinear_arith)
            requires
                count * size == records@.len(),
                records@.len() >= size,
                size > 0,
        ;
    }
    let blocks = split_records(records, 0, size, count);
    let root_hash = match build_merkle_tree(blocks.as_slice()) {
        Some(root) => root.hash(),
        None => {
            proof {
                lemma_root_exists(leaves(blocks_view(blocks@)));
            }
            Vec::new()
        },
    };
    let mut out: Vec<u8> = Vec::new();
    push_u32_le(&mut out, #[verifier::truncate] (count as u32));
    push_u32_le(&mut out, #[verifier::truncate] (root_hash.len() as u32));
    let ghost head = out@;
    out.extend_from_slice(root_hash.as_slice());
    let ghost mid = out@;
    out.extend_from_slice(records);
    proof {
        crate::endian::lemma_empty_then(u32_le_bytes(count as u32));
        assert(mid =~= head + root_hash@);
        assert(out@ =~= mid + records@);
    }
    out
}

/// A level of at least one node has a root.
pub proof fn lemma_root_exists(nodes: Seq<MerkleView>)
    requires
        nodes.len() > 0,
    ensures
        root_of(nodes) is Some,
    decreases nodes.len(),
{
    if nodes.len() > 1 {
        lemma_root_exists(pair_up(nodes));
    }
}

/// What loading makes of the bytes of a save file of records of `size`
/// bytes each: the records, whole, or the reason why the file is refused.
pub open spec fn load_bytes(file: Seq<u8>, size: nat) -> Result<Seq<u8>, SaveError> {
    if file.len() < 8 {
        Err(SaveError::UnexpectedEof)
    } else if file.len() - 8 < u32_le_at(file, 4) {
        Err(SaveError::UnexpectedEof)
    } else if file.len() - 8 - u32_le_at(file, 4) < u32_le_at(file, 0) * size {
        Err(SaveError::UnexpectedEof)
    } else if u32_le_at(file, 0) == 0 {
        Err(SaveError::Empty)
    } else if root_of(
        leaves(records_at(file, 8 + u32_le_at(file, 4), size, u32_le_at(file, 0) as nat)),
    ).unwrap().hash() != file.subrange(8, 8 + u32_le_at(file, 4)) {
        Err(SaveError::RootMismatch)
    } else {
        Ok(
            file.subrange(
                8 + u32_le_at(file, 4),
                8 + u32_le_at(file, 4) + u32_le_at(file, 0) * size,
            ),
        )
    }
}

fn same_bytes(a: &[u8], b: &[u8]) -> (r: bool)
    ensures
        r == (a@ == b@),
{
    if a.len() != b.len() {
        return false;
    }
    let mut i: usize = 0;
    while i < a.len()
        invariant
            i <= a@.len(),
            a@.len() == b@.len(),
            forall|k: int| 0 <= k < i ==> a@[k] == b@[k],
        decreases a@.len() - i,
    {
        if a[i] != b[i] {
            return false;
        }
        i += 1;
    }
    assert(a@ =~= b@);
    true
}

/// Reads the records of `size` bytes each out of the bytes of a save file
/// and checks them against the root hash that the file carries.
pub fn load_game(file: &[u8], size: usize) -> (r: Result<Vec<u8>, SaveError>)
    requires
        size > 0,
    ensures
        match load_bytes(file@, size as nat) {
            Ok(records) => r is Ok && r->Ok_0@ == records,
            Err(e) => r == Err::<Vec<u8>, SaveError>(e),
        },
{
    let len = file.len();
    if len < 8 {
        return Err(SaveError::UnexpectedEof);
    }
    let count = read_u32_le(file, 0) as usize;
    let root_len = read_u32_le(file, 4) as usize;
    if len - 8 < root_len {
        return Err(SaveError::UnexpectedEof);
    }
    let start = 8 + root_len;
    proof {
        assert(0 <= count * size <= 0xffff_ffff * 0xffff_ffff_ffff_ffff) by (nonlinear_arith)
            requires
                0 <= count <= 0xffff_ffff,
                0 < size <= 0xffff_ffff_ffff_ffff,
        ;
    }
    let wide: u128 = (count as u128) * (size as u128);
    if ((len - start) as u128) < wide {
        return Err(SaveError::UnexpectedEof);
    }
    if count == 0 {
        return Err(SaveError::Empty);
    }
    let blocks = split_records(file, start, size, count);
    let root_hash = vstd::slice::slice_subrange(file, 8, start);
    match build_merkle_tree(blocks.as_slice()) {
        Some(root) => {
            let computed = root.hash();
            if !same_bytes(computed.as_slice(), root_hash) {
                return Err(SaveError::RootMismatch);
            }
        },
        None => {
            proof {
                lemma_root_exists(leaves(blocks_view(blocks@)));
            }
        },
    }
    Ok(vstd::slice::slice_to_vec(vstd::slice::slice_subrange(file, start, start + count * size)))
}

} // verus!
