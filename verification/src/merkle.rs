//! Inclusion proofs for a binary hash tree.
//!
//! A tree has a power-of-two number of leaves. A leaf is hashed with the tag
//! `LEAF_TAG` in front, two children are hashed with `NODE_TAG` in front, so a
//! leaf can never be passed off as an inner node. A proof names the position of
//! its leaf and lists the siblings met on the way up, lowest first; bit `k` of
//! the position tells on which side the sibling of level `k` stands.

use vstd::prelude::*;
use vstd::arithmetic::power2::{lemma_pow2_pos, lemma_pow2_unfold, pow2};
use crate::bytes::{copy_range, push_all, same_bytes};
use crate::commitment::Payload;
use crate::crypto::{keccak256, keccak_256, Digest};
use crate::error::Error;

verus! {

/// First byte of what is hashed for a leaf.
pub const LEAF_TAG: u8 = 0;

/// First byte of what is hashed for an inner node.
pub const NODE_TAG: u8 = 1;

/// A leaf, its position among the leaves, and the siblings on its way to the
/// root, lowest level first.
#[derive(Clone, Debug, PartialEq, Eq)]
pub struct InclusionProof {
    pub leaf_index: u64,
    pub leaf: Vec<u8>,
    pub path: Vec<Digest>,
}

/// A proof with its leaf and its siblings as byte sequences.
pub struct InclusionProofView {
    pub leaf_index: nat,
    pub leaf: Seq<u8>,
    pub path: Seq<Seq<u8>>,
}

/// The byte strings held by a sequence of digests.
pub open spec fn digest_views(digests: Seq<Digest>) -> Seq<Seq<u8>> {
    Seq::new(digests.len(), |i: int| digests[i]@)
}

/// The byte strings held by a sequence of leaves.
pub open spec fn leaf_views(leaves: Seq<Vec<u8>>) -> Seq<Seq<u8>> {
    Seq::new(leaves.len(), |i: int| leaves[i]@)
}

impl View for InclusionProof {
    type V = InclusionProofView;

    open spec fn view(&self) -> InclusionProofView {
        InclusionProofView {
            leaf_index: self.leaf_index as nat,
            leaf: self.leaf@,
            path: digest_views(self.path@),
        }
    }
}

/// What is hashed for a leaf: the leaf behind its tag.
pub open spec fn leaf_preimage(leaf: Seq<u8>) -> Seq<u8> {
    seq![LEAF_TAG] + leaf
}

/// What is hashed for the node above `left` and `right`: the two digests
/// behind the tag, the left one first.
pub open spec fn node_preimage(left: Seq<u8>, right: Seq<u8>) -> Seq<u8> {
    seq![NODE_TAG] + left + right
}

/// What is hashed for the parent of `node`, which is child number `index` of
/// its level and has `sibling` beside it: an even child stands on the left.
pub open spec fn parent_preimage(node: Seq<u8>, index: nat, sibling: Seq<u8>) -> Seq<u8> {
    if index % 2 == 0 {
        node_preimage(node, sibling)
    } else {
        node_preimage(sibling, node)
    }
}

/// The digest that stands for a leaf at the bottom of the tree.
pub open spec fn leaf_digest(leaf: Seq<u8>) -> Seq<u8> {
    keccak256(leaf_preimage(leaf))
}

/// The digest of the node above `left` and `right`.
pub open spec fn node_digest(left: Seq<u8>, right: Seq<u8>) -> Seq<u8> {
    keccak256(node_preimage(left, right))
}

/// The digest of the parent of `node`, which is child number `index` of its
/// level and has `sibling` beside it.
pub open spec fn parent_digest(node: Seq<u8>, index: nat, sibling: Seq<u8>) -> Seq<u8> {
    keccak256(parent_preimage(node, index, sibling))
}

/// The digest reached from `node`, child number `index` of its level, by
/// combining it with the siblings of `path` in turn.
pub open spec fn climb(node: Seq<u8>, index: nat, path: Seq<Seq<u8>>) -> Seq<u8>
    decreases path.len(),
{
    if path.len() == 0 {
        node
    } else {
        climb(parent_digest(node, index, path[0]), index / 2, path.drop_first())
    }
}

/// Whether a tree of height `depth` has a leaf number `index`.
pub open spec fn index_fits(index: nat, depth: nat) -> bool {
    index < pow2(depth)
}

/// The root that a proof claims for its tree.
pub open spec fn recomputed_root(proof: InclusionProofView) -> Seq<u8> {
    climb(leaf_digest(proof.leaf), proof.leaf_index, proof.path)
}

/// What comes of a proof for `leaf` whose recomputed root is `recomputed`
/// when the trusted root is `root`.
pub open spec fn root_verdict(leaf: Seq<u8>, recomputed: Seq<u8>, root: Seq<u8>) -> Result<
    Seq<u8>,
    Error,
> {
    if recomputed == root {
        Ok(leaf)
    } else {
        Err(Error::ProofMismatch)
    }
}

/// What verifying `proof` against `root` yields: the proven leaf, or the
/// reason for which the proof is turned down. The shape of the proof is judged
/// before anything is hashed.
pub open spec fn verify_outcome(proof: InclusionProofView, root: Seq<u8>) -> Result<Seq<u8>, Error> {
    if !index_fits(proof.leaf_index, proof.path.len()) {
        Err(Error::MalformedProof)
    } else {
        root_verdict(proof.leaf, recomputed_root(proof), root)
    }
}

/// The views of a sequence of proofs.
pub open spec fn proof_views(proofs: Seq<InclusionProof>) -> Seq<InclusionProofView> {
    Seq::new(proofs.len(), |i: int| proofs[i]@)
}

/// The byte strings that a sequence of borrowed leaves refers to.
pub open spec fn borrowed_views(leaves: Seq<&Vec<u8>>) -> Seq<Seq<u8>> {
    Seq::new(leaves.len(), |i: int| leaves[i]@)
}

/// What verifying several proofs against one root yields: the proven leaves
/// in the order of their proofs, or the error of the first proof that fails.
pub open spec fn verify_all_outcome(proofs: Seq<InclusionProofView>, root: Seq<u8>) -> Result<
    Seq<Seq<u8>>,
    Error,
>
    decreases proofs.len(),
{
    if proofs.len() == 0 {
        Ok(Seq::empty())
    } else {
        match verify_all_outcome(proofs.drop_last(), root) {
            Err(error) => Err(error),
            Ok(leaves) => match verify_outcome(proofs.last(), root) {
                Err(error) => Err(error),
                Ok(leaf) => Ok(leaves.push(leaf)),
            },
        }
    }
}

/// The level above `nodes`: its node number `j` covers the nodes `2j` and
/// `2j + 1`.
pub open spec fn level_up(nodes: Seq<Seq<u8>>) -> Seq<Seq<u8>> {
    Seq::new(nodes.len() / 2, |j: int| node_digest(nodes[2 * j], nodes[2 * j + 1]))
}

/// Whether `width` is a power of two.
pub open spec fn is_full_width(width: nat) -> bool
    decreases width,
{
    width == 1 || (width >= 2 && width % 2 == 0 && is_full_width(width / 2))
}

/// The root above a level of full width.
pub open spec fn level_root(nodes: Seq<Seq<u8>>) -> Seq<u8>
    decreases nodes.len(),
{
    if nodes.len() <= 1 {
        nodes[0]
    } else {
        level_root(level_up(nodes))
    }
}

/// The siblings met on the way from node number `index` of a level of full
/// width up to the root, lowest first.
pub open spec fn level_path(nodes: Seq<Seq<u8>>, index: nat) -> Seq<Seq<u8>>
    decreases nodes.len(),
{
    if nodes.len() <= 1 {
        Seq::empty()
    } else {
        let sibling = if index % 2 == 0 {
            nodes[index as int + 1]
        } else {
            nodes[index as int - 1]
        };
        seq![sibling] + level_path(level_up(nodes), index / 2)
    }
}

/// The bottom level of the tree over `leaves`.
pub open spec fn leaf_level(leaves: Seq<Seq<u8>>) -> Seq<Seq<u8>> {
    Seq::new(leaves.len(), |i: int| leaf_digest(leaves[i]))
}

/// The root of the tree over `leaves`, whose number is a power of two.
pub open spec fn tree_root(leaves: Seq<Seq<u8>>) -> Seq<u8> {
    level_root(leaf_level(leaves))
}

/// The proof that leaf number `index` belongs to the tree over `leaves`.
pub open spec fn tree_proof(leaves: Seq<Seq<u8>>, index: nat) -> InclusionProofView {
    InclusionProofView {
        leaf_index: index,
        leaf: leaves[index as int],
        path: level_path(leaf_level(leaves), index),
    }
}

/// Two different byte strings with the same Keccak-256 digest.
pub open spec fn keccak_collision(first: Seq<u8>, second: Seq<u8>) -> bool {
    first != second && keccak256(first) == keccak256(second)
}

proof fn lemma_halving(index: nat, depth: nat)
    requires
        depth >= 1,
    ensures
        index_fits(index, depth) == index_fits(index / 2, (depth - 1) as nat),
{
    lemma_pow2_unfold(depth);
}

/// Climbing from a node of a full level along its own path ends at the root of
/// that level, and the path is as long as the level is high.
proof fn lemma_climb_reaches_root(nodes: Seq<Seq<u8>>, index: nat)
    requires
        is_full_width(nodes.len()),
        index < nodes.len(),
    ensures
        climb(nodes[index as int], index, level_path(nodes, index)) == level_root(nodes),
        pow2(level_path(nodes, index).len()) == nodes.len(),
    decreases nodes.len(),
{
    if nodes.len() == 1 {
        vstd::arithmetic::power2::lemma2_to64();
    } else {
        let path = level_path(nodes, index);
        lemma_climb_reaches_root(level_up(nodes), index / 2);
        assert(path.drop_first() =~= level_path(level_up(nodes), index / 2));
        lemma_pow2_unfold(path.len());
    }
}

/// A proof built for a leaf of a tree verifies against the root of that tree
/// and yields the leaf.
pub proof fn lemma_constructed_proof_verifies(leaves: Seq<Seq<u8>>, index: nat)
    requires
        is_full_width(leaves.len()),
        index < leaves.len(),
    ensures
        verify_outcome(tree_proof(leaves, index), tree_root(leaves)) == Ok::<Seq<u8>, Error>(
            leaves[index as int],
        ),
{
    lemma_climb_reaches_root(leaf_level(leaves), index);
}

/// What is hashed for a node falls apart into the two digests it was put
/// together from, once the length of one of them is known.
proof fn lemma_node_preimage_splits(
    left: Seq<u8>,
    right: Seq<u8>,
    other_left: Seq<u8>,
    other_right: Seq<u8>,
)
    requires
        node_preimage(left, right) == node_preimage(other_left, other_right),
        left.len() == other_left.len() || right.len() == other_right.len(),
    ensures
        left == other_left,
        right == other_right,
{
    let whole = node_preimage(left, right);
    let other = node_preimage(other_left, other_right);
    assert(whole.len() == 1 + left.len() + right.len());
    assert(other.len() == 1 + other_left.len() + other_right.len());
    assert(left =~= other_left) by {
        assert forall|i: int| 0 <= i < left.len() implies left[i] == other_left[i] by {
            assert(whole[1 + i] == left[i]);
            assert(other[1 + i] == other_left[i]);
        }
    }
    assert(right =~= other_right) by {
        assert forall|i: int| 0 <= i < right.len() implies right[i] == other_right[i] by {
            assert(whole[1 + left.len() + i] == right[i]);
            assert(other[1 + left.len() + i] == other_right[i]);
        }
    }
}

/// What is hashed for a leaf gives the leaf back.
proof fn lemma_leaf_preimage_splits(leaf: Seq<u8>, other: Seq<u8>)
    requires
        leaf_preimage(leaf) == leaf_preimage(other),
    ensures
        leaf == other,
{
    assert(leaf_preimage(leaf).len() == 1 + leaf.len());
    assert(leaf_preimage(other).len() == 1 + other.len());
    assert(leaf =~= other) by {
        assert forall|i: int| 0 <= i < leaf.len() implies leaf[i] == other[i] by {
            assert(leaf_preimage(leaf)[1 + i] == leaf[i]);
            assert(leaf_preimage(other)[1 + i] == other[i]);
        }
    }
}

/// Two climbs from the same position along paths of the same shape meet at the
/// same digest only if they started from the same node and passed the same
/// siblings, or Keccak-256 has a collision.
proof fn lemma_climb_binds(
    first: Seq<u8>,
    first_path: Seq<Seq<u8>>,
    second: Seq<u8>,
    second_path: Seq<Seq<u8>>,
    index: nat,
)
    requires
        first_path.len() == second_path.len(),
        forall|k: int| 0 <= k < first_path.len() ==> first_path[k].len() == second_path[k].len(),
        climb(first, index, first_path) == climb(second, index, second_path),
    ensures
        (first == second && first_path == second_path) || exists|a: Seq<u8>, b: Seq<u8>|
            keccak_collision(a, b),
    decreases first_path.len(),
{
    if first_path.len() > 0 {
        let first_rest = first_path.drop_first();
        let second_rest = second_path.drop_first();
        lemma_climb_binds(
            parent_digest(first, index, first_path[0]),
            first_rest,
            parent_digest(second, index, second_path[0]),
            second_rest,
            index / 2,
        );
        let a = parent_preimage(first, index, first_path[0]);
        let b = parent_preimage(second, index, second_path[0]);
        if keccak256(a) == keccak256(b) && first_rest == second_rest {
            if a == b {
                if index % 2 == 0 {
                    lemma_node_preimage_splits(first, first_path[0], second, second_path[0]);
                } else {
                    lemma_node_preimage_splits(first_path[0], first, second_path[0], second);
                }
                assert(first_path =~= second_path) by {
                    assert forall|k: int| 0 < k < first_path.len() implies first_path[k]
                        == second_path[k] by {
                        assert(first_rest[k - 1] == first_path[k]);
                        assert(second_rest[k - 1] == second_path[k]);
                    }
                }
            } else {
                assert(keccak_collision(a, b));
            }
        }
    }
}

/// A proof cannot be bent: whoever has a proof that verifies against a root,
/// and changes its leaf or any of its siblings while keeping the position and
/// the length of each sibling, gets a proof that fails with a mismatch, unless
/// the change has produced a collision of Keccak-256.
pub proof fn lemma_tampering_is_detected(
    proof: InclusionProofView,
    tampered: InclusionProofView,
    root: Seq<u8>,
)
    requires
        verify_outcome(proof, root) is Ok,
        tampered.leaf_index == proof.leaf_index,
        tampered.path.len() == proof.path.len(),
        forall|k: int| 0 <= k < proof.path.len() ==> tampered.path[k].len() == proof.path[k].len(),
        tampered.leaf != proof.leaf || tampered.path != proof.path,
    ensures
        verify_outcome(tampered, root) == Err::<Seq<u8>, Error>(Error::ProofMismatch) || exists|
            a: Seq<u8>,
            b: Seq<u8>,
        | keccak_collision(a, b),
{
    if recomputed_root(tampered) == root {
        lemma_climb_binds(
            leaf_digest(proof.leaf),
            proof.path,
            leaf_digest(tampered.leaf),
            tampered.path,
            proof.leaf_index,
        );
        let a = leaf_preimage(proof.leaf);
        let b = leaf_preimage(tampered.leaf);
        if keccak256(a) == keccak256(b) && proof.path == tampered.path {
            if a == b {
                lemma_leaf_preimage_splits(proof.leaf, tampered.leaf);
            } else {
                assert(keccak_collision(a, b));
            }
        }
    }
}

/// The bytes that are hashed for `leaf`.
pub fn tag_leaf(leaf: &[u8]) -> (preimage: Vec<u8>)
    ensures
        preimage@ == leaf_preimage(leaf@),
{
    let mut preimage: Vec<u8> = Vec::new();
    preimage.push(LEAF_TAG);
    push_all(&mut preimage, leaf);
    preimage
}

/// The bytes that are hashed for the node above `left` and `right`.
pub fn tag_node(left: &Digest, right: &Digest) -> (preimage: Vec<u8>)
    ensures
        preimage@ == node_preimage(left@, right@),
{
    let mut preimage: Vec<u8> = Vec::new();
    preimage.push(NODE_TAG);
    push_all(&mut preimage, left.as_slice());
    push_all(&mut preimage, right.as_slice());
    preimage
}

/// The bytes that are hashed for the parent of `node`, which is child number
/// `index` of its level and has `sibling` beside it.
pub fn tag_parent(node: &Digest, index: u64, sibling: &Digest) -> (preimage: Vec<u8>)
    ensures
        preimage@ == parent_preimage(node@, index as nat, sibling@),
{
    if index % 2 == 0 {
        tag_node(node, sibling)
    } else {
        tag_node(sibling, node)
    }
}

/// The digest that stands for `leaf` at the bottom of a tree.
pub fn hash_leaf(leaf: &[u8]) -> (digest: Digest)
    ensures
        digest@ == leaf_digest(leaf@),
{
    let preimage = tag_leaf(leaf);
    keccak_256(preimage.as_slice())
}

/// The digest of the node above `left` and `right`.
pub fn hash_node(left: &Digest, right: &Digest) -> (digest: Digest)
    ensures
        digest@ == node_digest(left@, right@),
{
    let preimage = tag_node(left, right);
    keccak_256(preimage.as_slice())
}

/// Whether a tree of height `depth` has a leaf number `index`.
pub fn index_in_tree(index: u64, depth: usize) -> (fits: bool)
    ensures
        fits == index_fits(index as nat, depth as nat),
{
    let mut rest: u64 = index;
    let mut level: usize = 0;
    while level < depth && rest > 0
        invariant
            level <= depth,
            index_fits(index as nat, depth as nat) == index_fits(
                rest as nat,
                (depth - level) as nat,
            ),
        decreases depth - level,
    {
        proof {
            lemma_halving(rest as nat, (depth - level) as nat);
        }
        rest = rest / 2;
        level = level + 1;
    }
    proof {
        lemma_pow2_pos((depth - level) as nat);
        if level == depth {
            vstd::arithmetic::power2::lemma2_to64();
        }
    }
    rest == 0
}

fn recompute_root(proof: &InclusionProof) -> (root: Digest)
    ensures
        root@ == recomputed_root(proof@),
{
    let mut node: Digest = hash_leaf(proof.leaf.as_slice());
    let mut index: u64 = proof.leaf_index;
    let mut level: usize = 0;
    proof {
        assert(proof@.path.skip(0) =~= proof@.path);
    }
    while level < proof.path.len()
        invariant
            level <= proof.path@.len(),
            climb(node@, index as nat, proof@.path.skip(level as int)) == recomputed_root(proof@),
        decreases proof.path@.len() - level,
    {
        proof {
            let remaining = proof@.path.skip(level as int);
            assert(remaining.drop_first() =~= proof@.path.skip(level + 1));
        }
        let preimage = tag_parent(&node, index, &proof.path[level]);
        node = keccak_256(preimage.as_slice());
        index = index / 2;
        level = level + 1;
    }
    node
}

/// Holds the root recomputed from `proof` against the trusted root. Yields
/// the leaf of the proof when the two are the same, and fails with
/// `ProofMismatch` when they are not.
pub fn conclude<'a>(proof: &'a InclusionProof, recomputed: &Digest, against_root: &Payload) -> (result:
    Result<&'a Vec<u8>, Error>)
    ensures
        match result {
            Ok(leaf) => root_verdict(proof@.leaf, recomputed@, against_root.root@) == Ok::<
                Seq<u8>,
                Error,
            >(leaf@),
            Err(error) => root_verdict(proof@.leaf, recomputed@, against_root.root@) == Err::<
                Seq<u8>,
                Error,
            >(error),
        },
{
    if same_bytes(recomputed.as_slice(), against_root.root.as_slice()) {
        Ok(&proof.leaf)
    } else {
        Err(Error::ProofMismatch)
    }
}

/// Checks leaves against a trusted root. It keeps no state, so proofs can be
/// verified side by side.
pub struct ProofVerifier;

impl ProofVerifier {
    /// Verifies `proof` against `against_root`, which must be the payload of a
    /// commitment that was accepted. Yields the proven leaf. Fails with
    /// `MalformedProof` when the path is too short for the leaf index, and with
    /// `ProofMismatch` when the recomputed root is another one.
    pub fn verify<'a>(proof: &'a InclusionProof, against_root: &Payload) -> (result: Result<
        &'a Vec<u8>,
        Error,
    >)
        ensures
            match result {
                Ok(leaf) => verify_outcome(proof@, against_root.root@) == Ok::<Seq<u8>, Error>(
                    leaf@,
                ),
                Err(error) => verify_outcome(proof@, against_root.root@) == Err::<Seq<u8>, Error>(
                    error,
                ),
            },
    {
        if !index_in_tree(proof.leaf_index, proof.path.len()) {
            return Err(Error::MalformedProof);
        }
        let root = recompute_root(proof);
        conclude(proof, &root, against_root)
    }

    /// Verifies a batch of proofs against one root, in order. Yields the
    /// proven leaves, or the error of the first proof that fails.
    pub fn verify_batch<'a>(proofs: &'a Vec<InclusionProof>, against_root: &Payload) -> (result:
        Result<Vec<&'a Vec<u8>>, Error>)
        ensures
            match result {
                Ok(leaves) => verify_all_outcome(proof_views(proofs@), against_root.root@) == Ok::<
                    Seq<Seq<u8>>,
                    Error,
                >(borrowed_views(leaves@)),
                Err(error) => verify_all_outcome(proof_views(proofs@), against_root.root@) == Err::<
                    Seq<Seq<u8>>,
                    Error,
                >(error),
            },
    {
        let mut leaves: Vec<&'a Vec<u8>> = Vec::new();
        let mut at: usize = 0;
        proof {
            assert(borrowed_views(leaves@) =~= Seq::<Seq<u8>>::empty());
        }
        while at < proofs.len()
            invariant
                at <= proofs@.len(),
                verify_all_outcome(proof_views(proofs@).take(at as int), against_root.root@)
                    == Ok::<Seq<Seq<u8>>, Error>(borrowed_views(leaves@)),
            decreases proofs@.len() - at,
        {
            let ghost before = borrowed_views(leaves@);
            proof {
                let upto = proof_views(proofs@).take(at + 1);
                assert(upto.drop_last() =~= proof_views(proofs@).take(at as int));
            }
            match ProofVerifier::verify(&proofs[at], against_root) {
                Err(error) => {
                    proof {
                        lemma_failure_is_final(proof_views(proofs@), against_root.root@, at + 1);
                    }
                    return Err(error);
                },
                Ok(leaf) => {
                    leaves.push(leaf);
                    proof {
                        assert(borrowed_views(leaves@) =~= before.push(leaf@));
                    }
                },
            }
            at = at + 1;
        }
        proof {
            assert(proof_views(proofs@).take(at as int) =~= proof_views(proofs@));
        }
        Ok(leaves)
    }
}

/// Once a prefix of a batch has failed, the whole batch fails with the same
/// error.
proof fn lemma_failure_is_final(proofs: Seq<InclusionProofView>, root: Seq<u8>, upto: int)
    requires
        0 <= upto <= proofs.len(),
        verify_all_outcome(proofs.take(upto), root) is Err,
    ensures
        verify_all_outcome(proofs, root) == verify_all_outcome(proofs.take(upto), root),
    decreases proofs.len() - upto,
{
    if upto < proofs.len() {
        assert(proofs.take(upto + 1).drop_last() =~= proofs.take(upto));
        lemma_failure_is_final(proofs, root, upto + 1);
    } else {
        assert(proofs.take(upto) =~= proofs);
    }
}

fn is_power_of_two(width: usize) -> (full: bool)
    ensures
        full == is_full_width(width as nat),
{
    let mut rest: usize = width;
    while rest >= 2 && rest % 2 == 0
        invariant
            is_full_width(width as nat) == is_full_width(rest as nat),
        decreases rest,
    {
        rest = rest / 2;
    }
    rest == 1
}

fn hash_leaves(leaves: &Vec<Vec<u8>>) -> (level: Vec<Digest>)
    ensures
        level@.len() == leaves@.len(),
        digest_views(level@) == leaf_level(leaf_views(leaves@)),
{
    let mut level: Vec<Digest> = Vec::new();
    let mut at: usize = 0;
    while at < leaves.len()
        invariant
            at <= leaves@.len(),
            level@.len() == at,
            forall|i: int| 0 <= i < at ==> level@[i]@ == leaf_digest(leaves@[i]@),
        decreases leaves@.len() - at,
    {
        level.push(hash_leaf(leaves[at].as_slice()));
        at = at + 1;
    }
    level
}

fn pair_up(level: &Vec<Digest>) -> (above: Vec<Digest>)
    ensures
        above@.len() == level@.len() / 2,
        digest_views(above@) == level_up(digest_views(level@)),
{
    let total: usize = level.len();
    let half: usize = total / 2;
    let mut above: Vec<Digest> = Vec::new();
    let mut at: usize = 0;
    while at < half
        invariant
            at <= half,
            half == total / 2,
            total == level@.len(),
            above@.len() == at,
            forall|j: int|
                0 <= j < at ==> above@[j]@ == node_digest(level@[2 * j]@, level@[2 * j + 1]@),
        decreases half - at,
    {
        above.push(hash_node(&level[2 * at], &level[2 * at + 1]));
        at = at + 1;
    }
    above
}

/// The root of the tree over `leaves`. There is one only if the number of
/// leaves is a power of two.
pub fn merkle_root(leaves: &Vec<Vec<u8>>) -> (root: Option<Digest>)
    ensures
        root is Some == is_full_width(leaves@.len()),
        root matches Some(digest) ==> digest@ == tree_root(leaf_views(leaves@)),
{
    if !is_power_of_two(leaves.len()) {
        return None;
    }
    let mut level: Vec<Digest> = hash_leaves(leaves);
    while level.len() > 1
        invariant
            is_full_width(level@.len()),
            level_root(digest_views(level@)) == tree_root(leaf_views(leaves@)),
        decreases level@.len(),
    {
        level = pair_up(&level);
    }
    Some(level[0])
}

/// The proof that leaf number `index` of `leaves` belongs to their tree. There
/// is one only if the number of leaves is a power of two and `index` is the
/// number of one of them.
pub fn build_proof(leaves: &Vec<Vec<u8>>, index: usize) -> (built: Option<InclusionProof>)
    ensures
        built is Some == (is_full_width(leaves@.len()) && index < leaves@.len()),
        built matches Some(proof) ==> proof@ == tree_proof(leaf_views(leaves@), index as nat),
{
    if !is_power_of_two(leaves.len()) || index >= leaves.len() {
        return None;
    }
    let mut level: Vec<Digest> = hash_leaves(leaves);
    let mut at: usize = index;
    let mut path: Vec<Digest> = Vec::new();
    while level.len() > 1
        invariant
            is_full_width(level@.len()),
            at < level@.len(),
            digest_views(path@) + level_path(digest_views(level@), at as nat) == level_path(
                leaf_level(leaf_views(leaves@)),
                index as nat,
            ),
        decreases level@.len(),
    {
        let sibling: Digest = if at % 2 == 0 {
            level[at + 1]
        } else {
            level[at - 1]
        };
        path.push(sibling);
        level = pair_up(&level);
        at = at / 2;
    }
    let leaf = copy_range(leaves[index].as_slice(), 0, leaves[index].len());
    proof {
        assert(leaf@ =~= leaves@[index as int]@);
    }
    Some(InclusionProof { leaf_index: index as u64, leaf, path })
}

} // verus!
