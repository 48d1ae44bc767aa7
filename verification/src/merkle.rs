//! Batch Merkle trees: sorted-pair SHA-256, where the last node of a level
//! with an odd number of nodes is paired with itself.

use sha2::{Digest, Sha256};
use vstd::arithmetic::div_mod::*;
use vstd::arithmetic::power2::*;
use vstd::prelude::*;

use crate::bytes;
use crate::bytes::{lex_rank, Rank};

verus! {

/// The SHA-256 digest of `data`.
pub uninterp spec fn sha256(data: Seq<u8>) -> Seq<u8>;

/// `sha2::Sha256::digest`: the digest is a function of the bytes alone.
#[verifier::external_body]
fn sha256_digest(data: &[u8]) -> (digest: [u8; 32])
    ensures
        digest@ == sha256(data@),
{
    Sha256::digest(data).into()
}

/// The parent of two nodes: the digest of both, the smaller one first.
pub open spec fn parent(a: Seq<u8>, b: Seq<u8>) -> Seq<u8> {
    if bytes::lex_before(b, a) {
        sha256(b + a)
    } else {
        sha256(a + b)
    }
}

/// The level above `nodes`.
pub open spec fn parents(nodes: Seq<Seq<u8>>) -> Seq<Seq<u8>> {
    Seq::new(
        ((nodes.len() + 1) / 2) as nat,
        |i: int|
            parent(
                nodes[2 * i],
                if 2 * i + 1 < nodes.len() {
                    nodes[2 * i + 1]
                } else {
                    nodes[2 * i]
                },
            ),
    )
}

/// The nodes `height` levels above `leaves`.
pub open spec fn level(leaves: Seq<Seq<u8>>, height: nat) -> Seq<Seq<u8>>
    decreases height,
{
    if height == 0 {
        leaves
    } else {
        parents(level(leaves, (height - 1) as nat))
    }
}

/// The root of the batch tree over a non-empty sequence of leaves.
pub open spec fn batch_root(leaves: Seq<Seq<u8>>) -> Seq<u8>
    decreases leaves.len(),
{
    if leaves.len() <= 1 {
        leaves[0]
    } else {
        batch_root(parents(leaves))
    }
}

/// The nodes that a proof for leaf `index` lists, from the leaf's sibling up.
pub open spec fn batch_proof(leaves: Seq<Seq<u8>>, index: int) -> Seq<Seq<u8>>
    decreases leaves.len(),
{
    if leaves.len() <= 1 {
        seq![]
    } else {
        let sibling = if index % 2 == 1 {
            leaves[index - 1]
        } else if index + 1 < leaves.len() {
            leaves[index + 1]
        } else {
            leaves[index]
        };
        seq![sibling] + batch_proof(parents(leaves), index / 2)
    }
}

/// The node reached from `node` by pairing it with each node of `proof` in turn.
pub open spec fn folded(node: Seq<u8>, proof: Seq<Seq<u8>>) -> Seq<u8>
    decreases proof.len(),
{
    if proof.len() == 0 {
        node
    } else {
        folded(parent(node, proof[0]), proof.skip(1))
    }
}

/// Sorted-pair SHA-256.
pub fn hash_pair(a: &[u8; 32], b: &[u8; 32]) -> (node: [u8; 32])
    ensures
        node@ == parent(a@, b@),
{
    let (lo, hi) = match lex_rank(a, b) {
        Rank::Greater => (b, a),
        _ => (a, b),
    };
    let mut both: Vec<u8> = Vec::new();
    let mut i: usize = 0;
    while i < 32
        invariant
            i <= 32,
            both@ == lo@.take(i as int),
        decreases 32 - i,
    {
        both.push(lo[i]);
        i += 1;
    }
    let mut j: usize = 0;
    while j < 32
        invariant
            j <= 32,
            both@ == lo@ + hi@.take(j as int),
        decreases 32 - j,
    {
        both.push(hi[j]);
        j += 1;
    }
    proof {
        assert(both@ =~= lo@ + hi@);
        if bytes::lex_before(a@, b@) {
            bytes::lemma_lex_asymmetric(a@, b@);
        }
        bytes::lemma_lex_irreflexive(a@);
    }
    sha256_digest(both.as_slice())
}

/// The order in which a pair is given does not matter.
pub proof fn law_parent_symmetric(a: Seq<u8>, b: Seq<u8>)
    ensures
        parent(a, b) == parent(b, a),
{
    if a != b {
        bytes::lemma_lex_total(a, b);
        if bytes::lex_before(a, b) {
            bytes::lemma_lex_asymmetric(a, b);
        }
    }
}

/// Folding a leaf with its batch proof gives the batch root.
pub proof fn law_batch_proof_folds_to_root(leaves: Seq<Seq<u8>>, index: int)
    requires
        0 <= index < leaves.len(),
    ensures
        folded(leaves[index], batch_proof(leaves, index)) == batch_root(leaves),
    decreases leaves.len(),
{
    if leaves.len() > 1 {
        let proof_nodes = batch_proof(leaves, index);
        let up = parents(leaves);
        let half = index / 2;
        law_batch_proof_folds_to_root(up, half);
        assert(proof_nodes.skip(1) =~= batch_proof(up, half));
        if index % 2 == 1 {
            assert(index == 2 * half + 1);
            law_parent_symmetric(leaves[index - 1], leaves[index]);
        } else {
            assert(index == 2 * half);
        }
        assert(parent(leaves[index], proof_nodes[0]) == up[half]);
    }
}

/// Halving `n / 2^k` once more, and what is left over by then.
pub proof fn lemma_halving(n: nat, k: nat)
    ensures
        n / pow2(k + 1) == (n / pow2(k)) / 2,
        n % pow2(k + 1) != 0 <==> ((n / pow2(k)) % 2 == 1 || n % pow2(k) != 0),
{
    let p = pow2(k) as int;
    lemma_pow2_pos(k);
    lemma_pow2_unfold(k + 1);
    let q = n as int / p;
    let r = n as int % p;
    lemma_fundamental_div_mod(n as int, p);
    lemma_mod_bound(n as int, p);
    let h = q / 2;
    let b = q % 2;
    assert(n == h * (2 * p) + (b * p + r)) by (nonlinear_arith)
        requires
            n == p * q + r,
            q == 2 * h + b,
    ;
    assert(0 <= b * p + r < 2 * p) by (nonlinear_arith)
        requires
            b == 0 || b == 1,
            0 <= r < p,
    ;
    lemma_fundamental_div_mod_converse(n as int, 2 * p, h, b * p + r);
    lemma_div_pos_is_pos(n as int, p);
    assert(b * p == if b == 1 {
        p
    } else {
        0
    }) by (nonlinear_arith)
        requires
            b == 0 || b == 1,
    ;
}

/// A level has a node for every complete subtree, and one for what is left over.
pub proof fn lemma_level_len(leaves: Seq<Seq<u8>>, k: nat)
    ensures
        level(leaves, k).len() == leaves.len() / pow2(k) + if leaves.len() % pow2(k) != 0 {
            1nat
        } else {
            0nat
        },
    decreases k,
{
    if k == 0 {
        lemma2_to64();
    } else {
        let below = (k - 1) as nat;
        lemma_level_len(leaves, below);
        lemma_halving(leaves.len(), below);
    }
}

/// Complete subtrees do not depend on the leaves behind them.
pub proof fn lemma_level_prefix(a: Seq<Seq<u8>>, b: Seq<Seq<u8>>, k: nat)
    requires
        a.len() <= b.len(),
        forall|i: int| 0 <= i < a.len() ==> a[i] == b[i],
    ensures
        level(a, k).len() >= a.len() / pow2(k),
        level(b, k).len() >= a.len() / pow2(k),
        forall|i: int| 0 <= i < a.len() / pow2(k) ==> level(a, k)[i] == level(b, k)[i],
    decreases k,
{
    if k == 0 {
        lemma2_to64();
    } else {
        let below = (k - 1) as nat;
        lemma_level_prefix(a, b, below);
        lemma_halving(a.len(), below);
        let half = a.len() / pow2(k);
        assert forall|i: int| 0 <= i < half implies level(a, k)[i] == level(b, k)[i] by {
            assert(2 * i + 1 < a.len() / pow2(below));
        }
    }
}

/// The parent of two nodes of one length is the digest of both, the one with the
/// smaller byte at the first difference first, whichever is given first.
pub proof fn law_parent_digest(a: Seq<u8>, b: Seq<u8>, k: int)
    requires
        a.len() == b.len(),
    ensures
        parent(a, a) == sha256(a + a),
        0 <= k < a.len() && a[k] < b[k] && a.take(k) == b.take(k) ==> parent(a, b) == sha256(a + b)
            && parent(b, a) == sha256(a + b),
{
    bytes::law_lex_order(a, b);
    bytes::law_lex_order(b, a);
    bytes::lemma_lex_irreflexive(a);
    if 0 <= k < a.len() && a[k] < b[k] && a.take(k) == b.take(k) {
        bytes::lemma_lex_asymmetric(a, b);
    }
}

/// The level above has one node for every two, and one more for a last one
/// without a neighbour, which is paired with itself.
pub proof fn law_level_above(nodes: Seq<Seq<u8>>, i: int)
    ensures
        2 * parents(nodes).len() == if nodes.len() % 2 == 0 {
            nodes.len()
        } else {
            nodes.len() + 1
        },
        0 <= i && 2 * i + 1 < nodes.len() ==> parents(nodes)[i] == parent(
            nodes[2 * i],
            nodes[2 * i + 1],
        ),
        nodes.len() % 2 == 1 ==> parents(nodes).last() == parent(nodes.last(), nodes.last()),
{
}

/// The levels are built one upon the other, and the root is the one node of the
/// first level that has only one.
pub proof fn law_root_at_the_top(leaves: Seq<Seq<u8>>, k: nat)
    ensures
        level(leaves, 0) == leaves,
        level(leaves, k + 1) == parents(level(leaves, k)),
        leaves.len() == 1 ==> batch_root(leaves) == leaves[0],
        level(leaves, k).len() > 1 && level(leaves, k + 1).len() == 1 ==> batch_root(leaves)
            == level(leaves, k + 1)[0],
    decreases k,
{
    if level(leaves, k).len() > 1 && level(leaves, k + 1).len() == 1 {
        if leaves.len() <= 1 {
            lemma_short_levels(leaves, k);
        }
        reveal_with_fuel(level, 2);
        if k == 0 {
            assert(batch_root(parents(leaves)) == parents(leaves)[0]);
        } else {
            lemma_level_of_parents(leaves, k);
            lemma_level_of_parents(leaves, (k - 1) as nat);
            law_root_at_the_top(parents(leaves), (k - 1) as nat);
        }
    }
}

proof fn lemma_short_levels(leaves: Seq<Seq<u8>>, k: nat)
    requires
        leaves.len() <= 1,
    ensures
        level(leaves, k).len() <= 1,
    decreases k,
{
    if k > 0 {
        lemma_short_levels(leaves, (k - 1) as nat);
    }
}

proof fn lemma_level_of_parents(leaves: Seq<Seq<u8>>, k: nat)
    ensures
        level(parents(leaves), k) == level(leaves, k + 1),
    decreases k,
{
    reveal_with_fuel(level, 2);
    if k > 0 {
        lemma_level_of_parents(leaves, (k - 1) as nat);
    }
}

/// A proof lists the leaf's neighbour, or the leaf itself where it has none, and
/// then the proof of its parent in the level above.
pub proof fn law_proof_siblings(leaves: Seq<Seq<u8>>, index: int)
    requires
        0 <= index < leaves.len(),
    ensures
        leaves.len() == 1 ==> batch_proof(leaves, index).len() == 0,
        leaves.len() > 1 ==> {
            let nodes = batch_proof(leaves, index);
            &&& nodes.len() > 0
            &&& nodes.skip(1) == batch_proof(parents(leaves), index / 2)
            &&& index % 2 == 1 ==> nodes[0] == leaves[index - 1]
            &&& index % 2 == 0 && index + 1 < leaves.len() ==> nodes[0] == leaves[index + 1]
            &&& index % 2 == 0 && index + 1 == leaves.len() ==> nodes[0] == leaves[index]
        },
{
    if leaves.len() > 1 {
        assert(batch_proof(leaves, index).skip(1) =~= batch_proof(parents(leaves), index / 2));
    }
}

/// Folding pairs the node with the first of the proof and goes on with the rest.
pub proof fn law_folding(node: Seq<u8>, first: Seq<u8>, rest: Seq<Seq<u8>>)
    ensures
        folded(node, Seq::empty()) == node,
        folded(node, seq![first] + rest) == folded(parent(node, first), rest),
{
    assert((seq![first] + rest).skip(1) =~= rest);
}

} // verus!
