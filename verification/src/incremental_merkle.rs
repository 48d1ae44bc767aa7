//! Append-only incremental Merkle tree for continuous receipt anchoring.
//!
//! Receipt leaves are appended one at a time. Only the tree's *frontier* is
//! kept: for every set bit `i` of the leaf count, the root of the complete
//! left subtree of `2^i` leaves at level `i`. No leaf is ever read again, and
//! the root of `n` inserted leaves is the batch root of the same `n` leaves.

use vstd::arithmetic::div_mod::*;
use vstd::arithmetic::power2::*;
use vstd::bits::*;
use vstd::prelude::*;

use crate::error::Error;
use crate::merkle;
pub use crate::merkle::hash_pair;

verus! {

/// Maximum supported tree depth.
pub const MAX_DEPTH: u32 = 32;

/// Maximum number of leaves: a full tree of depth [`MAX_DEPTH`].
pub const MAX_LEAVES: u64 = 4_294_967_296;

/// Incremental tree state.
#[derive(Clone, Debug, PartialEq, Eq)]
pub struct IncrementalTree {
    /// Number of leaves inserted so far.
    pub count: u64,
    /// Root over the `count` leaves inserted so far.
    pub root: [u8; 32],
    /// Packed frontier: slot `i` (bytes `32*i .. 32*i + 32`) is the latest
    /// complete subtree root at level `i`. Only slots whose bit is set in
    /// `count` are meaningful.
    pub frontier: Vec<u8>,
}

/// The number of binary digits of `n`.
pub open spec fn bit_length(n: nat) -> nat
    decreases n,
{
    if n == 0 {
        0
    } else {
        1 + bit_length(n / 2)
    }
}

/// Slot `k` of a packed frontier.
pub open spec fn slot_at(frontier: Seq<u8>, k: nat) -> Seq<u8> {
    frontier.subrange(32 * k as int, 32 * k as int + 32)
}

/// `frontier` with `node` in slot `k`, which is appended when it is the next one.
pub open spec fn with_slot(frontier: Seq<u8>, k: nat, node: Seq<u8>) -> Seq<u8> {
    if frontier.len() == 32 * k {
        frontier + node
    } else {
        frontier.take(32 * k as int) + node + frontier.skip(32 * k as int + 32)
    }
}

/// Carries `node` up from level `k`, where `complete` subtrees stand to its
/// left, through every subtree that it closes: the level and the node it ends at.
pub open spec fn carried(frontier: Seq<u8>, complete: nat, k: nat, node: Seq<u8>) -> (
    nat,
    Seq<u8>,
)
    decreases complete,
{
    if complete % 2 == 1 {
        carried(frontier, complete / 2, k + 1, merkle::parent(slot_at(frontier, k), node))
    } else {
        (k, node)
    }
}

/// The incomplete node above a level `k` that has `complete` complete nodes,
/// the last of which stands in the frontier when their number is odd, and
/// behind them the node `partial`, if any.
pub open spec fn node_above(
    frontier: Seq<u8>,
    complete: nat,
    k: nat,
    partial: Option<Seq<u8>>,
) -> Option<Seq<u8>> {
    match (partial, complete % 2 == 1) {
        (Some(p), true) => Some(merkle::parent(slot_at(frontier, k), p)),
        (Some(p), false) => Some(merkle::parent(p, p)),
        (None, true) => Some(merkle::parent(slot_at(frontier, k), slot_at(frontier, k))),
        (None, false) => None,
    }
}

/// The root above a level `k` that has `complete` complete nodes, the last of
/// which stands in the frontier when their number is odd, and behind them the
/// node `partial`, if any.
pub open spec fn frontier_root(
    frontier: Seq<u8>,
    complete: nat,
    k: nat,
    partial: Option<Seq<u8>>,
) -> Seq<u8>
    decreases complete,
{
    if complete == 0 {
        partial->0
    } else if complete == 1 && partial is None {
        slot_at(frontier, k)
    } else {
        frontier_root(
            frontier,
            complete / 2,
            k + 1,
            node_above(frontier, complete, k, partial),
        )
    }
}

/// For every set bit of the number of leaves, `frontier` holds the last
/// complete node of that level of the batch tree over `leaves`.
pub open spec fn frontier_commits(frontier: Seq<u8>, leaves: Seq<Seq<u8>>) -> bool {
    forall|k: nat|
        (#[trigger] (leaves.len() / pow2(k))) % 2 == 1 ==> {
            &&& 32 * k + 32 <= frontier.len()
            &&& slot_at(frontier, k) == merkle::level(leaves, k)[leaves.len() / pow2(k) - 1]
        }
}

impl IncrementalTree {
    /// The frontier has one slot for every level that was ever used.
    pub open spec fn wf(self) -> bool {
        self.frontier@.len() == 32 * bit_length(self.count as nat)
    }

    /// The frontier has every slot that the next insertion reads, and a whole
    /// slot or none at the place where it writes.
    pub open spec fn usable(self) -> bool {
        let held = 32 * bit_length(self.count as nat);
        &&& self.frontier@.len() >= held
        &&& bit_length(self.count as nat + 1) > bit_length(self.count as nat)
            ==> self.frontier@.len() == held || self.frontier@.len() >= held + 32
    }

    /// The tree is the one over `leaves`.
    pub open spec fn commits_to(self, leaves: Seq<Seq<u8>>) -> bool {
        &&& self.count == leaves.len()
        &&& frontier_commits(self.frontier@, leaves)
        &&& leaves.len() > 0 ==> self.root@ == merkle::batch_root(leaves)
    }
}

proof fn lemma_bit_within_length(n: nat, k: nat)
    requires
        n / pow2(k) > 0,
    ensures
        k < bit_length(n),
    decreases k,
{
    lemma2_to64();
    if k > 0 {
        let below = (k - 1) as nat;
        lemma_pow2_unfold(k);
        lemma_pow2_pos(below);
        lemma_div_denominator(n as int, 2, pow2(below) as int);
        assert((n / 2) / pow2(below) == n / pow2(k));
        if n > 0 {
            lemma_bit_within_length(n / 2, below);
        } else {
            lemma_pow2_pos(k);
            lemma_div_of0(pow2(k) as int);
        }
    }
}

proof fn lemma_bit_test(x: u64, level: u32)
    requires
        level < 64,
    ensures
        x >> level == x as nat / pow2(level as nat),
        (x >> level) & 1 == 1 <==> (x as nat / pow2(level as nat)) % 2 == 1,
{
    let y = x >> level;
    let wide = level as u64;
    assert(x >> level == x >> wide) by (bit_vector)
        requires
            wide == level as u64,
            level < 64,
    ;
    lemma_u64_shr_is_div(x, wide);
    assert(y & 1 == y % 2) by (bit_vector);
}

/// Where the carry of a new leaf ends, and how the number of levels grows.
proof fn lemma_carry_levels(frontier: Seq<u8>, complete: nat, k: nat, node: Seq<u8>)
    ensures
        carried(frontier, complete, k, node).0 >= k,
        ({
            let climbed = carried(frontier, complete, k, node).0 - k;
            ||| bit_length(complete) == climbed && bit_length(complete + 1) == climbed + 1
            ||| climbed < bit_length(complete) && bit_length(complete + 1) == bit_length(complete)
        }),
    decreases complete,
{
    reveal_with_fuel(bit_length, 2);
    if complete % 2 == 1 {
        let joined = merkle::parent(slot_at(frontier, k), node);
        lemma_carry_levels(frontier, complete / 2, k + 1, joined);
        assert((complete + 1) / 2 == complete / 2 + 1);
    } else {
        assert((complete + 1) / 2 == complete / 2);
    }
}

/// The carried node is the last complete node of its level.
proof fn lemma_carried_commits(
    frontier: Seq<u8>,
    leaves: Seq<Seq<u8>>,
    leaf: Seq<u8>,
    k: nat,
    node: Seq<u8>,
)
    requires
        frontier_commits(frontier, leaves),
        (leaves.len() + 1) % pow2(k) == 0,
        node == merkle::level(leaves.push(leaf), k)[(leaves.len() / pow2(k)) as int],
    ensures
        ({
            let (top, peak) = carried(frontier, leaves.len() / pow2(k), k, node);
            &&& (leaves.len() + 1) % pow2(top) == 0
            &&& (leaves.len() / pow2(top)) % 2 == 0
            &&& leaves.len() / pow2(top) + 1 == (leaves.len() + 1) / pow2(top)
            &&& peak == merkle::level(leaves.push(leaf), top)[(leaves.len() / pow2(top)) as int]
        }),
    decreases leaves.len() / pow2(k),
{
    let n = leaves.len();
    let q = n / pow2(k);
    let all = leaves.push(leaf);
    lemma_pow2_pos(k);
    lemma_fundamental_div_mod((n + 1) as int, pow2(k) as int);
    let m = (n + 1) / pow2(k);
    assert(n == (m - 1) * pow2(k) + (pow2(k) - 1)) by (nonlinear_arith)
        requires
            n + 1 == pow2(k) * m,
    ;
    lemma_fundamental_div_mod_converse(n as int, pow2(k) as int, m - 1, pow2(k) - 1);
    assert(q == m - 1);
    if q % 2 == 1 {
        merkle::lemma_halving(n, k);
        merkle::lemma_halving(n + 1, k);
        merkle::lemma_level_prefix(leaves, all, k);
        merkle::lemma_level_len(all, k);
        assert(slot_at(frontier, k) == merkle::level(leaves, k)[q - 1]);
        let joined = merkle::parent(slot_at(frontier, k), node);
        let half = (q / 2) as int;
        assert(2 * half == q - 1);
        assert(merkle::level(all, k + 1)[half] == joined);
        lemma_carried_commits(frontier, leaves, leaf, k + 1, joined);
    }
}

/// Once two numbers agree after `j` halvings, they agree after more of them.
proof fn lemma_agree_above(a: nat, b: nat, j: nat, k: nat)
    requires
        a / pow2(j) == b / pow2(j),
        j <= k,
    ensures
        a / pow2(k) == b / pow2(k),
    decreases k - j,
{
    if j < k {
        merkle::lemma_halving(a, j);
        merkle::lemma_halving(b, j);
        lemma_agree_above(a, b, j + 1, k);
    }
}

/// A multiple of `2^top` is even after fewer than `top` halvings.
proof fn lemma_even_below(n: nat, k: nat, top: nat)
    requires
        n % pow2(top) == 0,
        k < top,
    ensures
        (n / pow2(k)) % 2 == 0,
    decreases top - k,
{
    let below = (top - 1) as nat;
    merkle::lemma_halving(n, below);
    if k < below {
        lemma_even_below(n, k, below);
    }
}

/// Appending a leaf to the frontier over `leaves` gives the frontier over
/// `leaves` and the new leaf.
proof fn lemma_appended_commits(frontier: Seq<u8>, leaves: Seq<Seq<u8>>, leaf: Seq<u8>)
    requires
        frontier_commits(frontier, leaves),
        ({
            let (top, peak) = carried(frontier, leaves.len(), 0, leaf);
            &&& peak.len() == 32
            &&& frontier.len() == 32 * top || frontier.len() >= 32 * top + 32
        }),
    ensures
        ({
            let (top, peak) = carried(frontier, leaves.len(), 0, leaf);
            frontier_commits(with_slot(frontier, top, peak), leaves.push(leaf))
        }),
{
    let n = leaves.len();
    let all = leaves.push(leaf);
    lemma2_to64();
    lemma_carried_commits(frontier, leaves, leaf, 0, leaf);
    let (top, peak) = carried(frontier, n, 0, leaf);
    let new = with_slot(frontier, top, peak);
    merkle::lemma_halving(n, top);
    merkle::lemma_halving(n + 1, top);
    assert((n + 1) / pow2(top + 1) == n / pow2(top + 1));
    assert forall|k: nat| (#[trigger] (all.len() / pow2(k))) % 2 == 1 implies {
        &&& 32 * k + 32 <= new.len()
        &&& slot_at(new, k) == merkle::level(all, k)[all.len() / pow2(k) - 1]
    } by {
        if k < top {
            lemma_even_below(n + 1, k, top);
        } else if k == top {
            assert(slot_at(new, k) =~= peak);
        } else {
            lemma_agree_above(n, n + 1, top + 1, k);
            assert((leaves.len() / pow2(k)) % 2 == 1);
            assert(slot_at(new, k) =~= slot_at(frontier, k));
            merkle::lemma_level_prefix(leaves, all, k);
            let last = n / pow2(k) - 1;
            lemma_pow2_pos(k);
            lemma_div_pos_is_pos(n as int, pow2(k) as int);
            assert(merkle::level(leaves, k)[last] == merkle::level(all, k)[last]);
        }
    }
}

/// The root that the frontier over `leaves` describes is their batch root.
proof fn lemma_frontier_root(
    frontier: Seq<u8>,
    leaves: Seq<Seq<u8>>,
    k: nat,
    partial: Option<Seq<u8>>,
)
    requires
        leaves.len() > 0,
        frontier_commits(frontier, leaves),
        partial is Some <==> leaves.len() % pow2(k) != 0,
        partial is Some ==> partial->0 == merkle::level(leaves, k).last(),
    ensures
        frontier_root(frontier, leaves.len() / pow2(k), k, partial) == merkle::batch_root(
            merkle::level(leaves, k),
        ),
    decreases leaves.len() / pow2(k),
{
    let n = leaves.len();
    let q = n / pow2(k);
    let nodes = merkle::level(leaves, k);
    lemma_pow2_pos(k);
    lemma_fundamental_div_mod(n as int, pow2(k) as int);
    merkle::lemma_level_len(leaves, k);
    if q == 0 {
        assert(pow2(k) * q == 0) by (nonlinear_arith)
            requires
                q == 0,
        ;
    } else if q == 1 && partial is None {
        assert((leaves.len() / pow2(k)) % 2 == 1);
    } else {
        merkle::lemma_halving(n, k);
        merkle::lemma_level_len(leaves, k + 1);
        let above = node_above(frontier, q, k, partial);
        if q % 2 == 1 {
            assert(slot_at(frontier, k) == nodes[q - 1]);
        }
        if above is Some {
            let up = merkle::level(leaves, k + 1);
            let i = up.len() - 1;
            assert(up.last() == merkle::parents(nodes)[i]);
            assert(2 * i == if q % 2 == 1 {
                q - 1
            } else {
                q as int
            });
        }
        lemma_frontier_root(frontier, leaves, k + 1, above);
    }
}

/// Slot `level` of a packed frontier.
pub fn slot(frontier: &Vec<u8>, level: u32) -> (node: [u8; 32])
    requires
        32 * level + 32 <= frontier@.len(),
    ensures
        node@ == slot_at(frontier@, level as nat),
{
    let len: usize = frontier.len();
    let start: usize = level as usize * 32;
    let mut out = [0u8; 32];
    let mut i: usize = 0;
    while i < 32
        invariant
            i <= 32,
            start == 32 * level,
            start + 32 <= frontier@.len(),
            forall|j: int| 0 <= j < i ==> out@[j] == frontier@[start + j],
        decreases 32 - i,
    {
        out[i] = frontier[start + i];
        i += 1;
    }
    assert(out@ =~= slot_at(frontier@, level as nat));
    out
}

/// Puts `node` into slot `level`, which is appended when it is the next one:
/// it is read back from there, and everything outside of it stays as it was.
pub fn set_slot(frontier: &mut Vec<u8>, level: u32, node: &[u8; 32])
    requires
        old(frontier)@.len() == 32 * level || old(frontier)@.len() >= 32 * level + 32,
    ensures
        final(frontier)@ == with_slot(old(frontier)@, level as nat, node@),
        slot_at(final(frontier)@, level as nat) == node@,
        final(frontier)@.len() == if old(frontier)@.len() >= 32 * level + 32 {
            old(frontier)@.len()
        } else {
            (32 * level + 32) as nat
        },
        forall|i: int|
            0 <= i < old(frontier)@.len() && !(32 * level <= i < 32 * level + 32)
                ==> #[trigger] final(frontier)@[i] == old(frontier)@[i],
        forall|k: nat|
            k != level && 32 * k + 32 <= old(frontier)@.len() ==> #[trigger] slot_at(
                final(frontier)@,
                k,
            ) == slot_at(old(frontier)@, k),
{
    let len: usize = frontier.len();
    let start: usize = level as usize * 32;
    let ghost before = frontier@;
    if len == start {
        let mut i: usize = 0;
        while i < 32
            invariant
                i <= 32,
                frontier@ == before + node@.take(i as int),
            decreases 32 - i,
        {
            frontier.push(node[i]);
            i += 1;
        }
        assert(node@.take(32) =~= node@);
    } else {
        let mut i: usize = 0;
        while i < 32
            invariant
                i <= 32,
                start + 32 <= len,
                len == before.len(),
                frontier@.len() == before.len(),
                forall|j: int| 0 <= j < i ==> frontier@[start + j] == node@[j],
                forall|j: int|
                    0 <= j < before.len() && !(start <= j < start + i) ==> frontier@[j]
                        == before[j],
            decreases 32 - i,
        {
            frontier[start + i] = node[i];
            i += 1;
        }
        assert forall|j: int| 0 <= j < before.len() implies frontier@[j] == with_slot(
            before,
            level as nat,
            node@,
        )[j] by {
            if start <= j < start + 32 {
                assert(frontier@[start + (j - start)] == node@[j - start]);
            }
        }
        assert(frontier@ =~= with_slot(before, level as nat, node@));
    }
    proof {
        law_slot_round_trip(before, level as nat, node@);
    }
}

/// Root of a non-empty tree of `count` leaves described by `frontier`. Slots
/// whose bit is clear in `count` do not matter.
pub fn compute_root(frontier: &Vec<u8>, count: u64) -> (root: [u8; 32])
    requires
        0 < count <= MAX_LEAVES,
        frontier@.len() >= 32 * bit_length(count as nat),
    ensures
        root@ == frontier_root(frontier@, count as nat, 0, None),
        forall|other: Seq<u8>| #[trigger]
            agree_on_set_bits(frontier@, other, count as nat) ==> root@ == frontier_root(
                other,
                count as nat,
                0,
                None,
            ),
{
    // `partial` is the right-most, incomplete node at the current level (if
    // any): the fold of every leaf past the last complete subtree.
    let mut partial: Option<[u8; 32]> = None;
    let mut level: u32 = 0;
    proof {
        lemma2_to64();
    }
    loop
        invariant
            0 < count <= MAX_LEAVES,
            frontier@.len() >= 32 * bit_length(count as nat),
            level <= 32,
            partial is Some <==> count as nat % pow2(level as nat) != 0,
            frontier_root(frontier@, count as nat, 0, None) == frontier_root(
                frontier@,
                count as nat / pow2(level as nat),
                level as nat,
                match partial {
                    Some(p) => Some(p@),
                    None => None,
                },
            ),
        decreases 32 - level,
    {
        proof {
            lemma_node_count(count, level);
            lemma_bit_test(count, level);
            lemma_bit_test((count - 1) as u64, level);
            merkle::lemma_halving(count as nat, level as nat);
            if (count as nat / pow2(level as nat)) % 2 == 1 {
                lemma_bit_within_length(count as nat, level as nat);
            }
        }
        // Number of nodes at this level: ceil(count / 2^level).
        let nodes: u64 = ((count - 1) >> level) + 1;
        let bit_set = (count >> level) & 1 == 1;
        if nodes == 1 {
            proof {
                assert forall|other: Seq<u8>| #[trigger]
                    agree_on_set_bits(frontier@, other, count as nat) implies frontier_root(
                    frontier@,
                    count as nat,
                    0,
                    None,
                ) == frontier_root(other, count as nat, 0, None) by {
                    law_clear_slots_do_not_matter(frontier@, other, count as nat, seq![]);
                }
            }
            return match partial {
                Some(p) => p,
                None => slot(frontier, level),
            };
        }
        partial = match (partial, bit_set) {
            // Partial node has an odd index: its left sibling is the
            // frontier subtree.
            (Some(p), true) => Some(hash_pair(&slot(frontier, level), &p)),
            // Partial node is last with an even index: pair with itself.
            (Some(p), false) => Some(hash_pair(&p, &p)),
            // Odd count of complete nodes: the last one pairs with itself.
            (None, true) => {
                let s = slot(frontier, level);
                Some(hash_pair(&s, &s))
            },
            // Even count of complete nodes: everything pairs up.
            (None, false) => None,
        };
        level += 1;
    }
}

/// `ceil(count / 2^level)`, for the counts and levels of a tree.
proof fn lemma_node_count(count: u64, level: u32)
    requires
        0 < count <= MAX_LEAVES,
        level <= 32,
    ensures
        (count - 1) as nat / pow2(level as nat) + 1 == count as nat / pow2(level as nat) + if count
            as nat % pow2(level as nat) != 0 {
            1nat
        } else {
            0nat
        },
        (count - 1) as nat / pow2(level as nat) + 1 <= MAX_LEAVES,
        level == 32 ==> (count - 1) as nat / pow2(level as nat) == 0,
{
    let p = pow2(level as nat) as int;
    let q = count as int / p;
    let r = count as int % p;
    lemma_pow2_pos(level as nat);
    lemma_fundamental_div_mod(count as int, p);
    lemma_mod_bound(count as int, p);
    if r != 0 {
        assert(count - 1 == q * p + (r - 1)) by (nonlinear_arith)
            requires
                count == p * q + r,
        ;
        lemma_fundamental_div_mod_converse(count - 1, p, q, r - 1);
    } else {
        assert(count - 1 == (q - 1) * p + (p - 1)) by (nonlinear_arith)
            requires
                count == p * q + r,
                r == 0,
        ;
        lemma_fundamental_div_mod_converse(count - 1, p, q - 1, p - 1);
    }
    lemma_div_is_ordered_by_denominator(count - 1, 1, p);
    if level == 32 {
        lemma2_to64();
        lemma_basic_div(count - 1, p);
    }
}

/// An empty tree (no leaves; `root` is all zeroes until the first insert).
pub fn empty() -> (tree: IncrementalTree)
    ensures
        tree.count == 0,
        tree.root@ == Seq::new(32, |i: int| 0u8),
        tree.frontier@ == Seq::<u8>::empty(),
        tree.wf(),
        tree.commits_to(seq![]),
{
    let root = [0u8; 32];
    assert(root@ =~= Seq::new(32, |i: int| 0u8));
    proof {
        assert forall|k: nat| (#[trigger] (0nat / pow2(k))) % 2 != 1 by {
            lemma_pow2_pos(k);
            lemma_div_of0(pow2(k) as int);
        }
    }
    IncrementalTree { count: 0, root, frontier: Vec::new() }
}

/// Append `leaf` to `tree`, updating the frontier and root in place.
/// Returns the zero-based index of the inserted leaf.
pub fn insert(tree: &mut IncrementalTree, leaf: &[u8; 32]) -> (index: Result<u64, Error>)
    requires
        old(tree).count < MAX_LEAVES ==> old(tree).usable(),
    ensures
        old(tree).count >= MAX_LEAVES ==> index == Err::<u64, Error>(Error::BatchTooLarge)
            && *final(tree) == *old(tree),
        old(tree).count < MAX_LEAVES ==> {
            let (top, peak) = carried(old(tree).frontier@, old(tree).count as nat, 0, leaf@);
            &&& index == Ok::<u64, Error>(old(tree).count)
            &&& old(tree).wf() ==> final(tree).wf()
            &&& final(tree).count == old(tree).count + 1
            &&& final(tree).frontier@ == with_slot(old(tree).frontier@, top, peak)
            &&& final(tree).root@ == frontier_root(
                final(tree).frontier@,
                final(tree).count as nat,
                0,
                None,
            )
        },
        forall|leaves: Seq<Seq<u8>>|
            #![trigger frontier_commits(old(tree).frontier@, leaves)]
            old(tree).count < MAX_LEAVES && old(tree).count == leaves.len() && frontier_commits(
                old(tree).frontier@,
                leaves,
            ) ==> final(tree).commits_to(leaves.push(leaf@)),
{
    if tree.count >= MAX_LEAVES {
        return Err(Error::BatchTooLarge);
    }
    let index: u64 = tree.count;

    // Carry the new leaf up through every complete subtree it closes.
    let mut node: [u8; 32] = *leaf;
    let mut level: u32 = 0;
    proof {
        lemma2_to64();
        lemma_bit_test(index, 0);
    }
    while (index >> level) & 1 == 1
        invariant
            index < MAX_LEAVES,
            level <= 32,
            tree.frontier@.len() >= 32 * bit_length(index as nat),
            carried(tree.frontier@, index as nat, 0, leaf@) == carried(
                tree.frontier@,
                index as nat / pow2(level as nat),
                level as nat,
                node@,
            ),
        decreases 32 - level,
    {
        proof {
            lemma_bit_test(index, level);
            lemma_bit_within_length(index as nat, level as nat);
            merkle::lemma_halving(index as nat, level as nat);
            if level == 32 {
                lemma2_to64();
                lemma_basic_div(index as int, pow2(32) as int);
            }
        }
        node = hash_pair(&slot(&tree.frontier, level), &node);
        level += 1;
    }
    proof {
        lemma_bit_test(index, level);
        lemma_carry_levels(tree.frontier@, index as nat, 0, leaf@);
    }
    set_slot(&mut tree.frontier, level, &node);

    tree.count = index + 1;
    tree.root = compute_root(&tree.frontier, tree.count);
    proof {
        assert forall|leaves: Seq<Seq<u8>>|
            #![trigger frontier_commits(old(tree).frontier@, leaves)]
            index == leaves.len() && frontier_commits(
                old(tree).frontier@,
                leaves,
            ) implies tree.commits_to(leaves.push(leaf@)) by {
            lemma2_to64();
            lemma_appended_commits(old(tree).frontier@, leaves, leaf@);
            lemma_frontier_root(tree.frontier@, leaves.push(leaf@), 0, None);
        }
    }
    Ok(index)
}

/// Every batch proof over the inserted leaves verifies against the tree's root.
pub proof fn law_batch_proof_verifies(tree: IncrementalTree, leaves: Seq<Seq<u8>>, index: int)
    requires
        tree.commits_to(leaves),
        0 <= index < leaves.len(),
    ensures
        merkle::folded(leaves[index], merkle::batch_proof(leaves, index)) == tree.root@,
{
    merkle::law_batch_proof_folds_to_root(leaves, index);
}

/// Two trees over the same leaves have the same root, however they came about.
pub proof fn law_root_determined_by_leaves(
    a: IncrementalTree,
    b: IncrementalTree,
    leaves: Seq<Seq<u8>>,
)
    requires
        a.commits_to(leaves),
        b.commits_to(leaves),
        leaves.len() > 0,
    ensures
        a.root == b.root,
{
    assert(a.root =~= b.root);
}

/// The frontier holds `l` slots exactly when the count has `l` binary digits.
pub proof fn law_frontier_logarithmic(tree: IncrementalTree)
    requires
        tree.wf(),
        tree.count > 0,
    ensures
        tree.frontier@.len() >= 32,
        pow2((tree.frontier@.len() / 32 - 1) as nat) <= tree.count,
        tree.count < pow2((tree.frontier@.len() / 32) as nat),
{
    lemma_bit_length_bounds(tree.count as nat);
}

proof fn lemma_bit_length_bounds(n: nat)
    requires
        n > 0,
    ensures
        bit_length(n) > 0,
        pow2((bit_length(n) - 1) as nat) <= n < pow2(bit_length(n)),
    decreases n,
{
    lemma2_to64();
    if n > 1 {
        lemma_bit_length_bounds(n / 2);
        lemma_pow2_unfold(bit_length(n));
        lemma_pow2_unfold((bit_length(n) - 1) as nat);
    } else {
        reveal_with_fuel(bit_length, 2);
    }
}

/// A new leaf is carried up at most [`MAX_DEPTH`] levels.
pub proof fn law_carry_within_depth(tree: IncrementalTree, leaf: Seq<u8>)
    requires
        tree.count < MAX_LEAVES,
    ensures
        carried(tree.frontier@, tree.count as nat, 0, leaf).0 <= MAX_DEPTH,
{
    let n = tree.count as nat;
    lemma_carry_levels(tree.frontier@, n, 0, leaf);
    if n > 0 {
        lemma_bit_length_bounds(n);
        if bit_length(n) > 32 {
            lemma2_to64();
            if bit_length(n) > 33 {
                lemma_pow2_strictly_increases(32, (bit_length(n) - 1) as nat);
            }
        }
    }
}

/// [`frontier_root`], and how many nodes it hashes on the way.
pub open spec fn counted_root(
    frontier: Seq<u8>,
    complete: nat,
    k: nat,
    partial: Option<Seq<u8>>,
) -> (Seq<u8>, nat)
    decreases complete,
{
    if complete == 0 {
        (partial->0, 0)
    } else if complete == 1 && partial is None {
        (slot_at(frontier, k), 0)
    } else {
        let above = node_above(frontier, complete, k, partial);
        let (root, hashes) = counted_root(frontier, complete / 2, k + 1, above);
        (
            root,
            if above is Some {
                hashes + 1
            } else {
                hashes
            },
        )
    }
}

proof fn lemma_counted_root(
    frontier: Seq<u8>,
    complete: nat,
    k: nat,
    partial: Option<Seq<u8>>,
)
    ensures
        counted_root(frontier, complete, k, partial).0 == frontier_root(
            frontier,
            complete,
            k,
            partial,
        ),
        counted_root(frontier, complete, k, partial).1 <= bit_length(complete),
    decreases complete,
{
    if complete > 0 && !(complete == 1 && partial is None) {
        lemma_counted_root(
            frontier,
            complete / 2,
            k + 1,
            node_above(frontier, complete, k, partial),
        );
    }
}

proof fn lemma_full_tree_hashes_nothing(frontier: Seq<u8>, height: nat, k: nat)
    ensures
        counted_root(frontier, pow2(height), k, None).1 == 0,
    decreases height,
{
    lemma2_to64();
    if height > 0 {
        lemma_pow2_unfold(height);
        lemma_pow2_pos((height - 1) as nat);
        lemma_full_tree_hashes_nothing(frontier, (height - 1) as nat, k + 1);
    }
}

/// The root is derived from the frontier with at most [`MAX_DEPTH`] hashes.
pub proof fn law_root_within_depth(frontier: Seq<u8>, count: u64)
    requires
        0 < count <= MAX_LEAVES,
    ensures
        counted_root(frontier, count as nat, 0, None).0 == frontier_root(
            frontier,
            count as nat,
            0,
            None,
        ),
        counted_root(frontier, count as nat, 0, None).1 <= MAX_DEPTH,
{
    let n = count as nat;
    lemma2_to64();
    lemma_counted_root(frontier, n, 0, None);
    if count == MAX_LEAVES {
        lemma_full_tree_hashes_nothing(frontier, 32, 0);
    } else {
        lemma_bit_length_bounds(n);
        if bit_length(n) > 33 {
            lemma_pow2_strictly_increases(32, (bit_length(n) - 1) as nat);
        }
    }
}

/// A slot that was written is read back, the frontier grows by what the slot
/// needs and no more, and every byte outside of the slot stays as it was, so
/// that every other complete slot does.
pub proof fn law_slot_round_trip(frontier: Seq<u8>, k: nat, node: Seq<u8>)
    requires
        node.len() == 32,
        frontier.len() == 32 * k || frontier.len() >= 32 * k + 32,
    ensures
        slot_at(with_slot(frontier, k, node), k) == node,
        with_slot(frontier, k, node).len() == if frontier.len() >= 32 * k + 32 {
            frontier.len()
        } else {
            32 * k + 32
        },
        forall|i: int|
            0 <= i < frontier.len() && !(32 * k <= i < 32 * k + 32) ==> #[trigger] with_slot(
                frontier,
                k,
                node,
            )[i] == frontier[i],
        forall|j: nat|
            j != k && 32 * j + 32 <= frontier.len() ==> #[trigger] slot_at(
                with_slot(frontier, k, node),
                j,
            ) == slot_at(frontier, j),
{
    let new = with_slot(frontier, k, node);
    assert(slot_at(new, k) =~= node);
    assert forall|j: nat| j != k && 32 * j + 32 <= frontier.len() implies #[trigger] slot_at(new, j)
        == slot_at(frontier, j) by {
        assert(slot_at(new, j) =~= slot_at(frontier, j));
    }
}

/// `f` and `g` hold the same node in every slot whose bit is set in `count`.
pub open spec fn agree_on_set_bits(f: Seq<u8>, g: Seq<u8>, count: nat) -> bool {
    forall|k: nat|
        (#[trigger] (count / pow2(k))) % 2 == 1 ==> slot_at(f, k) == slot_at(g, k)
}

proof fn lemma_clear_slots_unread(
    f: Seq<u8>,
    g: Seq<u8>,
    count: nat,
    k: nat,
    partial: Option<Seq<u8>>,
    node: Seq<u8>,
)
    requires
        agree_on_set_bits(f, g, count),
    ensures
        frontier_root(f, count / pow2(k), k, partial) == frontier_root(
            g,
            count / pow2(k),
            k,
            partial,
        ),
        carried(f, count / pow2(k), k, node) == carried(g, count / pow2(k), k, node),
    decreases count / pow2(k),
{
    let complete = count / pow2(k);
    lemma_pow2_pos(k);
    lemma_div_pos_is_pos(count as int, pow2(k) as int);
    if complete > 0 {
        merkle::lemma_halving(count, k);
        lemma_clear_slots_unread(
            f,
            g,
            count,
            k + 1,
            node_above(f, complete, k, partial),
            merkle::parent(slot_at(f, k), node),
        );
    }
}

/// Only the slots whose bit is set in the count matter: whatever else two
/// frontiers hold, they give the same root, and carry a new leaf to the same
/// place as the same node.
pub proof fn law_clear_slots_do_not_matter(f: Seq<u8>, g: Seq<u8>, count: nat, leaf: Seq<u8>)
    requires
        agree_on_set_bits(f, g, count),
    ensures
        frontier_root(f, count, 0, None) == frontier_root(g, count, 0, None),
        carried(f, count, 0, leaf) == carried(g, count, 0, leaf),
{
    lemma2_to64();
    lemma_clear_slots_unread(f, g, count, 0, None, leaf);
}

/// Where the carry of leaf `count` ends, and what is left over there.
proof fn lemma_carry_place(frontier: Seq<u8>, count: nat, k: nat, node: Seq<u8>)
    requires
        (count + 1) % pow2(k) == 0,
        count / pow2(k) + 1 == (count + 1) / pow2(k),
    ensures
        ({
            let top = carried(frontier, count / pow2(k), k, node).0;
            &&& (count + 1) % pow2(top) == 0
            &&& count / pow2(top + 1) == (count + 1) / pow2(top + 1)
        }),
    decreases count / pow2(k),
{
    let complete = count / pow2(k);
    lemma_pow2_pos(k);
    lemma_div_pos_is_pos(count as int, pow2(k) as int);
    merkle::lemma_halving(count, k);
    merkle::lemma_halving(count + 1, k);
    if complete % 2 == 1 {
        let joined = merkle::parent(slot_at(frontier, k), node);
        lemma_carry_place(frontier, count, k + 1, joined);
    }
}

/// Frontiers that agree on the slots that matter go on to do so: after the
/// same leaf was inserted into both, they agree on the slots that matter then,
/// and give the same root.
pub proof fn law_clear_slots_never_matter(f: Seq<u8>, g: Seq<u8>, count: nat, leaf: Seq<u8>)
    requires
        agree_on_set_bits(f, g, count),
        f.len() >= 32 * bit_length(count),
        g.len() >= 32 * bit_length(count),
        carried(f, count, 0, leaf).1.len() == 32,
        ({
            let top = carried(f, count, 0, leaf).0;
            &&& f.len() == 32 * top || f.len() >= 32 * top + 32
            &&& g.len() == 32 * top || g.len() >= 32 * top + 32
        }),
    ensures
        ({
            let (top, peak) = carried(f, count, 0, leaf);
            let (after_f, after_g) = (with_slot(f, top, peak), with_slot(g, top, peak));
            &&& carried(g, count, 0, leaf) == (top, peak)
            &&& agree_on_set_bits(after_f, after_g, count + 1)
            &&& frontier_root(after_f, count + 1, 0, None) == frontier_root(
                after_g,
                count + 1,
                0,
                None,
            )
        }),
{
    let (top, peak) = carried(f, count, 0, leaf);
    let (after_f, after_g) = (with_slot(f, top, peak), with_slot(g, top, peak));
    lemma2_to64();
    law_clear_slots_do_not_matter(f, g, count, leaf);
    lemma_carry_place(f, count, 0, leaf);
    law_slot_round_trip(f, top, peak);
    law_slot_round_trip(g, top, peak);
    assert forall|k: nat| (#[trigger] ((count + 1) / pow2(k))) % 2 == 1 implies slot_at(after_f, k)
        == slot_at(after_g, k) by {
        if k < top {
            lemma_even_below(count + 1, k, top);
        } else if k > top {
            lemma_agree_above(count, count + 1, top + 1, k);
            assert((count / pow2(k)) % 2 == 1);
            lemma_pow2_pos(k);
            lemma_div_pos_is_pos(count as int, pow2(k) as int);
            lemma_bit_within_length(count, k);
        }
    }
    law_clear_slots_do_not_matter(after_f, after_g, count + 1, leaf);
}

/// The frontier keeps the digits of the count in whole slots of 32 bytes, and a
/// tree has room for `2^32` leaves.
pub proof fn law_frontier_layout(frontier: Seq<u8>, k: nat, i: int)
    requires
        32 * k + 32 <= frontier.len(),
        0 <= i < 32,
    ensures
        slot_at(frontier, k).len() == 32,
        slot_at(frontier, k)[i] == frontier[32 * k + i],
        MAX_DEPTH == 32,
        MAX_LEAVES == pow2(32),
{
    lemma2_to64();
}

/// The number of binary digits of a number, by the powers of two around it; a
/// tree's frontier has a slot for each of its count.
pub proof fn law_digits(tree: IncrementalTree)
    ensures
        bit_length(0) == 0,
        tree.count > 0 ==> {
            let digits = bit_length(tree.count as nat);
            &&& digits > 0
            &&& pow2((digits - 1) as nat) <= tree.count
            &&& tree.count < pow2(digits)
        },
        tree.wf() <==> tree.frontier@.len() == 32 * bit_length(tree.count as nat),
{
    if tree.count > 0 {
        lemma_bit_length_bounds(tree.count as nat);
    }
}

/// What it means that a tree is the one over `leaves`: it counts them, has their
/// batch root, and holds for every set bit of the count the last complete node
/// of that level.
pub proof fn law_tree_over_leaves(tree: IncrementalTree, leaves: Seq<Seq<u8>>, k: nat)
    ensures
        tree.commits_to(leaves) ==> {
            &&& tree.count == leaves.len()
            &&& leaves.len() > 0 ==> tree.root@ == merkle::batch_root(leaves)
            &&& (leaves.len() / pow2(k)) % 2 == 1 ==> 32 * k + 32 <= tree.frontier@.len()
                && tree.frontier@.subrange(32 * k as int, 32 * k as int + 32) == merkle::level(
                leaves,
                k,
            )[leaves.len() / pow2(k) - 1]
        },
{
}

/// A leaf that closes no subtree stays where it is; one that closes a subtree is
/// paired with it and carried on from the level above.
pub proof fn law_carry_steps(frontier: Seq<u8>, half: nat, k: nat, node: Seq<u8>)
    ensures
        carried(frontier, 2 * half, k, node) == (k, node),
        carried(frontier, 2 * half + 1, k, node) == carried(
            frontier,
            half,
            k + 1,
            merkle::parent(slot_at(frontier, k), node),
        ),
{
    assert((2 * half + 1) / 2 == half);
    assert((2 * half + 1) % 2 == 1);
}

/// The root of one complete node is that node; an incomplete node with nothing
/// before it is the root; else an odd complete node is paired with what stands
/// behind it, or with itself, and what is left over without one with itself.
pub proof fn law_root_steps(frontier: Seq<u8>, half: nat, k: nat, node: Seq<u8>)
    ensures
        ({
            let slot = slot_at(frontier, k);
            &&& frontier_root(frontier, 0, k, Some(node)) == node
            &&& frontier_root(frontier, 1, k, None) == slot
            &&& half > 0 ==> frontier_root(frontier, 2 * half, k, None) == frontier_root(
                frontier,
                half,
                k + 1,
                None,
            )
            &&& half > 0 ==> frontier_root(frontier, 2 * half + 1, k, None) == frontier_root(
                frontier,
                half,
                k + 1,
                Some(merkle::parent(slot, slot)),
            )
            &&& half > 0 ==> frontier_root(frontier, 2 * half, k, Some(node)) == frontier_root(
                frontier,
                half,
                k + 1,
                Some(merkle::parent(node, node)),
            )
            &&& frontier_root(frontier, 2 * half + 1, k, Some(node)) == frontier_root(
                frontier,
                half,
                k + 1,
                Some(merkle::parent(slot, node)),
            )
        }),
{
    assert((2 * half + 1) / 2 == half);
    assert((2 * half + 1) % 2 == 1);
}

/// All that an insertion asks of a frontier: a slot for every digit of the
/// count, and, where the new count has one digit more, no part of a slot behind
/// them.
pub proof fn law_what_is_asked(tree: IncrementalTree)
    ensures
        ({
            let (digits, length) = (bit_length(tree.count as nat), tree.frontier@.len());
            let grows = bit_length((tree.count + 1) as nat) == digits + 1;
            tree.usable() <==> {
                &&& length >= 32 * digits
                &&& grows ==> !(32 * digits < length < 32 * digits + 32)
            }
        }),
{
    lemma_carry_levels(tree.frontier@, tree.count as nat, 0, seq![]);
}

} // verus!
