//! Byte strings: their lexicographic order, and the numbers they encode.

use vstd::arithmetic::div_mod::*;
use vstd::arithmetic::power2::*;
use vstd::prelude::*;

verus! {

/// The outcome of comparing two values of an ordered type.
#[derive(Clone, Copy, Debug, PartialEq, Eq, Structural)]
pub enum Rank {
    Less,
    Equal,
    Greater,
}

/// `a` and `b` agree before position `k`, where `a` ends or holds the smaller byte.
pub open spec fn smaller_at(a: Seq<u8>, b: Seq<u8>, k: int) -> bool {
    &&& 0 <= k <= a.len()
    &&& k < b.len()
    &&& forall|j: int| 0 <= j < k ==> a[j] == b[j]
    &&& k == a.len() || a[k] < b[k]
}

/// `a` precedes `b` in the lexicographic order of byte strings.
pub open spec fn lex_before(a: Seq<u8>, b: Seq<u8>) -> bool {
    exists|k: int| smaller_at(a, b, k)
}

/// No byte string precedes itself.
pub proof fn lemma_lex_irreflexive(a: Seq<u8>)
    ensures
        !lex_before(a, a),
{
}

/// The lexicographic order is transitive.
pub proof fn lemma_lex_transitive(a: Seq<u8>, b: Seq<u8>, c: Seq<u8>)
    requires
        lex_before(a, b),
        lex_before(b, c),
    ensures
        lex_before(a, c),
{
    let i = choose|k: int| smaller_at(a, b, k);
    let j = choose|k: int| smaller_at(b, c, k);
    let k = if i <= j {
        i
    } else {
        j
    };
    assert(smaller_at(a, c, k));
}

/// Two byte strings do not precede each other.
pub proof fn lemma_lex_asymmetric(a: Seq<u8>, b: Seq<u8>)
    requires
        lex_before(a, b),
    ensures
        !lex_before(b, a),
{
    if lex_before(b, a) {
        lemma_lex_transitive(a, b, a);
        lemma_lex_irreflexive(a);
    }
}

/// Of two different byte strings, one precedes the other.
pub proof fn lemma_lex_total(a: Seq<u8>, b: Seq<u8>)
    requires
        a != b,
    ensures
        lex_before(a, b) || lex_before(b, a),
{
    lemma_lex_total_from(a, b, 0);
}

proof fn lemma_lex_total_from(a: Seq<u8>, b: Seq<u8>, from: int)
    requires
        a != b,
        0 <= from <= a.len(),
        from <= b.len(),
        forall|j: int| 0 <= j < from ==> a[j] == b[j],
    ensures
        lex_before(a, b) || lex_before(b, a),
    decreases a.len() - from,
{
    if from == a.len() && from == b.len() {
        assert(a =~= b);
    } else if from == a.len() {
        assert(smaller_at(a, b, from));
    } else if from == b.len() {
        assert(smaller_at(b, a, from));
    } else if a[from] < b[from] {
        assert(smaller_at(a, b, from));
    } else if a[from] > b[from] {
        assert(smaller_at(b, a, from));
    } else {
        lemma_lex_total_from(a, b, from + 1);
    }
}

/// Compares two 32-byte strings in lexicographic order.
pub fn lex_rank(a: &[u8; 32], b: &[u8; 32]) -> (rank: Rank)
    ensures
        match rank {
            Rank::Less => lex_before(a@, b@),
            Rank::Equal => *a == *b,
            Rank::Greater => lex_before(b@, a@),
        },
{
    let mut i: usize = 0;
    while i < 32
        invariant
            i <= 32,
            forall|j: int| 0 <= j < i ==> a@[j] == b@[j],
        decreases 32 - i,
    {
        if a[i] < b[i] {
            assert(smaller_at(a@, b@, i as int));
            return Rank::Less;
        }
        if a[i] > b[i] {
            assert(smaller_at(b@, a@, i as int));
            return Rank::Greater;
        }
        i += 1;
    }
    assert(*a =~= *b);
    Rank::Equal
}

/// `value` in `width` bytes, most significant byte first.
pub open spec fn be_bytes(value: nat, width: nat) -> Seq<u8>
    decreases width,
{
    if width == 0 {
        seq![]
    } else {
        be_bytes(value / 256, (width - 1) as nat).push((value % 256) as u8)
    }
}

/// The numbers that fit in `width` bytes.
pub open spec fn byte_range(width: nat) -> nat
    decreases width,
{
    if width == 0 {
        1
    } else {
        256 * byte_range((width - 1) as nat)
    }
}

pub proof fn lemma_be_bytes_len(value: nat, width: nat)
    ensures
        be_bytes(value, width).len() == width,
    decreases width,
{
    if width > 0 {
        lemma_be_bytes_len(value / 256, (width - 1) as nat);
    }
}

/// Numbers that fit are told apart by their bytes.
pub proof fn lemma_be_bytes_injective(a: nat, b: nat, width: nat)
    requires
        a < byte_range(width),
        b < byte_range(width),
        be_bytes(a, width) == be_bytes(b, width),
    ensures
        a == b,
    decreases width,
{
    if width > 0 {
        let below = (width - 1) as nat;
        let x = be_bytes(a, width);
        let y = be_bytes(b, width);
        assert(x.last() == y.last());
        assert(be_bytes(a / 256, below) =~= x.drop_last());
        assert(be_bytes(b / 256, below) =~= y.drop_last());
        lemma_be_bytes_injective(a / 256, b / 256, below);
    }
}

/// `value` as eight bytes, most significant byte first.
pub fn u64_to_be(value: u64) -> (out: Vec<u8>)
    ensures
        out@ == be_bytes(value as nat, 8),
{
    be_digits(value, 8)
}

fn be_digits(value: u64, width: usize) -> (out: Vec<u8>)
    ensures
        out@ == be_bytes(value as nat, width as nat),
    decreases width,
{
    if width == 0 {
        Vec::new()
    } else {
        let mut out = be_digits(value / 256, width - 1);
        out.push((value % 256) as u8);
        out
    }
}

/// Of two byte strings of one length, the one with the smaller byte at the first
/// difference comes first.
pub proof fn law_lex_order(a: Seq<u8>, b: Seq<u8>)
    requires
        a.len() == b.len(),
    ensures
        lex_before(a, b) <==> exists|k: int|
            0 <= k < a.len() && a[k] < b[k] && #[trigger] a.take(k) == b.take(k),
{
    if lex_before(a, b) {
        let k = choose|k: int| smaller_at(a, b, k);
        assert(a.take(k) =~= b.take(k));
    }
    if exists|k: int| 0 <= k < a.len() && a[k] < b[k] && #[trigger] a.take(k) == b.take(k) {
        let k = choose|k: int|
            0 <= k < a.len() && a[k] < b[k] && #[trigger] a.take(k) == b.take(k);
        assert forall|j: int| 0 <= j < k implies a[j] == b[j] by {
            assert(a.take(k)[j] == b.take(k)[j]);
        }
        assert(smaller_at(a, b, k));
    }
}

/// Byte `i` of `width` holds the digit that counts `2^(8 (width - 1 - i))`.
pub proof fn law_be_digits(value: nat, width: nat, i: int)
    requires
        0 <= i < width,
    ensures
        be_bytes(value, width).len() == width,
        be_bytes(value, width)[i] == (value / pow2((8 * (width - 1 - i)) as nat)) % 256,
    decreases width,
{
    let below = (width - 1) as nat;
    lemma_be_bytes_len(value, width);
    lemma_be_bytes_len(value / 256, below);
    lemma2_to64();
    if i == width - 1 {
        assert(pow2(0) == 1);
        assert(value / 1 == value);
        assert(be_bytes(value, width)[i] == (value % 256) as u8);
    } else {
        let rest = (8 * (below - 1 - i)) as nat;
        law_be_digits(value / 256, below, i);
        lemma_pow2_adds(8, rest);
        lemma_pow2_pos(rest);
        assert(8 + rest == (8 * (width - 1 - i)) as nat);
        assert(pow2(8) == 256);
        lemma_div_denominator(value as int, 256, pow2(rest) as int);
        assert(be_bytes(value, width)[i] == be_bytes(value / 256, below)[i]);
    }
}

} // verus!
