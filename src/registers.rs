//! The register array: how a 64-bit hash is split into a bucket index and a
//! rank, and how registers are raised by insertion and by merge.
use vstd::arithmetic::power2::{
    lemma2_to64, lemma_pow2_adds, lemma_pow2_pos, lemma_pow2_strictly_increases, lemma_pow2_unfold,
    pow2,
};
use vstd::bits::{lemma_u64_pow2_no_overflow, lemma_u64_shl_is_mul, lemma_u64_shr_is_div};
use vstd::prelude::*;
use vstd::std_specs::bits::u64_leading_zeros;

verus! {

/// Smallest accepted precision.
pub const MIN_PRECISION: u8 = 4;

/// Largest accepted precision.
pub const MAX_PRECISION: u8 = 18;

/// Whether `p` is an accepted precision.
pub open spec fn valid_precision(p: nat) -> bool {
    MIN_PRECISION <= p <= MAX_PRECISION
}

/// Number of registers of a sketch of precision `p`.
pub open spec fn register_count(p: nat) -> nat {
    pow2(p)
}

/// Width of the part of a hash that is not used to pick the bucket.
pub open spec fn rank_width(p: nat) -> nat {
    (64 - p) as nat
}

/// Number of significant bits of `x` (zero for zero).
pub open spec fn bit_length(x: nat) -> nat
    decreases x,
{
    if x == 0 {
        0
    } else {
        1 + bit_length(x / 2)
    }
}

/// The bucket of a hash: its top `p` bits read as an unsigned integer.
pub open spec fn bucket_of(hash: u64, p: nat) -> nat {
    hash as nat / pow2(rank_width(p))
}

/// The rank of a hash: one more than the number of leading zeros of its low
/// `64 - p` bits, read as a `64 - p`-bit number. An all-zero remainder has
/// rank `64 - p + 1`, the largest rank there is.
pub open spec fn rank_of(hash: u64, p: nat) -> nat {
    let w = rank_width(p);
    1 + (w - bit_length(hash as nat % pow2(w))) as nat
}

/// The registers after a hash is inserted: its bucket's register is raised to
/// its rank, and no other register changes.
pub open spec fn with_hash(regs: Seq<u8>, p: nat, hash: u64) -> Seq<u8> {
    let i = bucket_of(hash, p) as int;
    if (regs[i] as nat) < rank_of(hash, p) {
        regs.update(i, rank_of(hash, p) as u8)
    } else {
        regs
    }
}

/// The registers of a merge: the larger of the two values at each index.
pub open spec fn elementwise_max(a: Seq<u8>, b: Seq<u8>) -> Seq<u8> {
    Seq::new(a.len(), |i: int| if a[i] >= b[i] { a[i] } else { b[i] })
}

/// Every value is a register that a sketch of precision `p` can hold.
pub open spec fn registers_in_range(regs: Seq<u8>, p: nat) -> bool {
    forall|i: int| 0 <= i < regs.len() ==> #[trigger] regs[i] <= rank_width(p) + 1
}

/// A register array of precision `p`: the right length, every value a rank.
pub open spec fn valid_registers(regs: Seq<u8>, p: nat) -> bool {
    &&& valid_precision(p)
    &&& regs.len() == register_count(p)
    &&& registers_in_range(regs, p)
}

proof fn lemma_bit_length_bound(x: nat, n: nat)
    requires
        x < pow2(n),
    ensures
        bit_length(x) <= n,
    decreases n,
{
    if x > 0 {
        lemma2_to64();
        assert(n > 0);
        lemma_pow2_unfold(n);
        assert(x / 2 < pow2((n - 1) as nat));
        lemma_bit_length_bound(x / 2, (n - 1) as nat);
    }
}

proof fn lemma_leading_zeros_bit_length(x: u64)
    ensures
        u64_leading_zeros(x) == 64 - bit_length(x as nat),
    decreases x,
{
    reveal(u64_leading_zeros);
    if x != 0 {
        lemma_leading_zeros_bit_length(x / 2);
    }
}

/// The bucket of a hash indexes the register array, and its rank is a
/// register value in range.
pub proof fn lemma_split_in_range(hash: u64, p: nat)
    requires
        valid_precision(p),
    ensures
        bucket_of(hash, p) < register_count(p),
        register_count(p) <= 0x40000,
        1 <= rank_of(hash, p) <= rank_width(p) + 1,
{
    let w = rank_width(p);
    lemma_pow2_adds(p, w);
    lemma2_to64();
    lemma_pow2_pos(w);
    if p < 18 {
        lemma_pow2_strictly_increases(p, 18);
    }
    assert(pow2(w) * pow2(p) == pow2(64)) by (nonlinear_arith)
        requires
            pow2(p) * pow2(w) == pow2(64),
    ;
    vstd::arithmetic::div_mod::lemma_mod_bound(hash as int, pow2(w) as int);
    lemma_bit_length_bound(hash as nat % pow2(w), w);
    vstd::arithmetic::div_mod::lemma_multiply_divide_lt(hash as int, pow2(w) as int, pow2(p) as int);
}

/// Splits a hash into its bucket index and its rank.
pub fn split_hash(hash: u64, p: u8) -> (r: (usize, u8))
    requires
        valid_precision(p as nat),
    ensures
        r.0 as nat == bucket_of(hash, p as nat),
        r.1 as nat == rank_of(hash, p as nat),
        r.0 < register_count(p as nat),
        1 <= r.1 <= rank_width(p as nat) + 1,
{
    let w: u64 = 64 - p as u64;
    proof {
        lemma_split_in_range(hash, p as nat);
        lemma_u64_shr_is_div(hash, w);
        lemma_u64_pow2_no_overflow(w as nat);
        lemma_u64_shl_is_mul(1, w);
    }
    let bucket: u64 = hash >> w;
    let span: u64 = 1u64 << w;
    let remainder: u64 = hash % span;
    let zeros: u32 = remainder.leading_zeros();
    proof {
        lemma_leading_zeros_bit_length(remainder);
        lemma_bit_length_bound(remainder as nat, w as nat);
    }
    let rank: u8 = (zeros - p as u32 + 1) as u8;
    (bucket as usize, rank)
}

/// Raises the register of `hash`'s bucket to the hash's rank.
pub fn insert_hash_into(regs: &mut Vec<u8>, p: u8, hash: u64)
    requires
        valid_registers(old(regs)@, p as nat),
    ensures
        final(regs)@ == with_hash(old(regs)@, p as nat, hash),
        valid_registers(final(regs)@, p as nat),
{
    let (bucket, rank) = split_hash(hash, p);
    if regs[bucket] < rank {
        regs.set(bucket, rank);
    }
}

/// Raises each register of `a` to the matching register of `b`.
pub fn merge_into(a: &mut Vec<u8>, b: &Vec<u8>)
    requires
        old(a)@.len() == b@.len(),
    ensures
        final(a)@ == elementwise_max(old(a)@, b@),
{
    let n = a.len();
    let mut i: usize = 0;
    while i < n
        invariant
            n == a@.len(),
            n == b@.len(),
            i <= n,
            n == old(a)@.len(),
            forall|j: int|
                0 <= j < i ==> #[trigger] a@[j] == (if old(a)@[j] >= b@[j] {
                    old(a)@[j]
                } else {
                    b@[j]
                }),
            forall|j: int| i <= j < n ==> #[trigger] a@[j] == old(a)@[j],
        decreases n - i,
    {
        if a[i] < b[i] {
            a.set(i, b[i]);
        }
        i = i + 1;
    }
    assert(a@ =~= elementwise_max(old(a)@, b@));
}

/// The registers of the hashes `hashes`, inserted in order into an empty
/// array of precision `p`.
pub open spec fn registers_of(hashes: Seq<u64>, p: nat) -> Seq<u8>
    decreases hashes.len(),
{
    if hashes.len() == 0 {
        Seq::new(register_count(p), |i: int| 0u8)
    } else {
        with_hash(registers_of(hashes.drop_last(), p), p, hashes.last())
    }
}

/// Inserting a hash a second time changes nothing.
pub proof fn lemma_insert_idempotent(regs: Seq<u8>, p: nat, hash: u64)
    requires
        valid_registers(regs, p),
    ensures
        with_hash(with_hash(regs, p, hash), p, hash) == with_hash(regs, p, hash),
{
    lemma_split_in_range(hash, p);
}

/// Merge is commutative.
pub proof fn lemma_merge_commutative(a: Seq<u8>, b: Seq<u8>)
    requires
        a.len() == b.len(),
    ensures
        elementwise_max(a, b) == elementwise_max(b, a),
{
    assert(elementwise_max(a, b) =~= elementwise_max(b, a));
}

/// Merge is associative.
pub proof fn lemma_merge_associative(a: Seq<u8>, b: Seq<u8>, c: Seq<u8>)
    requires
        a.len() == b.len(),
        b.len() == c.len(),
    ensures
        elementwise_max(elementwise_max(a, b), c) == elementwise_max(a, elementwise_max(b, c)),
{
    assert(elementwise_max(elementwise_max(a, b), c) =~= elementwise_max(a, elementwise_max(b, c)));
}

/// Merging an array with itself leaves it as it is.
pub proof fn lemma_merge_idempotent(a: Seq<u8>)
    ensures
        elementwise_max(a, a) == a,
{
    assert(elementwise_max(a, a) =~= a);
}

/// Merge is set union: the merge of the arrays of two hash streams is the
/// array of the two streams one after the other.
pub proof fn lemma_merge_is_union(xs: Seq<u64>, ys: Seq<u64>, p: nat)
    requires
        valid_precision(p),
    ensures
        registers_of(xs + ys, p) == elementwise_max(registers_of(xs, p), registers_of(ys, p)),
    decreases ys.len(),
{
    lemma_registers_of_len(xs, p);
    lemma_registers_of_len(ys, p);
    if ys.len() == 0 {
        assert(xs + ys =~= xs);
        assert(elementwise_max(registers_of(xs, p), registers_of(ys, p)) =~= registers_of(xs, p));
    } else {
        let h = ys.last();
        let ys0 = ys.drop_last();
        assert((xs + ys).drop_last() =~= xs + ys0);
        lemma_merge_is_union(xs, ys0, p);
        lemma_registers_of_len(ys0, p);
        lemma_split_in_range(h, p);
        let a = registers_of(xs, p);
        let b = registers_of(ys0, p);
        assert(with_hash(elementwise_max(a, b), p, h) =~= elementwise_max(a, with_hash(b, p, h)));
    }
}

proof fn lemma_registers_of_len(hashes: Seq<u64>, p: nat)
    requires
        valid_precision(p),
    ensures
        registers_of(hashes, p).len() == register_count(p),
    decreases hashes.len(),
{
    if hashes.len() > 0 {
        lemma_registers_of_len(hashes.drop_last(), p);
        lemma_split_in_range(hashes.last(), p);
    }
}

} // verus!
