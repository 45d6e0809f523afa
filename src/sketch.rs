use vstd::prelude::*;
use vstd::arithmetic::power2::pow2;
use vstd::std_specs::bits::u32_leading_zeros;

verus! {

broadcast use vstd::std_specs::bits::axiom_u32_leading_zeros;

/// Width of a hash value in bits.
pub const HASH_BITS: u32 = 32;

/// Number of buckets of a sketch with bucket-count exponent `b`.
pub open spec fn bucket_count(b: u32) -> nat {
    pow2(b as nat)
}

/// Bucket of a hash: its top `b` bits.
pub open spec fn bucket_of(h: u32, b: u32) -> u32 {
    h >> ((HASH_BITS - b) as u32)
}

/// Rank of a hash: one more than the number of leading zeros of the bits
/// left once the top `b` bits are shifted out.
pub open spec fn rank_of(h: u32, b: u32) -> u32 {
    (u32_leading_zeros(h << b) + 1) as u32
}

/// The register vector after the hashes `hs` have been recorded, in order,
/// into `bucket_count(b)` registers that start at zero.
pub open spec fn registers(hs: Seq<u32>, b: u32) -> Seq<u32>
    decreases hs.len(),
{
    if hs.len() == 0 {
        Seq::new(bucket_count(b), |j: int| 0u32)
    } else {
        let prev = registers(hs.drop_last(), b);
        let h = hs.last();
        let j = bucket_of(h, b) as int;
        let r = rank_of(h, b);
        prev.update(j, if prev[j] >= r { prev[j] } else { r })
    }
}

/// Every hash falls into one of the `bucket_count(b)` buckets.
pub proof fn lemma_bucket_in_range(h: u32, b: u32)
    requires
        1 <= b <= 31,
    ensures
        (bucket_of(h, b) as nat) < bucket_count(b),
{
    vstd::bits::lemma_u32_pow2_no_overflow(b as nat);
    vstd::bits::lemma_u32_shl_is_mul(1u32, b);
    assert((h >> ((32u32 - b) as u32)) < (1u32 << b)) by (bit_vector)
        requires
            1 <= b <= 31,
    ;
}

/// A rank lies in `[1, 33]`.
pub proof fn lemma_rank_bounds(h: u32, b: u32)
    ensures
        1 <= rank_of(h, b) <= 33,
{
}

/// The register vector always has one register per bucket.
pub proof fn lemma_registers_len(hs: Seq<u32>, b: u32)
    requires
        1 <= b <= 31,
    ensures
        registers(hs, b).len() == bucket_count(b),
    decreases hs.len(),
{
    if hs.len() > 0 {
        lemma_registers_len(hs.drop_last(), b);
        lemma_bucket_in_range(hs.last(), b);
    }
}

/// Each register is the largest rank among the hashes that fall into its
/// bucket, and zero exactly when no hash falls into it.
pub proof fn lemma_register_is_max_rank(hs: Seq<u32>, b: u32, j: int)
    requires
        1 <= b <= 31,
        0 <= j < bucket_count(b),
    ensures
        forall|i: int|
            0 <= i < hs.len() && bucket_of(hs[i], b) == j ==> rank_of(#[trigger] hs[i], b)
                <= registers(hs, b)[j],
        registers(hs, b)[j] == 0 <==> (forall|i: int|
            0 <= i < hs.len() ==> bucket_of(#[trigger] hs[i], b) != j),
        registers(hs, b)[j] != 0 ==> exists|i: int|
            0 <= i < hs.len() && bucket_of(#[trigger] hs[i], b) == j && rank_of(hs[i], b)
                == registers(hs, b)[j],
    decreases hs.len(),
{
    lemma_registers_len(hs, b);
    if hs.len() > 0 {
        let prev = hs.drop_last();
        lemma_register_is_max_rank(prev, b, j);
        lemma_registers_len(prev, b);
        lemma_bucket_in_range(hs.last(), b);
        lemma_rank_bounds(hs.last(), b);
        let n = hs.len() - 1;
        assert forall|i: int| 0 <= i < n implies #[trigger] hs[i] == prev[i] by {}
        if registers(hs, b)[j] != 0 {
            if registers(hs, b)[j] == registers(prev, b)[j] {
                let i = choose|i: int|
                    0 <= i < prev.len() && bucket_of(#[trigger] prev[i], b) == j && rank_of(prev[i], b)
                        == registers(prev, b)[j];
                assert(hs[i] == prev[i]);
            } else {
                assert(bucket_of(hs[n], b) == j && rank_of(hs[n], b) == registers(hs, b)[j]);
            }
        }
    }
}

/// Every register is either zero or a rank in `[1, 33]`.
pub proof fn lemma_registers_bounded(hs: Seq<u32>, b: u32)
    requires
        1 <= b <= 31,
    ensures
        registers(hs, b).len() == bucket_count(b),
        forall|j: int|
            0 <= j < bucket_count(b) ==> #[trigger] registers(hs, b)[j] == 0 || 1 <= registers(
                hs,
                b,
            )[j] <= 33,
    decreases hs.len(),
{
    lemma_registers_len(hs, b);
    if hs.len() > 0 {
        lemma_registers_bounded(hs.drop_last(), b);
        lemma_bucket_in_range(hs.last(), b);
        lemma_rank_bounds(hs.last(), b);
    }
}

/// Recording more hashes never lowers a register: the registers after any
/// prefix of the hashes are at most the registers after all of them.
pub proof fn lemma_registers_grow(hs: Seq<u32>, n: int, b: u32)
    requires
        1 <= b <= 31,
        0 <= n <= hs.len(),
    ensures
        forall|j: int|
            0 <= j < bucket_count(b) ==> #[trigger] registers(hs.subrange(0, n), b)[j] <= registers(
                hs,
                b,
            )[j],
    decreases hs.len() - n,
{
    if n < hs.len() {
        let next = hs.subrange(0, n + 1);
        lemma_registers_grow(hs, n + 1, b);
        assert(next.drop_last() =~= hs.subrange(0, n));
        lemma_registers_len(hs.subrange(0, n), b);
        lemma_bucket_in_range(next.last(), b);
        assert forall|j: int| 0 <= j < bucket_count(b) implies #[trigger] registers(
            hs.subrange(0, n),
            b,
        )[j] <= registers(hs, b)[j] by {
            assert(registers(hs.subrange(0, n), b)[j] <= registers(next, b)[j]);
        }
    } else {
        assert(hs.subrange(0, n) =~= hs);
    }
}

/// The registers depend only on which hashes were recorded, not on their
/// order nor on how often each was repeated.
pub proof fn lemma_registers_order_independent(hs1: Seq<u32>, hs2: Seq<u32>, b: u32)
    requires
        1 <= b <= 31,
        hs1.to_set() == hs2.to_set(),
    ensures
        registers(hs1, b) == registers(hs2, b),
{
    lemma_registers_len(hs1, b);
    lemma_registers_len(hs2, b);
    assert forall|j: int| 0 <= j < bucket_count(b) implies registers(hs1, b)[j] == registers(
        hs2,
        b,
    )[j] by {
        lemma_register_is_max_rank(hs1, b, j);
        lemma_register_is_max_rank(hs2, b, j);
        lemma_registers_at_most(hs1, hs2, b, j);
        lemma_registers_at_most(hs2, hs1, b, j);
    }
    assert(registers(hs1, b) =~= registers(hs2, b));
}

proof fn lemma_registers_at_most(hs1: Seq<u32>, hs2: Seq<u32>, b: u32, j: int)
    requires
        1 <= b <= 31,
        0 <= j < bucket_count(b),
        hs1.to_set() == hs2.to_set(),
    ensures
        registers(hs2, b)[j] <= registers(hs1, b)[j],
{
    lemma_register_is_max_rank(hs1, b, j);
    lemma_register_is_max_rank(hs2, b, j);
    if registers(hs2, b)[j] != 0 {
        let i2 = choose|i: int|
            0 <= i < hs2.len() && bucket_of(#[trigger] hs2[i], b) == j && rank_of(hs2[i], b)
                == registers(hs2, b)[j];
        assert(hs2.to_set().contains(hs2[i2]));
        assert(hs1.contains(hs2[i2]));
        let i1 = choose|i: int| 0 <= i < hs1.len() && hs1[i] == hs2[i2];
        assert(bucket_of(hs1[i1], b) == j);
    }
}

/// Whether `hs` are the hashes that `hash_fn` may give for `items`, one for one.
pub open spec fn hashes_of<F: Fn(&String) -> u32>(hash_fn: F, items: Seq<String>, hs: Seq<u32>) -> bool {
    &&& hs.len() == items.len()
    &&& forall|i: int| 0 <= i < items.len() ==> call_ensures(hash_fn, (&items[i],), #[trigger] hs[i])
}

/// Records one hash into the registers: the register of its bucket becomes
/// the larger of its old value and the hash's rank.
fn record_hash(regs: &mut Vec<u32>, h: u32, b: u32)
    requires
        1 <= b <= 31,
        old(regs)@.len() == bucket_count(b),
    ensures
        final(regs)@ == ({
            let j = bucket_of(h, b) as int;
            let r = rank_of(h, b);
            old(regs)@.update(j, if old(regs)@[j] >= r { old(regs)@[j] } else { r })
        }),
{
    proof {
        lemma_bucket_in_range(h, b);
    }
    let j = (h >> (HASH_BITS - b)) as usize;
    let w = h << b;
    let r = rho(w);
    if regs[j] < r {
        regs.set(j, r);
    }
}

/// Builds the `2^b` zeroed registers.
fn empty_registers(b: u32) -> (regs: Vec<u32>)
    requires
        1 <= b <= 31,
    ensures
        regs@ == registers(Seq::empty(), b),
{
    proof {
        vstd::bits::lemma_u32_pow2_no_overflow(b as nat);
        vstd::bits::lemma_usize_shl_is_mul(1usize, b as usize);
    }
    let m: usize = 1usize << (b as usize);
    let regs: Vec<u32> = vec![0u32; m];
    assert(regs@ =~= registers(Seq::empty(), b));
    regs
}

/// Fills `2^b` registers from already computed hash values.
pub fn fill_buckets_from_hashes(hashes: &Vec<u32>, b: u32) -> (regs: Vec<u32>)
    requires
        1 <= b <= 31,
    ensures
        regs@ == registers(hashes@, b),
{
    let mut regs = empty_registers(b);
    let mut i: usize = 0;
    while i < hashes.len()
        invariant
            1 <= b <= 31,
            i <= hashes@.len(),
            regs@ == registers(hashes@.subrange(0, i as int), b),
        decreases hashes@.len() - i,
    {
        proof {
            lemma_registers_len(hashes@.subrange(0, i as int), b);
            assert(hashes@.subrange(0, i + 1).drop_last() =~= hashes@.subrange(0, i as int));
        }
        record_hash(&mut regs, hashes[i], b);
        i += 1;
    }
    assert(hashes@.subrange(0, i as int) =~= hashes@);
    regs
}

/// Fills `2^b` registers from the items, each hashed with `hash_fn`.
pub fn fill_buckets<F: Fn(&String) -> u32>(items: &Vec<String>, b: u32, hash_fn: F) -> (regs: Vec<u32>)
    requires
        1 <= b <= 31,
        forall|s: &String| call_requires(hash_fn, (s,)),
    ensures
        exists|hs: Seq<u32>| hashes_of(hash_fn, items@, hs) && regs@ == registers(hs, b),
{
    let mut regs = empty_registers(b);
    let ghost mut hs: Seq<u32> = Seq::empty();
    let mut i: usize = 0;
    while i < items.len()
        invariant
            1 <= b <= 31,
            forall|s: &String| call_requires(hash_fn, (s,)),
            i <= items@.len(),
            hashes_of(hash_fn, items@.subrange(0, i as int), hs),
            regs@ == registers(hs, b),
        decreases items@.len() - i,
    {
        let h = hash_fn(&items[i]);
        proof {
            lemma_registers_len(hs, b);
        }
        record_hash(&mut regs, h, b);
        proof {
            let hs2 = hs.push(h);
            assert(hs2.drop_last() =~= hs);
            let its = items@.subrange(0, i + 1);
            assert forall|k: int| 0 <= k < its.len() implies call_ensures(hash_fn, (&its[k],), #[trigger] hs2[k]) by {
                if k < i {
                    assert(its[k] == items@.subrange(0, i as int)[k]);
                }
            }
            hs = hs2;
        }
        i += 1;
    }
    assert(items@.subrange(0, i as int) =~= items@);
    regs
}

/// Number of leading zero bits of `s`, plus one.
pub fn rho(s: u32) -> (r: u32)
    ensures
        r == u32_leading_zeros(s) + 1,
        1 <= r <= 33,
{
    s.leading_zeros() + 1
}

} // verus!
