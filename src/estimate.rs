use vstd::prelude::*;
use vstd::arithmetic::power2::{pow2, lemma2_to64, lemma2_to64_rest, lemma_pow2_strictly_increases};
use crate::hashing::{hash_text, murmur_oaat};
use crate::sketch::{bucket_count, fill_buckets, hashes_of, lemma_registers_bounded, registers};

verus! {

/// `2^33`: the harmonic sum is kept as an integer multiple of `2^-33`.
pub const HARMONIC_SCALE: u64 = 0x2_0000_0000;

/// `2^32`: the size of the hash space.
pub const HASH_SPACE: u64 = 0x1_0000_0000;

/// Sum of the registers.
pub open spec fn register_total(regs: Seq<u32>) -> int
    decreases regs.len(),
{
    if regs.len() == 0 {
        0
    } else {
        register_total(regs.drop_last()) + regs.last()
    }
}

/// Harmonic sum of the registers, `sum of 2^-r`, scaled by `2^33`:
/// `sum of 2^(33 - r)`.
pub open spec fn harmonic_total(regs: Seq<u32>) -> int
    decreases regs.len(),
{
    if regs.len() == 0 {
        0
    } else {
        harmonic_total(regs.drop_last()) + pow2((33 - regs.last()) as nat)
    }
}

/// Number of registers that are not zero.
pub open spec fn non_empty_total(regs: Seq<u32>) -> int
    decreases regs.len(),
{
    if regs.len() == 0 {
        0
    } else {
        non_empty_total(regs.drop_last()) + if regs.last() > 0 { 1int } else { 0int }
    }
}

/// Whether every register is at most 33, the largest rank.
pub open spec fn ranks_bounded(regs: Seq<u32>) -> bool {
    forall|j: int| 0 <= j < regs.len() ==> #[trigger] regs[j] <= 33
}

/// Sum of all registers, the numerator of the LogLog mean.
pub fn register_sum(regs: &Vec<u32>) -> (r: u64)
    requires
        regs@.len() <= 0x8000_0000,
        ranks_bounded(regs@),
    ensures
        r == register_total(regs@),
{
    let mut acc: u64 = 0;
    let mut i: usize = 0;
    while i < regs.len()
        invariant
            i <= regs@.len() <= 0x8000_0000,
            ranks_bounded(regs@),
            acc == register_total(regs@.subrange(0, i as int)),
            acc <= 33 * i,
        decreases regs@.len() - i,
    {
        assert(regs@.subrange(0, i + 1).drop_last() =~= regs@.subrange(0, i as int));
        acc = acc + regs[i] as u64;
        i += 1;
    }
    assert(regs@.subrange(0, i as int) =~= regs@);
    acc
}

/// Harmonic sum of the registers scaled by `2^33`, so that every term
/// `2^-r` is the integer `2^(33 - r)`.
pub fn harmonic_sum(regs: &Vec<u32>) -> (r: u64)
    requires
        regs@.len() <= 0x1_0000,
        ranks_bounded(regs@),
    ensures
        r == harmonic_total(regs@),
        regs@.len() <= r <= regs@.len() * HARMONIC_SCALE,
{
    let mut acc: u64 = 0;
    let mut i: usize = 0;
    proof {
        lemma2_to64();
        lemma2_to64_rest();
    }
    while i < regs.len()
        invariant
            i <= regs@.len() <= 0x1_0000,
            ranks_bounded(regs@),
            pow2(33) == HARMONIC_SCALE,
            pow2(0) == 1,
            acc == harmonic_total(regs@.subrange(0, i as int)),
            i <= acc <= i * HARMONIC_SCALE,
        decreases regs@.len() - i,
    {
        assert(regs@.subrange(0, i + 1).drop_last() =~= regs@.subrange(0, i as int));
        let shift: u64 = 33 - regs[i] as u64;
        proof {
            vstd::bits::lemma_u64_pow2_no_overflow(shift as nat);
            vstd::bits::lemma_u64_shl_is_mul(1u64, shift);
            if shift < 33 {
                lemma_pow2_strictly_increases(shift as nat, 33);
            }
            if shift > 0 {
                lemma_pow2_strictly_increases(0, shift as nat);
            }
        }
        acc = acc + (1u64 << shift);
        i += 1;
    }
    assert(regs@.subrange(0, i as int) =~= regs@);
    acc
}

/// Number of registers that are not zero.
pub fn count_non_empty(regs: &Vec<u32>) -> (r: usize)
    ensures
        r == non_empty_total(regs@),
{
    let mut n: usize = 0;
    let mut i: usize = 0;
    while i < regs.len()
        invariant
            i <= regs@.len(),
            n == non_empty_total(regs@.subrange(0, i as int)),
            n <= i,
        decreases regs@.len() - i,
    {
        assert(regs@.subrange(0, i + 1).drop_last() =~= regs@.subrange(0, i as int));
        if regs[i] > 0 {
            n += 1;
        }
        i += 1;
    }
    assert(regs@.subrange(0, i as int) =~= regs@);
    n
}

/// Numerator of the LogLog bias constant `0.697`.
pub const LOGLOG_ALPHA_NUMERATOR: u64 = 697;

/// Denominator of the LogLog bias constant `0.697`.
pub const LOGLOG_ALPHA_DENOMINATOR: u64 = 1000;

/// Numerator of the HyperLogLog bias constant for `m` buckets: `0.678`,
/// `0.697` and `0.709` for 16, 32 and 64 buckets, else
/// `0.7213 / (1 + 1.079 / m) = 7213 m / (10 (1000 m + 1079))`.
pub open spec fn alpha_numerator(m: nat) -> nat {
    if m == 16 {
        678
    } else if m == 32 {
        697
    } else if m == 64 {
        709
    } else {
        7213 * m
    }
}

/// Denominator of the HyperLogLog bias constant for `m` buckets.
pub open spec fn alpha_denominator(m: nat) -> nat {
    if m == 16 || m == 32 || m == 64 {
        1000
    } else {
        10 * (1000 * m + 1079)
    }
}

/// The HyperLogLog bias constant for `m` buckets, as a numerator and a denominator.
pub fn hll_alpha(m: u64) -> (r: (u64, u64))
    requires
        1 <= m <= 0x1_0000,
    ensures
        r.0 == alpha_numerator(m as nat),
        r.1 == alpha_denominator(m as nat),
{
    if m == 16 {
        (678, 1000)
    } else if m == 32 {
        (697, 1000)
    } else if m == 64 {
        (709, 1000)
    } else {
        (7213 * m, 10 * (1000 * m + 1079))
    }
}

/// Which correction a HyperLogLog estimate gets.
#[derive(Clone, Copy, Debug, PartialEq, Eq, Structural)]
pub enum RangeCorrection {
    /// Small range with some non-empty bucket: `m ln(m / non_empty)`.
    LinearCounting,
    /// The raw estimate `E`, unchanged.
    Uncorrected,
    /// Large range: `-2^32 (1 - E / 2^32)`.
    LargeRange,
}

/// Numerator of the raw estimate `E = alpha m^2 / Z` when the harmonic sum
/// `Z` is `h / 2^33`: `E = raw_numerator(m) / raw_denominator(m, h)`.
pub open spec fn raw_numerator(m: nat) -> int {
    alpha_numerator(m) * m * m * HARMONIC_SCALE
}

/// Denominator of the raw estimate; see `raw_numerator`.
pub open spec fn raw_denominator(m: nat, h: int) -> int {
    alpha_denominator(m) * h
}

/// `E < 5m / 2`.
pub open spec fn is_small_range(m: nat, h: int) -> bool {
    2 * raw_numerator(m) < 5 * m * raw_denominator(m, h)
}

/// `E <= 2^32 / 30`.
pub open spec fn is_intermediate_range(m: nat, h: int) -> bool {
    30 * raw_numerator(m) <= HASH_SPACE * raw_denominator(m, h)
}

/// The correction for `m` buckets, scaled harmonic sum `h` and `non_empty`
/// non-empty buckets. A small range with no non-empty bucket keeps `E`.
pub open spec fn correction_of(m: nat, h: int, non_empty: int) -> RangeCorrection {
    if is_small_range(m, h) {
        if non_empty > 0 {
            RangeCorrection::LinearCounting
        } else {
            RangeCorrection::Uncorrected
        }
    } else if is_intermediate_range(m, h) {
        RangeCorrection::Uncorrected
    } else {
        RangeCorrection::LargeRange
    }
}

/// Picks the HyperLogLog range correction for `2^b` buckets, comparing the
/// raw estimate with `5m / 2` and `2^32 / 30` exactly, as fractions.
pub fn range_correction(b: u32, harmonic: u64, non_empty: usize) -> (r: RangeCorrection)
    requires
        4 <= b <= 16,
        harmonic <= bucket_count(b) * HARMONIC_SCALE,
    ensures
        r == correction_of(bucket_count(b), harmonic as int, non_empty as int),
{
    proof {
        vstd::bits::lemma_u64_pow2_no_overflow(b as nat);
        vstd::bits::lemma_u64_shl_is_mul(1u64, b as u64);
        lemma2_to64();
        if b < 16 {
            lemma_pow2_strictly_increases(b as nat, 16);
        }
    }
    let m: u64 = 1u64 << (b as u64);
    assert(16 <= m <= 0x1_0000);
    let (an, ad) = hll_alpha(m);
    assert(an <= 472711168);
    assert(ad <= 655370790);
    let an = an as u128;
    let ad = ad as u128;
    let mm = m as u128;
    let h = harmonic as u128;
    assert(an * mm <= 472711168 * 0x1_0000) by (nonlinear_arith)
        requires
            an <= 472711168,
            mm <= 0x1_0000,
    ;
    let a1 = an * mm;
    assert(a1 * mm <= 472711168 * 0x1_0000 * 0x1_0000) by (nonlinear_arith)
        requires
            a1 <= 472711168 * 0x1_0000,
            mm <= 0x1_0000,
    ;
    let raw_num: u128 = a1 * mm * (HARMONIC_SCALE as u128);
    assert(h <= 0x1_0000 * 0x2_0000_0000) by (nonlinear_arith)
        requires
            h <= mm * 0x2_0000_0000,
            mm <= 0x1_0000,
    ;
    assert(ad * h <= 655370790 * (0x1_0000 * 0x2_0000_0000)) by (nonlinear_arith)
        requires
            ad <= 655370790,
            h <= 0x1_0000 * 0x2_0000_0000,
    ;
    let raw_den: u128 = ad * h;
    assert(mm * raw_den <= 0x1_0000 * (655370790 * (0x1_0000 * 0x2_0000_0000))) by (nonlinear_arith)
        requires
            raw_den <= 655370790 * (0x1_0000 * 0x2_0000_0000),
            mm <= 0x1_0000,
    ;
    assert(raw_num == raw_numerator(m as nat));
    assert(raw_den == raw_denominator(m as nat, harmonic as int));
    let scaled_den: u128 = mm * raw_den;
    assert(5 * scaled_den == 5 * m * raw_denominator(m as nat, harmonic as int)) by (nonlinear_arith)
        requires
            raw_den == raw_denominator(m as nat, harmonic as int),
            scaled_den == mm * raw_den,
            mm == m,
    ;
    if 2 * raw_num < 5 * scaled_den {
        if non_empty > 0 {
            RangeCorrection::LinearCounting
        } else {
            RangeCorrection::Uncorrected
        }
    } else if 30 * raw_num <= (HASH_SPACE as u128) * raw_den {
        RangeCorrection::Uncorrected
    } else {
        RangeCorrection::LargeRange
    }
}

/// Why a sketch could not be built.
#[derive(Clone, Copy, Debug, PartialEq, Eq, Structural)]
pub enum SketchError {
    /// The bucket-count exponent is outside the range the estimator accepts.
    BitsOutOfRange { bits: u32 },
}

/// Smallest bucket-count exponent of HyperLogLog.
pub const HLL_MIN_BITS: u32 = 4;

/// Largest bucket-count exponent of HyperLogLog.
pub const HLL_MAX_BITS: u32 = 16;

/// Largest bucket-count exponent of LogLog: at least one bit of a 32-bit
/// hash must remain to rank.
pub const LOGLOG_MAX_BITS: u32 = 31;

/// What a LogLog estimate `m alpha 2^(total / m)` is computed from.
pub struct LogLogSketch {
    pub bits: u32,
    pub registers: Vec<u32>,
    /// Sum of all registers, empty ones included.
    pub total: u64,
}

/// What a HyperLogLog estimate is computed from.
pub struct HllSketch {
    pub bits: u32,
    pub registers: Vec<u32>,
    /// Harmonic sum `Z` of the registers, scaled by `2^33`.
    pub harmonic: u64,
    /// Number of registers that are not zero.
    pub non_empty: usize,
    /// The range correction that the raw estimate gets.
    pub correction: RangeCorrection,
}

/// Whether `s` summarises the registers `regs` of `2^b` buckets.
pub open spec fn loglog_summarises(s: LogLogSketch, regs: Seq<u32>, b: u32) -> bool {
    &&& s.bits == b
    &&& s.registers@ == regs
    &&& s.total == register_total(regs)
}

/// Whether `s` summarises the registers `regs` of `2^b` buckets.
pub open spec fn hll_summarises(s: HllSketch, regs: Seq<u32>, b: u32) -> bool {
    &&& s.bits == b
    &&& s.registers@ == regs
    &&& s.harmonic == harmonic_total(regs)
    &&& s.non_empty == non_empty_total(regs)
    &&& s.correction == correction_of(bucket_count(b), harmonic_total(regs), non_empty_total(regs))
}

/// Summarises filled registers for a HyperLogLog estimate.
pub fn hll_from_registers(registers: Vec<u32>, b: u32) -> (r: HllSketch)
    requires
        HLL_MIN_BITS <= b <= HLL_MAX_BITS,
        registers@.len() == bucket_count(b),
        ranks_bounded(registers@),
    ensures
        hll_summarises(r, registers@, b),
{
    proof {
        lemma2_to64();
        if b < 16 {
            lemma_pow2_strictly_increases(b as nat, 16);
        }
    }
    let harmonic = harmonic_sum(&registers);
    let non_empty = count_non_empty(&registers);
    let correction = range_correction(b, harmonic, non_empty);
    HllSketch { bits: b, registers, harmonic, non_empty, correction }
}

/// Fills `2^b` registers from the items and summarises them for a
/// HyperLogLog estimate; `b` must lie in `[4, 16]`.
pub fn hyperloglog_sketch<F: Fn(&String) -> u32>(items: &Vec<String>, b: u32, hash_fn: F) -> (r:
    Result<HllSketch, SketchError>)
    requires
        forall|s: &String| call_requires(hash_fn, (s,)),
    ensures
        match r {
            Ok(s) => HLL_MIN_BITS <= b <= HLL_MAX_BITS && exists|hs: Seq<u32>|
                hashes_of(hash_fn, items@, hs) && hll_summarises(s, registers(hs, b), b),
            Err(e) => !(HLL_MIN_BITS <= b <= HLL_MAX_BITS) && e == SketchError::BitsOutOfRange {
                bits: b,
            },
        },
{
    if b < HLL_MIN_BITS || b > HLL_MAX_BITS {
        return Err(SketchError::BitsOutOfRange { bits: b });
    }
    let regs = fill_buckets(items, b, hash_fn);
    let ghost hs = choose|hs: Seq<u32>| hashes_of(hash_fn, items@, hs) && regs@ == registers(hs, b);
    proof {
        lemma_registers_bounded(hs, b);
    }
    Ok(hll_from_registers(regs, b))
}

/// Fills `2^b` registers from the items and sums them for a LogLog
/// estimate; `b` must lie in `[1, 31]`.
pub fn loglog_sketch<F: Fn(&String) -> u32>(items: &Vec<String>, b: u32, hash_fn: F) -> (r: Result<
    LogLogSketch,
    SketchError,
>)
    requires
        forall|s: &String| call_requires(hash_fn, (s,)),
    ensures
        match r {
            Ok(s) => 1 <= b <= LOGLOG_MAX_BITS && exists|hs: Seq<u32>|
                hashes_of(hash_fn, items@, hs) && loglog_summarises(s, registers(hs, b), b),
            Err(e) => !(1 <= b <= LOGLOG_MAX_BITS) && e == SketchError::BitsOutOfRange { bits: b },
        },
{
    if b < 1 || b > LOGLOG_MAX_BITS {
        return Err(SketchError::BitsOutOfRange { bits: b });
    }
    let regs = fill_buckets(items, b, hash_fn);
    let ghost hs = choose|hs: Seq<u32>| hashes_of(hash_fn, items@, hs) && regs@ == registers(hs, b);
    proof {
        lemma_registers_bounded(hs, b);
        vstd::bits::lemma_u64_pow2_no_overflow(b as nat);
        if b < 31 {
            lemma_pow2_strictly_increases(b as nat, 31);
        }
        lemma2_to64();
    }
    let total = register_sum(&regs);
    Ok(LogLogSketch { bits: b, registers: regs, total })
}

/// The default hash gives each item the hash of its text, so the hashes of
/// a sequence of items are fixed by the items alone.
pub proof fn lemma_default_hashes_fixed(items: Seq<String>, hs: Seq<u32>)
    requires
        hashes_of(murmur_oaat, items, hs),
    ensures
        hs == items.map_values(|s: String| hash_text(s@)),
{
    assert forall|i: int| 0 <= i < items.len() implies hs[i] == hash_text(items[i]@) by {
        assert(call_ensures(murmur_oaat, (&items[i],), hs[i]));
    }
    assert(hs =~= items.map_values(|s: String| hash_text(s@)));
}

/// Built with the default hash from the same items and the same `b`, two
/// HyperLogLog sketches agree in everything an estimate is computed from.
pub proof fn lemma_hll_sketch_deterministic(items: Seq<String>, b: u32, s1: HllSketch, s2: HllSketch)
    requires
        exists|hs: Seq<u32>|
            hashes_of(murmur_oaat, items, hs) && hll_summarises(s1, registers(hs, b), b),
        exists|hs: Seq<u32>|
            hashes_of(murmur_oaat, items, hs) && hll_summarises(s2, registers(hs, b), b),
    ensures
        s1.bits == s2.bits,
        s1.registers@ == s2.registers@,
        s1.harmonic == s2.harmonic,
        s1.non_empty == s2.non_empty,
        s1.correction == s2.correction,
{
    let hs1 = choose|hs: Seq<u32>|
        hashes_of(murmur_oaat, items, hs) && hll_summarises(s1, registers(hs, b), b);
    let hs2 = choose|hs: Seq<u32>|
        hashes_of(murmur_oaat, items, hs) && hll_summarises(s2, registers(hs, b), b);
    lemma_default_hashes_fixed(items, hs1);
    lemma_default_hashes_fixed(items, hs2);
}

/// Built with the default hash from the same items and the same `b`, two
/// LogLog sketches agree in everything an estimate is computed from.
pub proof fn lemma_loglog_sketch_deterministic(
    items: Seq<String>,
    b: u32,
    s1: LogLogSketch,
    s2: LogLogSketch,
)
    requires
        exists|hs: Seq<u32>|
            hashes_of(murmur_oaat, items, hs) && loglog_summarises(s1, registers(hs, b), b),
        exists|hs: Seq<u32>|
            hashes_of(murmur_oaat, items, hs) && loglog_summarises(s2, registers(hs, b), b),
    ensures
        s1.bits == s2.bits,
        s1.registers@ == s2.registers@,
        s1.total == s2.total,
{
    let hs1 = choose|hs: Seq<u32>|
        hashes_of(murmur_oaat, items, hs) && loglog_summarises(s1, registers(hs, b), b);
    let hs2 = choose|hs: Seq<u32>|
        hashes_of(murmur_oaat, items, hs) && loglog_summarises(s2, registers(hs, b), b);
    lemma_default_hashes_fixed(items, hs1);
    lemma_default_hashes_fixed(items, hs2);
}

} // verus!
