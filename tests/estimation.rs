use cardinality_estimation::estimate::{
    count_non_empty, harmonic_sum, hll_alpha, hll_from_registers, hyperloglog_sketch,
    loglog_sketch, range_correction, register_sum, HllSketch, LogLogSketch, RangeCorrection,
    SketchError, HARMONIC_SCALE, HASH_SPACE, LOGLOG_ALPHA_DENOMINATOR, LOGLOG_ALPHA_NUMERATOR,
};
use cardinality_estimation::sketch::{fill_buckets, fill_buckets_from_hashes, rho};
use cardinality_estimation::{murmur_oaat, naive_cardinality};

fn strings(words: &[&str]) -> Vec<String> {
    words.iter().map(|w| w.to_string()).collect()
}

fn loglog_estimate(s: &LogLogSketch) -> f64 {
    let m = s.registers.len() as f64;
    let alpha = LOGLOG_ALPHA_NUMERATOR as f64 / LOGLOG_ALPHA_DENOMINATOR as f64;
    m * alpha * 2.0_f64.powf(s.total as f64 / m)
}

fn hll_estimate(s: &HllSketch) -> f64 {
    let m = s.registers.len() as f64;
    let (an, ad) = hll_alpha(s.registers.len() as u64);
    let alpha = an as f64 / ad as f64;
    let z = s.harmonic as f64 / HARMONIC_SCALE as f64;
    let e = alpha * m * m / z;
    let coef = HASH_SPACE as f64;
    match s.correction {
        RangeCorrection::LinearCounting => m * (m / s.non_empty as f64).ln(),
        RangeCorrection::Uncorrected => e,
        RangeCorrection::LargeRange => -coef * (1.0 - e / coef),
    }
}

#[test]
fn murmur_apple_golden_value() {
    assert_eq!(murmur_oaat(&"apple".to_string()), 0xdc58c87d);
}

#[test]
fn murmur_empty_is_seed() {
    assert_eq!(murmur_oaat(&String::new()), 0x1436781);
}

#[test]
fn murmur_single_byte() {
    assert_eq!(murmur_oaat(&"a".to_string()), 0x83a7522c);
}

#[test]
fn murmur_depends_on_byte_order() {
    assert_ne!(murmur_oaat(&"ab".to_string()), murmur_oaat(&"ba".to_string()));
}

#[test]
fn naive_cardinality_counts_distinct() {
    let items = strings(&["a", "b", "a", "c", "b", "d"]);
    assert_eq!(naive_cardinality(&items), 4);
}

#[test]
fn naive_cardinality_empty() {
    assert_eq!(naive_cardinality(&Vec::new()), 0);
}

#[test]
fn naive_cardinality_all_distinct_equals_len() {
    let items = strings(&["x", "y", "z", "xy"]);
    assert_eq!(naive_cardinality(&items), items.len());
}

#[test]
fn naive_cardinality_all_equal() {
    let items = strings(&["same", "same", "same"]);
    assert_eq!(naive_cardinality(&items), 1);
}

#[test]
fn rho_values() {
    assert_eq!(rho(0), 33);
    assert_eq!(rho(1), 32);
    assert_eq!(rho(0x8000_0000), 1);
    assert_eq!(rho(0x0001_0000), 16);
}

#[test]
fn fill_buckets_top_bits_and_rank() {
    let hashes: Vec<u32> = vec![0x8000_0000, 0x3400_0000, 0x3000_0001];
    let regs = fill_buckets_from_hashes(&hashes, 4);
    let mut expected = vec![0u32; 16];
    // 0x8000_0000: bucket 8, nothing left after the top 4 bits
    expected[8] = 33;
    // 0x3400_0000: bucket 3, residual 0x4000_0000 has one leading zero
    // 0x3000_0001: bucket 3, residual 0x0000_0010 has 27 leading zeros
    expected[3] = 28;
    assert_eq!(regs, expected);
}

#[test]
fn fill_buckets_with_constant_hasher() {
    let items = strings(&["p", "q", "r"]);
    let regs = fill_buckets(&items, 4, |_s: &String| 0x1800_0000u32);
    assert_eq!(regs.len(), 16);
    for (j, r) in regs.iter().enumerate() {
        if j == 1 {
            assert_eq!(*r, 1);
        } else {
            assert_eq!(*r, 0);
        }
    }
}

#[test]
fn fill_buckets_order_and_repetition_do_not_matter() {
    let a: Vec<u32> = vec![0xdead_beef, 0x0123_4567, 0x89ab_cdef, 0x0000_0001];
    let b: Vec<u32> = vec![0x0000_0001, 0x89ab_cdef, 0xdead_beef, 0x0123_4567, 0xdead_beef];
    assert_eq!(fill_buckets_from_hashes(&a, 6), fill_buckets_from_hashes(&b, 6));
}

#[test]
fn registers_bounded_and_grow() {
    let items: Vec<String> = (0..500).map(|i| format!("item{}", i)).collect();
    let mut prev = vec![0u32; 256];
    for n in [0usize, 10, 100, 500] {
        let regs = fill_buckets(&items[..n].to_vec(), 8, murmur_oaat);
        for j in 0..256 {
            assert!(regs[j] <= 33);
            assert!(regs[j] >= prev[j]);
        }
        prev = regs;
    }
}

#[test]
fn register_sums() {
    let regs: Vec<u32> = vec![0, 1, 2, 33];
    assert_eq!(register_sum(&regs), 36);
    assert_eq!(count_non_empty(&regs), 3);
    assert_eq!(harmonic_sum(&regs), (1u64 << 33) + (1u64 << 32) + (1u64 << 31) + 1);
}

#[test]
fn hll_alpha_constants() {
    assert_eq!(hll_alpha(16), (678, 1000));
    assert_eq!(hll_alpha(32), (697, 1000));
    assert_eq!(hll_alpha(64), (709, 1000));
    assert_eq!(hll_alpha(128), (7213 * 128, 10 * (1000 * 128 + 1079)));
}

#[test]
fn range_correction_regimes() {
    let all_empty = 16 * HARMONIC_SCALE;
    assert_eq!(range_correction(4, all_empty, 0), RangeCorrection::Uncorrected);
    assert_eq!(range_correction(4, all_empty, 3), RangeCorrection::LinearCounting);
    // every register at 33: E = 0.678 * 256 * 2^33 / 16, far above 2^32 / 30
    assert_eq!(range_correction(4, 16, 16), RangeCorrection::LargeRange);
    // every register at 20: E = 0.678 * 16 * 2^20, between the two thresholds
    assert_eq!(range_correction(4, 16 * (1u64 << 13), 16), RangeCorrection::Uncorrected);
}

#[test]
fn hll_from_registers_summary() {
    let mut regs = vec![0u32; 16];
    regs[2] = 3;
    let s = hll_from_registers(regs, 4);
    assert_eq!(s.bits, 4);
    assert_eq!(s.non_empty, 1);
    assert_eq!(s.harmonic, 15 * HARMONIC_SCALE + (1u64 << 30));
    assert_eq!(s.correction, RangeCorrection::LinearCounting);
}

#[test]
fn hyperloglog_bits_boundary() {
    let items = strings(&["a", "b", "c"]);
    assert_eq!(
        hyperloglog_sketch(&items, 3, murmur_oaat).err(),
        Some(SketchError::BitsOutOfRange { bits: 3 })
    );
    assert_eq!(
        hyperloglog_sketch(&items, 17, murmur_oaat).err(),
        Some(SketchError::BitsOutOfRange { bits: 17 })
    );
    assert!(hyperloglog_sketch(&items, 4, murmur_oaat).is_ok());
    assert!(hyperloglog_sketch(&items, 16, murmur_oaat).is_ok());
}

#[test]
fn loglog_bits_boundary() {
    let items = strings(&["a", "b", "c"]);
    assert_eq!(
        loglog_sketch(&items, 0, murmur_oaat).err(),
        Some(SketchError::BitsOutOfRange { bits: 0 })
    );
    assert_eq!(
        loglog_sketch(&items, 32, murmur_oaat).err(),
        Some(SketchError::BitsOutOfRange { bits: 32 })
    );
    assert!(loglog_sketch(&items, 1, murmur_oaat).is_ok());
}

#[test]
fn small_scenario_sketches() {
    let items = strings(&["a", "b", "a", "c", "b", "d"]);
    let ll = loglog_sketch(&items, 4, murmur_oaat).unwrap();
    assert_eq!(ll.registers, vec![0, 0, 0, 1, 1, 0, 0, 0, 3, 2, 0, 0, 0, 0, 0, 0]);
    assert_eq!(ll.total, 7);
    let ll_est = loglog_estimate(&ll);
    assert!(ll_est >= 1.0 && ll_est <= 20.0);

    let hll = hyperloglog_sketch(&items, 4, murmur_oaat).unwrap();
    assert_eq!(hll.non_empty, 4);
    assert_eq!(hll.correction, RangeCorrection::LinearCounting);
    let hll_est = hll_estimate(&hll);
    assert!((hll_est - 16.0 * 4.0_f64.ln()).abs() < 1e-9);
}

#[test]
fn sketches_are_deterministic() {
    let items: Vec<String> = (0..300).map(|i| format!("word{}", i % 120)).collect();
    for b in [4u32, 8, 12] {
        let a = hyperloglog_sketch(&items, b, murmur_oaat).unwrap();
        let c = hyperloglog_sketch(&items, b, murmur_oaat).unwrap();
        assert_eq!(a.registers, c.registers);
        assert_eq!(a.harmonic, c.harmonic);
        assert_eq!(hll_estimate(&a), hll_estimate(&c));
        let x = loglog_sketch(&items, b, murmur_oaat).unwrap();
        let y = loglog_sketch(&items, b, murmur_oaat).unwrap();
        assert_eq!(x.registers, y.registers);
        assert_eq!(loglog_estimate(&x), loglog_estimate(&y));
    }
}

#[test]
fn hyperloglog_within_ten_percent() {
    let items: Vec<String> = (0..10000).map(|i| format!("w{}", i)).collect();
    let truth = naive_cardinality(&items) as f64;
    assert_eq!(truth, 10000.0);
    for b in [8u32, 10, 12] {
        let s = hyperloglog_sketch(&items, b, murmur_oaat).unwrap();
        let est = hll_estimate(&s);
        assert!(est.is_finite() && est >= 0.0);
        assert!((est - truth).abs() <= 0.1 * truth);
        let l = loglog_sketch(&items, b, murmur_oaat).unwrap();
        let lest = loglog_estimate(&l);
        assert!(lest.is_finite() && lest >= 0.0);
    }
}

#[test]
fn more_buckets_lower_mean_error() {
    let mut previous = f64::INFINITY;
    for b in [4u32, 6, 8, 10] {
        let mut total = 0.0;
        for d in 0..20 {
            let items: Vec<String> = (0..5000).map(|i| format!("d{}-{}", d, i)).collect();
            let s = hyperloglog_sketch(&items, b, murmur_oaat).unwrap();
            total += (hll_estimate(&s) - 5000.0).abs() / 5000.0;
        }
        let mean = total / 20.0;
        assert!(mean < previous);
        previous = mean;
    }
}
