use std::hash::{DefaultHasher, Hasher};

use hyperloglog::{split_hash, Estimate, HyperLogLog, SketchError, DEFAULT_PRECISION};

const TWO_POW_64_F: f64 = 18446744073709551616.0;

fn value(e: &Estimate) -> f64 {
    match *e {
        Estimate::LinearCounting { registers, zeros } => {
            registers as f64 * (registers as f64 / zeros as f64).ln()
        }
        Estimate::Harmonic { numerator, denominator } => {
            numerator as f64 * TWO_POW_64_F / denominator as f64
        }
        Estimate::LargeRange { numerator, denominator } => {
            -TWO_POW_64_F * (1.0 - numerator as f64 / denominator as f64).ln()
        }
    }
}

fn seeded(seed: u64) -> DefaultHasher {
    let mut h = DefaultHasher::new();
    h.write_u64(seed);
    h
}

fn sketch_of(p: u8, seed: u64, items: std::ops::Range<u64>) -> HyperLogLog<DefaultHasher> {
    let mut s = HyperLogLog::new_with_hasher(p, seeded(seed)).unwrap();
    for x in items {
        s.insert(x);
    }
    s
}

#[test]
fn test_insert() {
    let mut hll = HyperLogLog::new();
    hll.insert("test1".as_bytes());
    println!("{:?}", hll.evaluate());
    assert_eq!(hll.registers().iter().filter(|r| **r != 0).count(), 1);
}

#[test]
fn default_matches_new() {
    let a: HyperLogLog<DefaultHasher> = Default::default();
    let b = HyperLogLog::new();
    assert_eq!(a.precision(), DEFAULT_PRECISION);
    assert_eq!(a.registers().len(), 256);
    assert_eq!(a.registers(), b.registers());
}

#[test]
fn fresh_sketch_evaluates_to_zero() {
    for p in 4u8..=18 {
        let mut s = HyperLogLog::new_with_hasher(p, DefaultHasher::new()).unwrap();
        let m = 1u64 << p;
        assert_eq!(s.registers().len() as u64, m);
        let e = s.evaluate();
        assert_eq!(e, Estimate::LinearCounting { registers: m, zeros: m });
        assert_eq!(value(&e), 0.0);
    }
}

#[test]
fn invalid_precision_is_refused() {
    assert!(matches!(
        HyperLogLog::new_with_hasher(3, DefaultHasher::new()),
        Err(SketchError::InvalidPrecision)
    ));
    assert!(matches!(
        HyperLogLog::new_with_hasher(19, DefaultHasher::new()),
        Err(SketchError::InvalidPrecision)
    ));
    assert!(HyperLogLog::new_with_hasher(4, DefaultHasher::new()).is_ok());
    assert!(HyperLogLog::new_with_hasher(18, DefaultHasher::new()).is_ok());
}

#[test]
fn split_hash_exact_values() {
    assert_eq!(split_hash(0, 4), (0, 61));
    assert_eq!(split_hash(u64::MAX, 4), (15, 1));
    assert_eq!(split_hash(1, 4), (0, 60));
    assert_eq!(split_hash(0x0800_0000_0000_0000, 4), (0, 1));
    assert_eq!(split_hash(0x1400_0000_0000_0000, 4), (1, 2));
    assert_eq!(split_hash(0xFFFC_0000_0000_0000, 14), (0x3FFF, 51));
    assert_eq!(split_hash(0x0000_3FFF_FFFF_FFFF, 18), (0, 1));
    assert_eq!(split_hash(0xFFFF_C000_0000_0000, 18), (0x3FFFF, 47));
}

#[test]
fn insert_hash_raises_one_register() {
    let mut s = HyperLogLog::new_with_hasher(4, DefaultHasher::new()).unwrap();
    s.insert_hash(0x1400_0000_0000_0000);
    assert_eq!(s.registers()[1], 2);
    s.insert_hash(0x1800_0000_0000_0000);
    assert_eq!(s.registers()[1], 2);
    s.insert_hash(0x1000_0000_0000_0001);
    assert_eq!(s.registers()[1], 60);
    assert_eq!(s.registers().iter().filter(|r| **r != 0).count(), 1);
}

#[test]
fn insert_is_idempotent() {
    let mut once = HyperLogLog::new_with_hasher(10, DefaultHasher::new()).unwrap();
    once.insert("apple");
    let mut twice = HyperLogLog::new_with_hasher(10, DefaultHasher::new()).unwrap();
    twice.insert("apple");
    twice.insert("apple");
    assert_eq!(once.registers(), twice.registers());
    assert_eq!(once.evaluate(), twice.evaluate());
}

#[test]
fn distinct_elements_hash_independently() {
    let mut only1 = HyperLogLog::new_with_hasher(4, DefaultHasher::new()).unwrap();
    only1.insert(1u64);
    let mut only7 = HyperLogLog::new_with_hasher(4, DefaultHasher::new()).unwrap();
    only7.insert(7u64);
    let mut both = HyperLogLog::new_with_hasher(4, DefaultHasher::new()).unwrap();
    both.insert(1u64);
    both.insert(7u64);
    for i in 0..16 {
        assert_eq!(both.registers()[i], only1.registers()[i].max(only7.registers()[i]));
    }
    let mut many = HyperLogLog::new_with_hasher(4, DefaultHasher::new()).unwrap();
    for x in 0u64..200 {
        many.insert(x);
    }
    assert!(many.registers().iter().filter(|r| **r != 0).count() > 8);
}

#[test]
fn merge_is_commutative_and_associative() {
    let a = sketch_of(8, 1, 0..300);
    let b = sketch_of(8, 1, 200..700);
    let c = sketch_of(8, 1, 650..1000);
    let mut ab = a.clone();
    ab.merge(&b).unwrap();
    let mut ba = b.clone();
    ba.merge(&a).unwrap();
    assert_eq!(ab.registers(), ba.registers());
    let mut ab_c = ab.clone();
    ab_c.merge(&c).unwrap();
    let mut bc = b.clone();
    bc.merge(&c).unwrap();
    let mut a_bc = a.clone();
    a_bc.merge(&bc).unwrap();
    assert_eq!(ab_c.registers(), a_bc.registers());
    for i in 0..256 {
        assert_eq!(ab.registers()[i], a.registers()[i].max(b.registers()[i]));
    }
}

#[test]
fn merge_with_itself_changes_nothing() {
    let a = sketch_of(10, 3, 0..5000);
    let mut aa = a.clone();
    aa.merge(&a).unwrap();
    assert_eq!(aa.registers(), a.registers());
}

#[test]
fn merge_equals_inserting_both_streams() {
    let a = sketch_of(8, 5, 0..400);
    let b = sketch_of(8, 5, 400..900);
    let both = sketch_of(8, 5, 0..900);
    let mut merged = a.clone();
    merged.merge(&b).unwrap();
    assert_eq!(merged.registers(), both.registers());
}

#[test]
fn merge_with_other_precision_fails() {
    let mut a = sketch_of(8, 2, 0..100);
    let b = sketch_of(10, 2, 0..100);
    let a_before = a.registers().to_vec();
    let b_before = b.registers().to_vec();
    assert_eq!(a.merge(&b), Err(SketchError::PrecisionMismatch));
    assert_eq!(a.registers(), &a_before[..]);
    assert_eq!(b.registers(), &b_before[..]);
    assert_eq!(a.precision(), 8);
}

#[test]
fn estimate_uses_linear_counting_when_registers_are_empty() {
    let mut s = HyperLogLog::new_with_hasher(4, DefaultHasher::new()).unwrap();
    s.insert_hash(0x1400_0000_0000_0000);
    let e = s.evaluate();
    assert_eq!(e, Estimate::LinearCounting { registers: 16, zeros: 15 });
    assert!((value(&e) - 16.0 * (16.0f64 / 15.0).ln()).abs() < 1e-9);
}

#[test]
fn estimate_is_harmonic_mean_when_all_registers_are_set() {
    let mut s = HyperLogLog::new_with_hasher(4, DefaultHasher::new()).unwrap();
    for b in 0u64..16 {
        s.insert_hash((b << 60) | (1u64 << 59));
    }
    assert!(s.registers().iter().all(|r| *r == 1));
    let e = s.evaluate();
    assert_eq!(
        e,
        Estimate::Harmonic { numerator: 673 * 256, denominator: 1000 * (16u128 << 63) }
    );
    // alpha_16 * 16^2 / (16 * 2^-1) = 0.673 * 32
    assert!((value(&e) - 0.673 * 32.0).abs() < 1e-9);
}

#[test]
fn estimate_applies_large_range_correction() {
    let mut s = HyperLogLog::new_with_hasher(4, DefaultHasher::new()).unwrap();
    for b in 0u64..16 {
        s.insert_hash(b << 60);
    }
    assert!(s.registers().iter().all(|r| *r == 61));
    let e = s.evaluate();
    assert_eq!(e, Estimate::LargeRange { numerator: 673 * 256, denominator: 1000 * 16 * 8 });
}

#[test]
fn bias_constant_for_large_arrays() {
    let mut s = HyperLogLog::new_with_hasher(7, DefaultHasher::new()).unwrap();
    for b in 0u64..128 {
        s.insert_hash((b << 57) | (1u64 << 55));
    }
    assert!(s.registers().iter().all(|r| *r == 2));
    let e = s.evaluate();
    let m: u128 = 128;
    assert_eq!(
        e,
        Estimate::Harmonic {
            numerator: 7213 * m * m * m,
            denominator: (10000 * m + 10790) * (m << 62)
        }
    );
}

#[test]
fn cached_estimate_is_refreshed_after_mutation() {
    let mut s = HyperLogLog::new_with_hasher(4, DefaultHasher::new()).unwrap();
    let first = s.evaluate();
    assert_eq!(s.evaluate(), first);
    s.insert_hash(0x1400_0000_0000_0000);
    let second = s.evaluate();
    assert_ne!(second, first);
    let mut other = HyperLogLog::new_with_hasher(4, DefaultHasher::new()).unwrap();
    other.insert_hash(0x2400_0000_0000_0000);
    s.merge(&other).unwrap();
    assert_eq!(s.evaluate(), Estimate::LinearCounting { registers: 16, zeros: 14 });
}

fn mean_relative_error(n: u64, trials: u64) -> f64 {
    let mut total = 0.0;
    for t in 0..trials {
        let mut s = sketch_of(10, 1000 + t, (t << 40)..((t << 40) + n));
        let est = value(&s.evaluate());
        total += (est - n as f64) / n as f64;
    }
    total / trials as f64
}

#[test]
fn accuracy_small_count() {
    let err = mean_relative_error(100, 20);
    assert!(err.abs() < 4.0 * 0.0325 / 20f64.sqrt(), "{}", err);
}

#[test]
fn accuracy_medium_count() {
    let err = mean_relative_error(10_000, 10);
    assert!(err.abs() < 4.0 * 0.0325 / 10f64.sqrt(), "{}", err);
}

#[test]
fn accuracy_large_count() {
    let err = mean_relative_error(1_000_000, 2);
    assert!(err.abs() < 4.0 * 0.0325 / 2f64.sqrt(), "{}", err);
}

#[test]
fn union_accuracy() {
    let a = sketch_of(10, 9, 0..1000);
    let b = sketch_of(10, 9, 500..1500);
    let mut u = a.clone();
    u.merge(&b).unwrap();
    let est = value(&u.evaluate());
    assert!((est - 1500.0).abs() / 1500.0 < 4.0 * 0.0325, "{}", est);
}
