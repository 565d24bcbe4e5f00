use loglogbeta::{rho, ConfigurationError, InternalInvariantError, LogLogBeta, MergeError};
use siphasher::sip::SipHasher;

fn alpha(p: usize) -> f64 {
    match p {
        4 => 0.674,
        5 => 0.697,
        6 => 0.709,
        _ => 0.7213 / (1.0 + 1.079 / (1u64 << p) as f64),
    }
}

fn beta(z: usize) -> f64 {
    let z = z as f64;
    let l = (z + 1.0).log2();
    -0.370393911 * z + 0.070471823 * l + 0.17393686 * l.powi(2) + 0.16339839 * l.powi(3)
        - 0.09237745 * l.powi(4)
        + 0.03738027 * l.powi(5)
        - 0.005384159 * l.powi(6)
        + 0.00042419 * l.powi(7)
}

fn estimate(c: &LogLogBeta) -> f64 {
    let m = c.bucket_count() as f64;
    let z = c.zero_count();
    let inverse_sum = c.scaled_inverse_sum() as f64 / 18446744073709551616.0;
    let denominator = beta(z) + inverse_sum;
    if denominator == 0.0 {
        return 0.0;
    }
    alpha(c.precision()) * m * (m - z as f64) / denominator
}

fn precision_for(error: f64) -> usize {
    (1.04 / error).powi(2).log2().ceil() as usize
}

fn counter_for(error: f64) -> LogLogBeta {
    LogLogBeta::with_precision(precision_for(error)).unwrap()
}

fn insert_int(c: &mut LogLogBeta, i: u64) {
    c.insert(&i.to_le_bytes());
}

#[test]
fn insert() {
    let actual = 1000000.0;
    let p = 0.05;
    let mut hll = counter_for(p);
    for i in 0..actual as u64 {
        insert_int(&mut hll, i);
    }
    assert!(estimate(&hll) > (actual - (actual * p)));
    assert!(estimate(&hll) < (actual + (actual * p)));
}

#[test]
fn ten_thousand_within_five_percent() {
    let mut hll = counter_for(0.05);
    for i in 0..10000u64 {
        insert_int(&mut hll, i);
    }
    let e = estimate(&hll);
    assert!(e > 9500.0 && e < 10500.0);
}

#[test]
fn precision_from_error_rate() {
    assert_eq!(precision_for(0.05), 9);
    let c = counter_for(0.05);
    assert_eq!(c.precision(), 9);
    assert_eq!(c.bucket_count(), 512);
    assert_eq!(c.registers().len(), 512);
    assert_eq!(precision_for(0.01), 14);
    assert_eq!(counter_for(0.01).bucket_count(), 16384);
}

#[test]
fn bucket_count_is_power_of_two() {
    for p in 1..=20usize {
        let c = LogLogBeta::with_precision(p).unwrap();
        assert_eq!(c.bucket_count(), 1u64 << p);
        assert!(c.bucket_count().is_power_of_two());
        assert_eq!(c.registers().len() as u64, c.bucket_count());
        assert!(c.registers().iter().all(|&r| r == 0));
    }
}

#[test]
fn precision_out_of_range_is_rejected() {
    assert!(matches!(
        LogLogBeta::with_precision(0),
        Err(ConfigurationError { precision: 0 })
    ));
    assert!(matches!(
        LogLogBeta::with_precision(31),
        Err(ConfigurationError { precision: 31 })
    ));
    assert!(LogLogBeta::with_precision(1).is_ok());
}

#[test]
fn rho_values() {
    assert_eq!(rho(1, 10), Ok(10));
    assert_eq!(rho(0, 10), Ok(11));
    assert_eq!(rho(1 << 9, 10), Ok(1));
    assert_eq!(rho(1, 60), Ok(60));
    assert_eq!(
        rho(1 << 10, 10),
        Err(InternalInvariantError { remainder: 1 << 10, max_width: 10 })
    );
    assert_eq!(
        rho(u64::MAX, 10),
        Err(InternalInvariantError { remainder: u64::MAX, max_width: 10 })
    );
}

#[test]
fn insert_digest_sets_bucket_register() {
    let mut c = LogLogBeta::with_precision(4).unwrap();
    // low bits 0011 pick bucket 3, remainder 1 has rank 60 in a 60-bit window
    c.insert_digest(0b1_0011);
    assert_eq!(c.registers()[3], 60);
    // remainder 0 has the largest rank
    c.insert_digest(5);
    assert_eq!(c.registers()[5], 61);
    // a smaller rank leaves the register alone
    c.insert_digest(u64::MAX & !0xF | 3);
    assert_eq!(c.registers()[3], 60);
    assert_eq!(c.zero_count(), 14);
    let two64: u128 = 1 << 64;
    assert_eq!(c.scaled_inverse_sum(), 14 * two64 + (1 << 4) + (1 << 3));
}

#[test]
fn insert_uses_siphash_digest() {
    let mut by_bytes = LogLogBeta::with_precision(6).unwrap();
    let mut by_digest = LogLogBeta::with_precision(6).unwrap();
    for word in ["alpha", "beta", "gamma", "delta"] {
        by_bytes.insert(word.as_bytes());
        by_digest.insert_digest(SipHasher::new().hash(word.as_bytes()));
    }
    assert_eq!(by_bytes.registers(), by_digest.registers());
    assert!(by_bytes.zero_count() < 64);
}

#[test]
fn registers_never_decrease() {
    let mut c = LogLogBeta::with_precision(8).unwrap();
    let mut previous = c.registers().to_vec();
    for i in 0..2000u64 {
        insert_int(&mut c, i % 700);
        let now = c.registers().to_vec();
        assert!(previous.iter().zip(now.iter()).all(|(a, b)| a <= b));
        previous = now;
    }
}

#[test]
fn duplicate_inserts_are_idempotent() {
    let mut once = LogLogBeta::with_precision(10).unwrap();
    let mut many = LogLogBeta::with_precision(10).unwrap();
    once.insert(b"element");
    for _ in 0..7 {
        many.insert(b"element");
    }
    assert_eq!(once.registers(), many.registers());
}

#[test]
fn empty_counter_estimates_zero() {
    let c = counter_for(0.05);
    assert_eq!(c.zero_count(), 512);
    assert_eq!(c.scaled_inverse_sum(), 512u128 << 64);
    assert_eq!(estimate(&c), 0.0);
}

fn filled(p: usize, range: std::ops::Range<u64>) -> LogLogBeta {
    let mut c = LogLogBeta::with_precision(p).unwrap();
    for i in range {
        insert_int(&mut c, i);
    }
    c
}

#[test]
fn merge_of_halves_matches_whole() {
    let a = filled(9, 0..5000);
    let b = filled(9, 5000..10000);
    let whole = filled(9, 0..10000);
    let m = a.merge(b).unwrap();
    assert_eq!(m.precision(), 9);
    assert_eq!(m.registers(), whole.registers());
    let e = estimate(&m);
    assert!(e > 9500.0 && e < 10500.0);
}

#[test]
fn merge_with_itself_is_identity() {
    let a = filled(7, 0..300);
    let copy = filled(7, 0..300);
    let m = a.merge(copy).unwrap();
    assert_eq!(m.registers(), a.registers());
    assert_eq!(estimate(&m), estimate(&a));
}

#[test]
fn merge_commutes_and_associates() {
    let ab = filled(6, 0..100).merge(filled(6, 50..250)).unwrap();
    let ba = filled(6, 50..250).merge(filled(6, 0..100)).unwrap();
    assert_eq!(ab.registers(), ba.registers());
    let left = ab.merge(filled(6, 1000..1400)).unwrap();
    let bc = filled(6, 50..250).merge(filled(6, 1000..1400)).unwrap();
    let right = filled(6, 0..100).merge(bc).unwrap();
    assert_eq!(left.registers(), right.registers());
}

#[test]
fn merge_of_different_precisions_fails() {
    let a = counter_for(0.05);
    let b = counter_for(0.1);
    assert_eq!(b.precision(), 7);
    assert_eq!(a.merge(b).err(), Some(MergeError { left: 9, right: 7 }));
}
