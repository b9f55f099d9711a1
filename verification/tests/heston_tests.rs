use rust_quant::heston::HestonProcess;
use rust_quant::rng::Xoshiro256PlusPlus;
use rust_quant::PricingError;
use statrs::distribution::{ContinuousCDF, Normal};

const S: f64 = 1_000_000.0;

fn sc(x: f64) -> u64 {
    (x * S).round() as u64
}

fn normals(rng: &mut Xoshiro256PlusPlus, n: usize) -> Vec<i64> {
    let dist = Normal::new(0.0, 1.0).unwrap();
    (0..n)
        .map(|_| {
            let u = rng.next_unit_numerator() as f64 * (1.0 / (1u64 << 53) as f64);
            ((dist.inverse_cdf(u)) * S).round() as i64
        })
        .collect()
}

fn typical() -> HestonProcess {
    HestonProcess::new(
        sc(100.0),
        sc(0.04),
        sc(0.05) as i64,
        sc(2.0),
        sc(0.04),
        sc(0.3),
        -(sc(0.7) as i64),
        sc(1.0),
        252,
    )
    .unwrap()
}

#[test]
fn test_heston_path_shape() {
    let process = typical();
    let mut rng = Xoshiro256PlusPlus::from_seed_u64(8);
    let (prices, variances) = process
        .generate_path(&normals(&mut rng, 252), &normals(&mut rng, 252))
        .unwrap();
    assert_eq!(prices.len(), 253);
    assert_eq!(variances.len(), 253);
    assert_eq!(prices[0], sc(100.0));
    assert_eq!(variances[0], sc(0.04));
}

#[test]
fn test_variance_never_negative() {
    // Even with the stability condition badly violated, the absorption
    // floor keeps every simulated variance non-negative.
    let process = HestonProcess::new(
        sc(100.0),
        sc(0.01),
        sc(0.05) as i64,
        sc(0.5),
        sc(0.01),
        sc(1.0),
        -(sc(0.7) as i64),
        sc(1.0),
        100,
    )
    .unwrap();
    assert!(!process.feller_ok());
    let mut rng = Xoshiro256PlusPlus::from_seed_u64(17);
    let mut floored = false;
    for _ in 0..200 {
        let (prices, variances) = process
            .generate_path(&normals(&mut rng, 100), &normals(&mut rng, 100))
            .unwrap();
        for &v in variances.iter() {
            assert!(v >= 0, "variance must never be negative");
        }
        for &p in prices.iter() {
            assert!(p >= 0, "price must never be negative");
        }
        if variances.iter().any(|&v| v == 0) {
            floored = true;
        }
    }
    assert!(floored, "with these parameters the absorption floor should engage");
}

#[test]
fn test_feller_condition_flag() {
    // 2 * 2.0 * 0.04 = 0.16 >= 0.3^2 = 0.09: satisfied.
    assert!(typical().feller_ok());
    // 2 * 0.5 * 0.01 = 0.01 < 1.0: violated, reported but not an error.
    let wild = HestonProcess::new(
        sc(100.0),
        sc(0.01),
        0,
        sc(0.5),
        sc(0.01),
        sc(1.0),
        0,
        sc(1.0),
        10,
    )
    .unwrap();
    assert!(!wild.feller_ok());
}

#[test]
fn test_heston_rejects_bad_parameters() {
    // Correlation outside [-1, 1].
    assert_eq!(
        HestonProcess::new(
            sc(100.0),
            sc(0.04),
            0,
            sc(2.0),
            sc(0.04),
            sc(0.3),
            (1.5 * S) as i64,
            sc(1.0),
            10,
        )
        .map(|p| p.spot),
        Err(PricingError::InvalidParameter)
    );
    // Zero spot, zero reversion speed, zero horizon, zero steps.
    assert_eq!(
        HestonProcess::new(0, sc(0.04), 0, sc(2.0), sc(0.04), sc(0.3), 0, sc(1.0), 10)
            .map(|p| p.spot),
        Err(PricingError::InvalidParameter)
    );
    assert_eq!(
        HestonProcess::new(sc(100.0), sc(0.04), 0, 0, sc(0.04), sc(0.3), 0, sc(1.0), 10)
            .map(|p| p.spot),
        Err(PricingError::InvalidParameter)
    );
    assert_eq!(
        HestonProcess::new(sc(100.0), sc(0.04), 0, sc(2.0), sc(0.04), sc(0.3), 0, 0, 10)
            .map(|p| p.spot),
        Err(PricingError::InvalidParameter)
    );
    assert_eq!(
        HestonProcess::new(sc(100.0), sc(0.04), 0, sc(2.0), sc(0.04), sc(0.3), 0, sc(1.0), 0)
            .map(|p| p.spot),
        Err(PricingError::InvalidParameter)
    );
}

#[test]
fn test_heston_one_step_exact() {
    // One step over one year: dt = 1, sqrt(dt) = 1.  With kappa = 1,
    // theta = v0 = 0.04 the reversion term vanishes; with vol_of_vol = 0
    // the variance shock vanishes; with drift = 0 and Z1 = +1 the price
    // moves by exactly sqrt(v0) * S(0) = 0.2 * 100 = 20.
    let process = HestonProcess::new(
        sc(100.0),
        sc(0.04),
        0,
        sc(1.0),
        sc(0.04),
        0,
        0,
        sc(1.0),
        1,
    )
    .unwrap();
    let z1 = vec![sc(1.0) as i64];
    let z2 = vec![sc(0.5) as i64];
    let (prices, variances) = process.generate_path(&z1, &z2).unwrap();
    assert_eq!(prices, vec![sc(100.0), sc(120.0)]);
    assert_eq!(variances, vec![sc(0.04), sc(0.04)]);
}

#[test]
fn test_heston_overflow_is_reported() {
    // A drift at the edge of the representable range makes the very
    // first price update overflow.
    let process = HestonProcess::new(
        i64::MAX as u64,
        sc(0.04),
        i64::MAX,
        sc(2.0),
        sc(0.04),
        sc(0.3),
        0,
        sc(1.0),
        1,
    )
    .unwrap();
    let z = vec![0i64];
    assert_eq!(
        process.generate_path(&z, &z),
        Err(PricingError::Overflow)
    );
}
