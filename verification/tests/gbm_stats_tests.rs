use rust_quant::gbm::GeometricBrownianMotion;
use rust_quant::rng::Xoshiro256PlusPlus;
use rust_quant::stats::{mean_estimate, monte_carlo_standard_error};
use rust_quant::PricingError;
use statrs::distribution::{ContinuousCDF, Normal};

const S: f64 = 1_000_000.0;

fn sc(x: f64) -> u64 {
    (x * S).round() as u64
}

fn normal_draw(rng: &mut Xoshiro256PlusPlus, dist: &Normal) -> f64 {
    let u = rng.next_unit_numerator() as f64 * (1.0 / (1u64 << 53) as f64);
    dist.inverse_cdf(u)
}

fn growth_factors(
    rng: &mut Xoshiro256PlusPlus,
    drift: f64,
    sigma: f64,
    dt: f64,
    n: usize,
) -> Vec<u64> {
    let dist = Normal::new(0.0, 1.0).unwrap();
    let drift_term = (drift - 0.5 * sigma * sigma) * dt;
    let vol_term = sigma * dt.sqrt();
    (0..n)
        .map(|_| sc((drift_term + vol_term * normal_draw(rng, &dist)).exp()))
        .collect()
}

#[test]
fn test_gbm_path_shape_and_exact_product() {
    let gbm = GeometricBrownianMotion::new(sc(100.0), 50_000, sc(0.2), sc(1.0), 2).unwrap();
    let path = gbm.generate_path(&vec![sc(2.0), sc(0.5)]).unwrap();
    assert_eq!(path, vec![sc(100.0), sc(200.0), sc(100.0)]);
    assert_eq!(gbm.terminal_price(&vec![sc(2.0), sc(0.5)]).unwrap(), sc(100.0));
}

#[test]
fn test_gbm_rejects_bad_parameters() {
    assert_eq!(
        GeometricBrownianMotion::new(0, 0, sc(0.2), sc(1.0), 10).map(|g| g.spot),
        Err(PricingError::InvalidParameter)
    );
    assert_eq!(
        GeometricBrownianMotion::new(sc(100.0), 0, sc(0.2), 0, 10).map(|g| g.spot),
        Err(PricingError::InvalidParameter)
    );
    assert_eq!(
        GeometricBrownianMotion::new(sc(100.0), 0, sc(0.2), sc(1.0), 0).map(|g| g.spot),
        Err(PricingError::InvalidParameter)
    );
    let gbm = GeometricBrownianMotion::new(sc(100.0), 0, sc(0.2), sc(1.0), 10).unwrap();
    assert_eq!(
        gbm.generate_path(&vec![sc(1.0); 9]),
        Err(PricingError::InvalidParameter)
    );
}

#[test]
fn test_gbm_terminal_moments_match_lognormal() {
    // Terminal prices must match the analytic lognormal moments within
    // Monte-Carlo sampling error.
    let spot = 100.0;
    let mu = 0.05;
    let sigma = 0.2;
    let t = 1.0;
    let n = 100_000;
    let gbm = GeometricBrownianMotion::new(sc(spot), sc(mu) as i64, sc(sigma), sc(t), 1).unwrap();
    let mut rng = Xoshiro256PlusPlus::from_seed_u64(11);
    let mut sum = 0.0f64;
    let mut sumsq = 0.0f64;
    for _ in 0..n {
        let factors = growth_factors(&mut rng, mu, sigma, t, 1);
        let terminal = gbm.terminal_price(&factors).unwrap() as f64 / S;
        sum += terminal;
        sumsq += terminal * terminal;
    }
    let mean = sum / n as f64;
    let var = sumsq / n as f64 - mean * mean;
    let expected_mean = spot * (mu * t).exp();
    let expected_var = spot * spot * (2.0 * mu * t).exp() * ((sigma * sigma * t).exp() - 1.0);
    assert!(
        (mean - expected_mean).abs() / expected_mean < 0.005,
        "sample mean {} vs analytic {}",
        mean,
        expected_mean
    );
    assert!(
        (var - expected_var).abs() / expected_var < 0.1,
        "sample variance {} vs analytic {}",
        var,
        expected_var
    );
}

#[test]
fn test_standard_error_exact_small_cases() {
    // Two estimates of 1.0 and 3.0: mean 2, sample variance 2, standard
    // error sqrt(2/2) = 1 exactly in scaled units.
    let values = vec![sc(1.0), sc(3.0)];
    assert_eq!(mean_estimate(&values), sc(2.0));
    assert_eq!(monte_carlo_standard_error(&values), sc(1.0));
    // Identical estimates: zero dispersion, zero standard error.
    let flat = vec![sc(5.0); 10];
    assert_eq!(monte_carlo_standard_error(&flat), 0);
}

#[test]
fn test_standard_error_zero_for_tiny_samples() {
    // Fewer than two samples admit no variance estimate.
    let empty: Vec<u64> = vec![];
    assert_eq!(monte_carlo_standard_error(&empty), 0);
    assert_eq!(monte_carlo_standard_error(&vec![sc(4.2)]), 0);
}

#[test]
fn test_standard_error_shrinks_with_sample_size() {
    // Quadrupling the number of i.i.d. replicates should roughly halve
    // the standard error (the 1/sqrt(n) law).
    let mut rng = Xoshiro256PlusPlus::from_seed_u64(21);
    let draw = |rng: &mut Xoshiro256PlusPlus| -> u64 {
        // A replicate estimate in [0, 1), scaled.
        let u = rng.next_unit_numerator() as f64 * (1.0 / (1u64 << 53) as f64);
        sc(u)
    };
    let small: Vec<u64> = (0..2000).map(|_| draw(&mut rng)).collect();
    let large: Vec<u64> = (0..8000).map(|_| draw(&mut rng)).collect();
    let se_small = monte_carlo_standard_error(&small) as f64 / S;
    let se_large = monte_carlo_standard_error(&large) as f64 / S;
    let ratio = se_small / se_large;
    assert!(
        (ratio - 2.0).abs() < 0.3,
        "standard error should shrink by ~2 when n quadruples, ratio {}",
        ratio
    );
}

#[test]
fn test_gbm_overflow_is_reported() {
    // Absurd growth factors push the price out of the representable
    // range; the generator must report it rather than wrap around.
    let gbm = GeometricBrownianMotion::new(sc(100.0), 0, sc(0.2), sc(1.0), 8).unwrap();
    let factors = vec![u64::MAX / 2; 8];
    assert_eq!(gbm.generate_path(&factors), Err(PricingError::Overflow));
}
