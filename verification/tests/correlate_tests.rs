use rust_quant::correlate::{correlated_pairs, sqrt_term};
use rust_quant::rng::Xoshiro256PlusPlus;
use rust_quant::PricingError;
use statrs::distribution::{ContinuousCDF, Normal};

const S: f64 = 1_000_000.0;

fn sc(x: f64) -> u64 {
    (x * S).round() as u64
}

fn sci(x: f64) -> i64 {
    (x * S).round() as i64
}

fn normals(rng: &mut Xoshiro256PlusPlus, n: usize) -> Vec<i64> {
    let dist = Normal::new(0.0, 1.0).unwrap();
    (0..n)
        .map(|_| {
            let u = rng.next_unit_numerator() as f64 * (1.0 / (1u64 << 53) as f64);
            sci(dist.inverse_cdf(u))
        })
        .collect()
}

#[test]
fn test_sqrt_term_exact() {
    // 1 - 0.6^2 = 0.64, whose square root is exactly 0.8 in scaled units.
    assert_eq!(sqrt_term(sci(0.6)), sc(0.8));
    assert_eq!(sqrt_term(sci(-0.6)), sc(0.8));
    assert_eq!(sqrt_term(0), sc(1.0));
    assert_eq!(sqrt_term(sci(1.0)), 0);
    assert_eq!(sqrt_term(sci(-1.0)), 0);
}

#[test]
fn test_correlated_pair_exact() {
    // rho = 0.6, sqrt term 0.8: Z2 = 0.6 * 2 + 0.8 * 1 = 2.
    let z1 = vec![sci(2.0)];
    let z2i = vec![sci(1.0)];
    let z2 = correlated_pairs(sci(0.6), &z1, &z2i).unwrap();
    assert_eq!(z2, vec![sci(2.0)]);
    // rho = 0 leaves the independent stream untouched.
    let same = correlated_pairs(0, &z1, &z2i).unwrap();
    assert_eq!(same, z2i);
    // rho = 1 copies the first stream.
    let copy = correlated_pairs(sci(1.0), &z1, &z2i).unwrap();
    assert_eq!(copy, z1);
}

#[test]
fn test_correlation_out_of_range_rejected() {
    let z = vec![sci(1.0)];
    assert_eq!(
        correlated_pairs(sci(1.5), &z, &z),
        Err(PricingError::InvalidParameter)
    );
    assert_eq!(
        correlated_pairs(sci(-1.5), &z, &z),
        Err(PricingError::InvalidParameter)
    );
    let longer = vec![sci(1.0), sci(2.0)];
    assert_eq!(
        correlated_pairs(sci(0.5), &z, &longer),
        Err(PricingError::InvalidParameter)
    );
}

#[test]
fn test_sample_correlation_matches_rho() {
    let mut rng = Xoshiro256PlusPlus::from_seed_u64(77);
    let n = 50_000;
    let z1 = normals(&mut rng, n);
    let z2i = normals(&mut rng, n);
    let rho = -0.7;
    let z2 = correlated_pairs(sci(rho), &z1, &z2i).unwrap();
    let a: Vec<f64> = z1.iter().map(|&v| v as f64 / S).collect();
    let b: Vec<f64> = z2.iter().map(|&v| v as f64 / S).collect();
    let mean = |v: &[f64]| v.iter().sum::<f64>() / v.len() as f64;
    let ma = mean(&a);
    let mb = mean(&b);
    let cov: f64 =
        a.iter().zip(&b).map(|(&x, &y)| (x - ma) * (y - mb)).sum::<f64>() / n as f64;
    let va: f64 = a.iter().map(|&x| (x - ma) * (x - ma)).sum::<f64>() / n as f64;
    let vb: f64 = b.iter().map(|&y| (y - mb) * (y - mb)).sum::<f64>() / n as f64;
    let sample_rho = cov / (va.sqrt() * vb.sqrt());
    assert!(
        (sample_rho - rho).abs() < 0.02,
        "sample correlation {} should be near {}",
        sample_rho,
        rho
    );
}
