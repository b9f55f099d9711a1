use rayon::iter::IntoParallelIterator;
use rayon::iter::ParallelIterator;
use rust_quant::brownian::BrownianMotion;
use rust_quant::rng::Xoshiro256PlusPlus;
use rust_quant::PricingError;
use statrs::distribution::{ContinuousCDF, Normal};

const S: f64 = 1_000_000.0;

fn normals(rng: &mut Xoshiro256PlusPlus, n: usize) -> Vec<i64> {
    let dist = Normal::new(0.0, 1.0).unwrap();
    let mut out = Vec::with_capacity(n);
    for _ in 0..n {
        let u = rng.next_unit_numerator() as f64 * (1.0 / (1u64 << 53) as f64);
        let z = dist.inverse_cdf(u);
        out.push((z * S).round() as i64);
    }
    out
}

#[test]
fn test_brownian_path_starts_at_zero() {
    let bm = BrownianMotion::new((1.0 * S) as u64, 100).unwrap();
    let mut rng = Xoshiro256PlusPlus::from_seed_u64(1);
    let path = bm.generate_path(&normals(&mut rng, 100)).unwrap();

    assert_eq!(path[0], 0, "Brownian motion should start at 0");
    assert_eq!(path.len(), 101, "Path length should be num_steps + 1");
}

#[test]
fn test_time_grid() {
    let bm = BrownianMotion::new((1.0 * S) as u64, 100).unwrap();
    let times = bm.time_grid();

    assert_eq!(times.len(), 101);
    assert_eq!(times[0], 0);
    assert_eq!(times[100], (1.0 * S) as u64);
}

#[test]
fn test_dt() {
    let bm = BrownianMotion::new((1.0 * S) as u64, 100).unwrap();
    assert_eq!(bm.dt(), (0.01 * S) as u64);
}

#[test]
fn test_multiple_paths() {
    let bm = BrownianMotion::new((1.0 * S) as u64, 100).unwrap();
    let mut rng = Xoshiro256PlusPlus::from_seed_u64(2);
    let paths: Vec<Vec<i64>> = (0..10).map(|_| bm.generate_path(&normals(&mut rng, 100)).unwrap()).collect();

    assert_eq!(paths.len(), 10);
    for path in paths.iter() {
        assert_eq!(path.len(), 101);
        assert_eq!(path[0], 0);
    }
}

#[test]
fn test_parallel_paths() {
    let bm = BrownianMotion::new((1.0 * S) as u64, 100).unwrap();
    let paths: Vec<Vec<i64>> = (0..100u64)
        .into_par_iter()
        .map(|i| {
            let mut rng = Xoshiro256PlusPlus::from_seed_u64(1000 + i);
            bm.generate_path(&normals(&mut rng, 100)).unwrap()
        })
        .collect();

    assert_eq!(paths.len(), 100);
    for path in paths.iter() {
        assert_eq!(path.len(), 101);
        assert_eq!(path[0], 0);
    }
}

#[test]
fn test_antithetic_variates() {
    let bm = BrownianMotion::new((1.0 * S) as u64, 100).unwrap();
    let mut rng = Xoshiro256PlusPlus::from_seed_u64(3);
    let (path1, path2) = bm.generate_antithetic_paths(&normals(&mut rng, 100)).unwrap();

    assert_eq!(path1[0], 0);
    assert_eq!(path2[0], 0);
    assert_eq!(path1.len(), path2.len());

    // The antithetic path is the exact pointwise negation, so the pair
    // cancels completely.
    for k in 0..path1.len() {
        assert_eq!(path2[k], -path1[k], "Antithetic paths should cancel");
    }
}

#[test]
fn test_increments_variance() {
    let bm = BrownianMotion::new((1.0 * S) as u64, 100).unwrap();
    let mut rng = Xoshiro256PlusPlus::from_seed_u64(4);
    let finals: Vec<f64> = (0..10000)
        .map(|_| *bm.generate_path(&normals(&mut rng, 100)).unwrap().last().unwrap() as f64 / S)
        .collect();

    let mean: f64 = finals.iter().sum::<f64>() / finals.len() as f64;
    let variance: f64 =
        finals.iter().map(|x| (x - mean).powi(2)).sum::<f64>() / finals.len() as f64;

    assert!(mean.abs() < 0.05, "Mean of W(T) should be ~0, got {}", mean);
    assert!(
        (variance - 1.0).abs() < 0.1,
        "Variance of W(T) should be ~T=1.0, got {}",
        variance
    );
}

#[test]
fn test_brownian_rejects_bad_parameters() {
    assert_eq!(
        BrownianMotion::new(0, 100).map(|b| b.time_horizon),
        Err(PricingError::InvalidParameter)
    );
    assert_eq!(
        BrownianMotion::new((1.0 * S) as u64, 0).map(|b| b.time_horizon),
        Err(PricingError::InvalidParameter)
    );
    let bm = BrownianMotion::new((1.0 * S) as u64, 100).unwrap();
    let mut rng = Xoshiro256PlusPlus::from_seed_u64(5);
    assert_eq!(
        bm.generate_path(&normals(&mut rng, 99)),
        Err(PricingError::InvalidParameter)
    );
}

#[test]
fn test_brownian_overflow_is_reported() {
    // A huge horizon and consistently extreme increments push the
    // running sum out of the representable range.
    let bm = BrownianMotion::new(u64::MAX, 10_000_000).unwrap();
    let z = vec![1_000_000_000i64; 10_000_000];
    assert_eq!(bm.generate_path(&z), Err(PricingError::Overflow));
}
