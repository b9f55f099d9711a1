use rust_quant::gbm::GeometricBrownianMotion;
use rust_quant::lattice::{lattice_price, LatticeParams};
use rust_quant::lsm::{eval_fit, FitOutcome, LsmSweep};
use rust_quant::rng::Xoshiro256PlusPlus;
use rust_quant::PricingError;
use statrs::distribution::{ContinuousCDF, Normal};

const S: f64 = 1_000_000.0;

fn sc(x: f64) -> u64 {
    (x * S).round() as u64
}

fn sci(x: f64) -> i64 {
    (x * S).round() as i64
}

/// Ordinary least squares for `y = a + b x + c x^2` by the closed-form
/// determinant expansion, with the degenerate fallback made explicit.
fn regress(xs_scaled: &[u64], ys_scaled: &[u64]) -> FitOutcome {
    let n = xs_scaled.len() as f64;
    let x: Vec<f64> = xs_scaled.iter().map(|&v| v as f64 / S).collect();
    let y: Vec<f64> = ys_scaled.iter().map(|&v| v as f64 / S).collect();
    let sum_x: f64 = x.iter().sum();
    let sum_x2: f64 = x.iter().map(|v| v * v).sum();
    let sum_x3: f64 = x.iter().map(|v| v * v * v).sum();
    let sum_x4: f64 = x.iter().map(|v| v * v * v * v).sum();
    let sum_y: f64 = y.iter().sum();
    let sum_xy: f64 = x.iter().zip(&y).map(|(a, b)| a * b).sum();
    let sum_x2y: f64 = x.iter().zip(&y).map(|(a, b)| a * a * b).sum();

    let det = n * (sum_x2 * sum_x4 - sum_x3 * sum_x3) - sum_x * (sum_x * sum_x4 - sum_x2 * sum_x3)
        + sum_x2 * (sum_x * sum_x3 - sum_x2 * sum_x2);
    if det.abs() < 1e-10 {
        return FitOutcome::Degenerate;
    }
    let det_a = sum_y * (sum_x2 * sum_x4 - sum_x3 * sum_x3)
        - sum_x * (sum_xy * sum_x4 - sum_x2y * sum_x3)
        + sum_x2 * (sum_xy * sum_x3 - sum_x2y * sum_x2);
    let det_b = n * (sum_xy * sum_x4 - sum_x2y * sum_x3)
        - sum_y * (sum_x * sum_x4 - sum_x2 * sum_x3)
        + sum_x2 * (sum_x * sum_x2y - sum_xy * sum_x2);
    let det_c = n * (sum_x2 * sum_x2y - sum_x3 * sum_xy)
        - sum_x * (sum_x * sum_x2y - sum_x2 * sum_xy)
        + sum_y * (sum_x * sum_x3 - sum_x2 * sum_x2);
    FitOutcome::Solved {
        a: sci(det_a / det),
        b: sci(det_b / det),
        c: sci(det_c / det),
    }
}

/// Longstaff-Schwartz price of an American put: simulate paths, then walk
/// backwards deciding exercise against the fitted continuation value.
fn american_put_lsm(
    spot: f64,
    strike: f64,
    rate: f64,
    sigma: f64,
    t: f64,
    num_paths: usize,
    num_steps: usize,
    seed: u64,
) -> f64 {
    let dt = t / num_steps as f64;
    let gbm =
        GeometricBrownianMotion::new(sc(spot), sci(rate), sc(sigma), sc(t), num_steps).unwrap();
    let dist = Normal::new(0.0, 1.0).unwrap();
    let drift_term = (rate - 0.5 * sigma * sigma) * dt;
    let vol_term = sigma * dt.sqrt();
    let mut rng = Xoshiro256PlusPlus::from_seed_u64(seed);
    let mut paths: Vec<Vec<u64>> = Vec::with_capacity(num_paths);
    for _ in 0..num_paths {
        let factors: Vec<u64> = (0..num_steps)
            .map(|_| {
                let u = rng.next_unit_numerator() as f64 * (1.0 / (1u64 << 53) as f64);
                let z = dist.inverse_cdf(u);
                sc((drift_term + vol_term * z).exp())
            })
            .collect();
        paths.push(gbm.generate_path(&factors).unwrap());
    }
    let disc = sc((-rate * dt).exp());
    let mut sweep = LsmSweep::new(paths, sc(strike), disc, false).unwrap();
    for step in (1..num_steps).rev() {
        let itm = sweep.itm_paths(step);
        if itm.is_empty() {
            continue;
        }
        let (xs, ys) = sweep.regression_inputs(step, &itm);
        let fit = regress(&xs, &ys);
        let cont = eval_fit(&xs, &ys, fit).unwrap();
        sweep.apply_exercise(step, &itm, &cont);
    }
    sweep.price() as f64 / S
}

#[test]
fn test_lsm_agrees_with_lattice() {
    // The two pricers solve the same optimal-stopping problem with
    // different machinery; on the reference contract they must agree
    // within 2%.
    let dt: f64 = 1.0 / 500.0;
    let u = (0.2f64 * dt.sqrt()).exp();
    let lattice = LatticeParams {
        spot: sc(36.0),
        strike: sc(40.0),
        up: sc(u),
        down: sc(1.0 / u),
        prob: sc((((0.06f64) * dt).exp() - 1.0 / u) / (u - 1.0 / u)),
        disc: sc((-0.06f64 * dt).exp()),
        steps: 500,
        is_call: false,
    };
    let tree = lattice_price(lattice).unwrap() as f64 / S;
    let lsm = american_put_lsm(36.0, 40.0, 0.06, 0.2, 1.0, 50_000, 50, 99);
    let rel = (lsm - tree).abs() / tree;
    assert!(rel < 0.02, "lsm {} vs lattice {} (rel {})", lsm, tree, rel);
}

#[test]
fn test_regression_fallback_on_identical_prices() {
    // Zero variance in the independent variable makes the normal
    // equations singular; the fit degenerates to the mean of the targets
    // for every input.
    let xs = vec![sc(5.0); 4];
    let ys = vec![sc(1.0), sc(2.0), sc(3.0), sc(4.0)];
    let fit = regress(&xs, &ys);
    assert_eq!(fit, FitOutcome::Degenerate);
    let cont = eval_fit(&xs, &ys, fit).unwrap();
    assert_eq!(cont, vec![sci(2.5); 4]);
}

#[test]
fn test_eval_fit_polynomial_exact() {
    // a + b x + c x^2 at x = 4 with (a, b, c) = (1, 2, 0.5): 17 exactly.
    let xs = vec![sc(4.0), sc(2.0)];
    let ys = vec![0, 0];
    let fit = FitOutcome::Solved { a: sci(1.0), b: sci(2.0), c: sci(0.5) };
    let cont = eval_fit(&xs, &ys, fit).unwrap();
    assert_eq!(cont, vec![sci(17.0), sci(7.0)]);
}

#[test]
fn test_sweep_bookkeeping_exact() {
    // Two paths over two steps, a put at strike 100, discount 0.9 per
    // step.  The first path finishes in the money and exercises early at
    // step 1; the second never pays.
    let paths = vec![
        vec![sc(100.0), sc(90.0), sc(95.0)],
        vec![sc(100.0), sc(105.0), sc(110.0)],
    ];
    let mut sweep = LsmSweep::new(paths, sc(100.0), sc(0.9), false).unwrap();
    assert_eq!(sweep.num_paths(), 2);
    assert_eq!(sweep.num_steps(), 2);
    // Terminal cash flows: 100 - 95 = 5 on the first path, none on the
    // second.
    assert_eq!(sweep.exercise_step(0), Some(2));
    assert_eq!(sweep.exercise_step(1), None);
    assert_eq!(sweep.cash_flow(0, 2), sc(5.0));
    assert_eq!(sweep.cash_flow(0, 1), 0);

    let itm = sweep.itm_paths(1);
    assert_eq!(itm, vec![0]);
    let (xs, ys) = sweep.regression_inputs(1, &itm);
    assert_eq!(xs, vec![sc(90.0)]);
    // Discounted future cash flow: 5 * 0.9 = 4.5.
    assert_eq!(ys, vec![sc(4.5)]);

    // Continuation worth 4.5 < intrinsic 10: exercise at step 1, which
    // erases the later cash flow.
    sweep.apply_exercise(1, &itm, &vec![sci(4.5)]);
    assert_eq!(sweep.exercise_step(0), Some(1));
    assert_eq!(sweep.cash_flow(0, 2), 0);
    assert_eq!(sweep.cash_flow(0, 1), sc(10.0));

    // Present value: 10 * 0.9 on the first path, 0 on the second,
    // averaged over both.
    assert_eq!(sweep.price(), sc(4.5));
}

#[test]
fn test_sweep_ties_favor_continuation() {
    // Intrinsic exactly equal to the continuation value must not
    // exercise (strict comparison).
    let paths = vec![
        vec![sc(100.0), sc(90.0), sc(95.0)],
        vec![sc(100.0), sc(105.0), sc(110.0)],
    ];
    let mut sweep = LsmSweep::new(paths, sc(100.0), sc(1.0), false).unwrap();
    let itm = sweep.itm_paths(1);
    sweep.apply_exercise(1, &itm, &vec![sci(10.0)]);
    assert_eq!(sweep.exercise_step(0), Some(2), "a tie must keep the later cash flow");
}

#[test]
fn test_sweep_rejects_bad_inputs() {
    let ragged = vec![vec![sc(1.0), sc(2.0)], vec![sc(1.0)]];
    assert!(matches!(
        LsmSweep::new(ragged, sc(1.0), sc(1.0), false),
        Err(PricingError::InvalidParameter)
    ));
    let empty: Vec<Vec<u64>> = vec![];
    assert!(matches!(
        LsmSweep::new(empty, sc(1.0), sc(1.0), false),
        Err(PricingError::InvalidParameter)
    ));
    let good = vec![vec![sc(1.0), sc(2.0)]];
    assert!(matches!(
        LsmSweep::new(good.clone(), 0, sc(1.0), false),
        Err(PricingError::InvalidParameter)
    ));
    assert!(matches!(
        LsmSweep::new(good, sc(1.0), sc(1.0) + 1, false),
        Err(PricingError::InvalidParameter)
    ));
}

#[test]
fn test_eval_fit_overflow_is_reported() {
    // A price beyond the signed range cannot be evaluated.
    let xs = vec![u64::MAX];
    let ys = vec![0];
    let fit = FitOutcome::Solved { a: 0, b: sci(1.0), c: 0 };
    assert_eq!(eval_fit(&xs, &ys, fit), Err(PricingError::Overflow));
}
