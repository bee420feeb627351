use gaussian_process::fixed::SCALE;
use gaussian_process::kernel_defs::{Kernel, Parameter, RBFKernel, GpError};
use gaussian_process::gaussian_process::{GaussianProcess, compute_gram_matrix};

fn to_fx(v: f64) -> i64 {
    (v * SCALE as f64).round() as i64
}

fn from_fx(u: i64) -> f64 {
    u as f64 / SCALE as f64
}

fn fixed_rbf(amp: f64, ls: f64, jit: f64) -> RBFKernel {
    RBFKernel::new(
        Parameter::new(to_fx(amp), to_fx(amp), 1),
        Parameter::new(to_fx(ls), to_fx(ls), 1),
        Parameter::new(to_fx(jit), to_fx(jit), 1),
    )
}

fn sin_train() -> (Vec<i64>, Vec<i64>) {
    let xs = vec![to_fx(-1.0), 0, to_fx(1.0)];
    let ys = vec![to_fx((-1.0f64).sin()), 0, to_fx(1.0f64.sin())];
    (xs, ys)
}

#[test]
fn gram_matrix_is_square_and_symmetric() {
    let k = fixed_rbf(1.0, 1.0, 0.01);
    let xs = vec![to_fx(-2.0), to_fx(-0.5), to_fx(0.25), to_fx(1.75)];
    let g = compute_gram_matrix(&xs, &xs, &k);
    assert_eq!(g.len(), 4);
    for row in g.iter() {
        assert_eq!(row.len(), 4);
    }
    for i in 0..4 {
        for j in 0..4 {
            assert_eq!(g[i][j], g[j][i]);
        }
    }
}

#[test]
fn gram_matrix_cross_covariance_shape() {
    let k = fixed_rbf(1.0, 1.0, 0.0);
    let xs = vec![0, to_fx(1.0)];
    let qs = vec![to_fx(-1.0), 0, to_fx(0.5)];
    let g = compute_gram_matrix(&xs, &qs, &k);
    assert_eq!(g.len(), 2);
    for row in g.iter() {
        assert_eq!(row.len(), 3);
    }
    // Entry (i, j) is compute(xs[i], qs[j]).
    assert_eq!(g[0][1], k.compute(0, 0));
    assert_eq!(g[1][0], k.compute(to_fx(1.0), to_fx(-1.0)));
}

#[test]
fn new_rejects_empty_training_set() {
    let k = fixed_rbf(1.0, 1.0, 0.01);
    let r = GaussianProcess::new(Vec::new(), Vec::new(), k);
    assert!(matches!(r, Err(GpError::DegenerateInput)));
}

#[test]
fn predict_rejects_empty_query_set() {
    let (xs, ys) = sin_train();
    let k = fixed_rbf(1.0, 1.0, 0.01);
    let mut gp = GaussianProcess::new(xs, ys, k).unwrap();
    let r = gp.predict(&Vec::new());
    assert!(matches!(r, Err(GpError::DegenerateInput)));
}

#[test]
fn predict_reports_singular_gram_for_duplicate_points_without_jitter() {
    // Two identical training inputs and no jitter: the gram matrix has two
    // equal rows, so the elimination hits a zero pivot.
    let xs = vec![0, 0];
    let ys = vec![to_fx(0.5), to_fx(0.5)];
    let k = fixed_rbf(1.0, 1.0, 0.0);
    let mut gp = GaussianProcess::new(xs, ys, k).unwrap();
    let r = gp.predict(&vec![to_fx(0.5)]);
    assert!(matches!(r, Err(GpError::SingularMatrix)));
}

#[test]
fn predict_on_sine_scenario_is_accurate_at_zero() {
    // Train on sin at [-1, 0, 1] with amplitude 1, length-scale 1,
    // jitter 0.01; the prediction at 0 must land within 0.05 of sin(0)
    // with an uncertainty below 1.
    let (xs, ys) = sin_train();
    let k = fixed_rbf(1.0, 1.0, 0.01);
    let mut gp = GaussianProcess::new(xs, ys, k).unwrap();
    let (mean, sigma) = gp.predict(&vec![0]).unwrap();
    assert_eq!(mean.len(), 1);
    assert_eq!(sigma.len(), 1);
    assert!(from_fx(mean[0]).abs() < 0.05);
    assert!(from_fx(sigma[0]) < 1.0);
    assert!(sigma[0] >= 0);
}

#[test]
fn predict_recovers_training_targets_in_the_noiseless_limit() {
    // With zero jitter, predicting at a training point reproduces its
    // target value and reports (nearly) no uncertainty.
    let (xs, ys) = sin_train();
    let k = fixed_rbf(1.0, 1.0, 0.0);
    let mut gp = GaussianProcess::new(xs.clone(), ys.clone(), k).unwrap();
    let (mean, sigma) = gp.predict(&xs).unwrap();
    for j in 0..xs.len() {
        assert!((from_fx(mean[j]) - from_fx(ys[j])).abs() < 1e-6);
        assert!(from_fx(sigma[j]) < 1e-3);
        assert!(sigma[j] >= 0);
    }
}

#[test]
fn predict_sigma_is_nonnegative_everywhere() {
    let (xs, ys) = sin_train();
    let k = fixed_rbf(1.0, 1.0, 0.01);
    let mut gp = GaussianProcess::new(xs, ys, k).unwrap();
    let qs: Vec<i64> = (-8..=8).map(|i| to_fx(i as f64 * 0.33)).collect();
    let (mean, sigma) = gp.predict(&qs).unwrap();
    assert_eq!(mean.len(), qs.len());
    assert_eq!(sigma.len(), qs.len());
    for s in sigma.iter() {
        assert!(*s >= 0);
    }
}

#[test]
fn optimizer_never_scores_below_the_initial_configuration() {
    let (xs, ys) = sin_train();
    // A small real grid over all three parameters.
    let grid = RBFKernel::new(
        Parameter::new(to_fx(0.5), to_fx(2.0), to_fx(0.5)),
        Parameter::new(to_fx(0.5), to_fx(2.0), to_fx(0.5)),
        Parameter::new(to_fx(0.01), to_fx(0.05), to_fx(0.02)),
    );
    // Score of the all-minimum configuration.
    let initial = RBFKernel::new(
        Parameter::new(to_fx(0.5), to_fx(2.0), to_fx(0.5)),
        Parameter::new(to_fx(0.5), to_fx(2.0), to_fx(0.5)),
        Parameter::new(to_fx(0.01), to_fx(0.05), to_fx(0.02)),
    );
    let gram0 = compute_gram_matrix(&xs, &xs, &initial);
    let s0 = initial.compute_likelihood(&gram0, &ys).unwrap();

    let mut gp = GaussianProcess::new(xs.clone(), ys.clone(), grid).unwrap();
    let report = gp.optimize_hyperparameters();
    let s = report.score.unwrap();
    assert!(s >= s0);

    // The kernel is left on the reported parameters, and their score is
    // the reported one.
    let left = gp.kernel.get_hyper_params();
    assert_eq!(left.len(), report.params.len());
    for i in 0..left.len() {
        assert_eq!(left[i].value, report.params[i].value);
    }
    let gram_best = compute_gram_matrix(&xs, &xs, &gp.kernel);
    assert_eq!(gp.kernel.compute_likelihood(&gram_best, &ys).unwrap(), s);
}

#[test]
fn optimizer_keeps_the_earliest_configuration_on_ties() {
    // A single training point at 0: the kernel value there is
    // amplitude + jitter, independent of the length-scale, so all
    // length-scale grid points tie and the first (minimum) must be kept.
    let xs = vec![0];
    let ys = vec![to_fx(0.5)];
    let grid = RBFKernel::new(
        Parameter::new(to_fx(1.0), to_fx(1.0), 1),
        Parameter::new(to_fx(1.0), to_fx(3.0), to_fx(1.0)),
        Parameter::new(to_fx(0.01), to_fx(0.01), 1),
    );
    let mut gp = GaussianProcess::new(xs, ys, grid).unwrap();
    let report = gp.optimize_hyperparameters();
    assert!(report.score.is_some());
    assert_eq!(report.params[1].value, to_fx(1.0));
}

#[test]
fn optimizer_skips_singular_grid_points() {
    // With zero amplitude and zero jitter the gram matrix is all zeros, so
    // the first grid point is singular; it must be skipped, not abort the
    // search, and the viable amplitude wins.
    let xs = vec![0];
    let ys = vec![to_fx(0.3)];
    let grid = RBFKernel::new(
        Parameter::new(0, to_fx(1.0), to_fx(1.0)),
        Parameter::new(to_fx(1.0), to_fx(1.0), 1),
        Parameter::new(0, 0, 1),
    );
    let mut gp = GaussianProcess::new(xs, ys, grid).unwrap();
    let report = gp.optimize_hyperparameters();
    assert!(report.score.is_some());
    assert_eq!(report.params[0].value, to_fx(1.0));
}

#[test]
fn optimizer_reports_no_score_when_every_grid_point_is_singular() {
    let xs = vec![0, 0];
    let ys = vec![to_fx(0.3), to_fx(0.3)];
    let grid = RBFKernel::new(
        Parameter::new(to_fx(1.0), to_fx(1.0), 1),
        Parameter::new(to_fx(1.0), to_fx(1.0), 1),
        Parameter::new(0, 0, 1),
    );
    let mut gp = GaussianProcess::new(xs, ys, grid).unwrap();
    let report = gp.optimize_hyperparameters();
    assert!(report.score.is_none());
    // The kernel is left on the all-minimum configuration.
    assert_eq!(report.params[2].value, 0);
}
