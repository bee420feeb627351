use gaussian_process::fixed::SCALE;
use gaussian_process::kernel_defs::{Kernel, Parameter, RBFKernel};

fn to_fx(v: f64) -> i64 {
    (v * SCALE as f64).round() as i64
}

fn rbf(amp: f64, ls: f64, jit: f64) -> RBFKernel {
    RBFKernel::new(
        Parameter::new(to_fx(amp), to_fx(amp), 1),
        Parameter::new(to_fx(ls), to_fx(ls), 1),
        Parameter::new(to_fx(jit), to_fx(jit), 1),
    )
}

#[test]
fn compute_is_symmetric_on_sample_points() {
    let k = rbf(1.0, 1.0, 0.01);
    let pts = [to_fx(-2.5), to_fx(-1.0), 0, to_fx(0.75), to_fx(3.25), i64::MAX, i64::MIN];
    for &a in pts.iter() {
        for &b in pts.iter() {
            assert_eq!(k.compute(a, b), k.compute(b, a));
        }
    }
}

#[test]
fn compute_matches_formula_on_the_diagonal() {
    // amplitude * exp(0) + jitter at coincident points.
    let k = rbf(1.0, 1.0, 0.01);
    assert_eq!(k.compute(0, 0), SCALE + to_fx(0.01));
    let k2 = rbf(2.0, 5.0, 0.0);
    assert_eq!(k2.compute(to_fx(1.5), to_fx(1.5)), 2 * SCALE);
}

#[test]
fn compute_decays_off_the_diagonal() {
    let k = rbf(1.0, 1.0, 0.0);
    let near = k.compute(0, to_fx(0.5));
    let far = k.compute(0, to_fx(2.0));
    assert!(near > far);
    assert!(far > 0);
    let e1 = k.compute(0, to_fx(1.0)) as f64 / SCALE as f64;
    assert!((e1 - (-1.0f64).exp()).abs() < 1e-6);
}

#[test]
fn to_next_param_walks_the_grid_in_odometer_order() {
    let mut k = RBFKernel::new(
        Parameter::new(0, 1, 1),
        Parameter::new(10, 11, 1),
        Parameter::new(20, 21, 1),
    );
    let mut seen: Vec<(i64, i64, i64)> = Vec::new();
    loop {
        let ps = k.get_hyper_params();
        seen.push((ps[0].value, ps[1].value, ps[2].value));
        if !k.to_next_param() {
            break;
        }
    }
    let expected = vec![
        (0, 10, 20),
        (1, 10, 20),
        (0, 11, 20),
        (1, 11, 20),
        (0, 10, 21),
        (1, 10, 21),
        (0, 11, 21),
        (1, 11, 21),
    ];
    assert_eq!(seen, expected);
    // One more call after exhaustion keeps reporting an advanced grid; the
    // exhaustion itself was reported exactly once above.
}

#[test]
fn to_next_param_exhausts_singleton_grid_immediately() {
    let mut k = RBFKernel::new(
        Parameter::new(5, 5, 1),
        Parameter::new(6, 6, 1),
        Parameter::new(7, 7, 1),
    );
    assert!(!k.to_next_param());
}

#[test]
fn set_hyper_params_with_wrong_arity_fails_and_keeps_state() {
    let mut k = RBFKernel::new(
        Parameter::new(1, 9, 2),
        Parameter::new(3, 9, 2),
        Parameter::new(5, 9, 2),
    );
    let before = k.get_hyper_params();
    let two = vec![Parameter::new(0, 1, 1), Parameter::new(0, 1, 1)];
    assert!(!k.set_hyper_params(two));
    let after = k.get_hyper_params();
    assert_eq!(before.len(), after.len());
    for i in 0..before.len() {
        assert_eq!(before[i].value, after[i].value);
        assert_eq!(before[i].min, after[i].min);
        assert_eq!(before[i].max, after[i].max);
        assert_eq!(before[i].step, after[i].step);
    }
}

#[test]
fn set_hyper_params_with_right_arity_replaces_state() {
    let mut k = RBFKernel::new(
        Parameter::new(1, 9, 2),
        Parameter::new(3, 9, 2),
        Parameter::new(5, 9, 2),
    );
    let three = vec![
        Parameter::new(2, 8, 3),
        Parameter::new(4, 8, 3),
        Parameter::new(6, 8, 3),
    ];
    assert!(k.set_hyper_params(three));
    let after = k.get_hyper_params();
    assert_eq!(after[0].value, 2);
    assert_eq!(after[1].value, 4);
    assert_eq!(after[2].value, 6);
}

#[test]
fn compute_likelihood_rejects_a_nonpositive_pivot() {
    let k = rbf(1.0, 1.0, 0.0);
    let gram = vec![vec![-SCALE]];
    let y = vec![SCALE];
    assert!(k.compute_likelihood(&gram, &y).is_err());
}

#[test]
fn compute_likelihood_matches_formula_on_identity_gram() {
    // gram = [[1.0]], y = [1.0]: -ln(1) - y * y = -1.
    let k = rbf(1.0, 1.0, 0.0);
    let gram = vec![vec![SCALE]];
    let y = vec![SCALE];
    let s = k.compute_likelihood(&gram, &y).unwrap();
    assert_eq!(s, -SCALE);
}
