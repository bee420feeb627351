//! The Gaussian-process regression model: gram-matrix construction, the
//! exhaustive grid-search hyperparameter optimizer, and posterior
//! mean/uncertainty prediction through linear solves.

use vstd::prelude::*;
use crate::fixed::{fx_add, fx_add_spec, fx_sub, fx_sub_spec, fx_mul, fx_mul_spec, fx_sqrt,
    SCALE};
use crate::kernel_defs::{Kernel, Parameter, GpError};
use crate::linalg::{dot, dot_spec, gauss_spec, solve_many, rows_view};

verus! {

/// Pairwise kernel evaluations of two input vectors: entry `(i, j)` is
/// `compute(xs1[i], xs2[j])`.
pub open spec fn gram_spec<K: Kernel>(k: K, xs1: Seq<i64>, xs2: Seq<i64>) -> Seq<Seq<i64>> {
    Seq::new(xs1.len(), |i: int| Seq::new(xs2.len(), |j: int| k.compute_spec(xs1[i], xs2[j])))
}

/// The likelihood score a kernel state earns on a training set: its
/// likelihood against its own self-covariance gram matrix.
pub open spec fn score_of<K: Kernel>(k: K, xs: Seq<i64>, ys: Seq<i64>) -> Option<i64> {
    k.likelihood_spec(gram_spec(k, xs, xs), ys)
}

/// The score of `c` does not beat a running best: either `c`'s likelihood
/// is undefined, or the best is defined and at least as large.
pub open spec fn score_bounded<K: Kernel>(c: K, xs: Seq<i64>, ys: Seq<i64>, best: Option<i64>)
    -> bool {
    match score_of(c, xs, ys) {
        Option::Some(sc) => match best {
            Option::Some(b) => sc <= b,
            Option::None => false,
        },
        Option::None => true,
    }
}

/// The score of `c` lies strictly below a defined best (or is undefined):
/// used to state that earlier grid positions never tie the winner.
pub open spec fn score_strictly_below<K: Kernel>(
    c: K,
    xs: Seq<i64>,
    ys: Seq<i64>,
    best: Option<i64>,
) -> bool {
    match score_of(c, xs, ys) {
        Option::Some(sc) => match best {
            Option::Some(b) => sc < b,
            Option::None => false,
        },
        Option::None => true,
    }
}

/// The self-covariance gram matrix is square with the training size, and
/// symmetric, because the kernel itself is symmetric.
pub proof fn lemma_gram_symmetric<K: Kernel>(k: K, xs: Seq<i64>)
    ensures
        gram_spec(k, xs, xs).len() == xs.len(),
        forall|i: int| 0 <= i < xs.len() ==> #[trigger] gram_spec(k, xs, xs)[i].len() == xs.len(),
        forall|i: int, j: int| 0 <= i < xs.len() && 0 <= j < xs.len() ==> #[trigger] gram_spec(
            k,
            xs,
            xs,
        )[i][j] == gram_spec(k, xs, xs)[j][i],
{
    assert forall|i: int, j: int| 0 <= i < xs.len() && 0 <= j < xs.len() implies #[trigger]
        gram_spec(k, xs, xs)[i][j] == gram_spec(k, xs, xs)[j][i] by {
        k.lemma_compute_symmetric(xs[i], xs[j]);
    }
}

/// Dense pairwise kernel evaluation over two input vectors.
pub fn compute_gram_matrix<K: Kernel>(x1: &Vec<i64>, x2: &Vec<i64>, kernel: &K) -> (m: Vec<
    Vec<i64>,
>)
    ensures
        rows_view(m@) == gram_spec(*kernel, x1@, x2@),
        m@.len() == x1@.len(),
        forall|i: int| 0 <= i < x1@.len() ==> #[trigger] m@[i]@.len() == x2@.len(),
{
    let mut m: Vec<Vec<i64>> = Vec::new();
    let mut i: usize = 0;
    while i < x1.len()
        invariant
            i <= x1@.len(),
            m@.len() == i,
            forall|t: int| 0 <= t < i ==> #[trigger] m@[t]@ == gram_spec(*kernel, x1@, x2@)[t],
            forall|t: int| 0 <= t < i ==> #[trigger] m@[t]@.len() == x2@.len(),
        decreases x1@.len() - i,
    {
        let mut row: Vec<i64> = Vec::new();
        let mut j: usize = 0;
        while j < x2.len()
            invariant
                i < x1@.len(),
                j <= x2@.len(),
                row@.len() == j,
                forall|t: int| 0 <= t < j ==> #[trigger] row@[t] == kernel.compute_spec(
                    x1@[i as int],
                    x2@[t],
                ),
            decreases x2@.len() - j,
        {
            row.push(kernel.compute(x1[i], x2[j]));
            j += 1;
        }
        proof {
            assert(row@ =~= gram_spec(*kernel, x1@, x2@)[i as int]);
        }
        m.push(row);
        i += 1;
    }
    proof {
        assert(rows_view(m@) =~~= gram_spec(*kernel, x1@, x2@));
    }
    m
}

/// What the grid search found: the chosen parameter snapshot and its
/// likelihood score (`None` when no grid combination had a defined
/// likelihood).
pub struct OptimizeReport {
    pub params: Vec<Parameter>,
    pub score: Option<i64>,
}

/// A Gaussian-process regression model over fixed-point scalars.  The
/// gram matrix is a cache derived from the kernel and training inputs.
pub struct GaussianProcess<K: Kernel> {
    pub x_train: Vec<i64>,
    pub y_train: Vec<i64>,
    pub kernel: K,
    pub gram_matrix: Vec<Vec<i64>>,
}

impl<K: Kernel> GaussianProcess<K> {
    /// Training vectors have matching non-zero length, the kernel is
    /// well-formed, and the cached gram matrix is square of that size.
    pub open spec fn wf(self) -> bool {
        &&& self.x_train@.len() == self.y_train@.len()
        &&& self.x_train@.len() >= 1
        &&& self.kernel.wf_spec()
        &&& self.gram_matrix@.len() == self.x_train@.len()
        &&& forall|i: int| 0 <= i < self.gram_matrix@.len() ==> #[trigger] self.gram_matrix@[i]@
            .len() == self.x_train@.len()
    }

    /// Build a model over a training set, computing the self-covariance
    /// gram matrix; an empty training set is refused before any linear
    /// algebra.
    pub fn new(x_train: Vec<i64>, y_train: Vec<i64>, kernel: K) -> (r: Result<
        GaussianProcess<K>,
        GpError,
    >)
        requires
            x_train@.len() == y_train@.len(),
            kernel.wf_spec(),
        ensures
            match r {
                Ok(gp) => {
                    &&& x_train@.len() >= 1
                    &&& gp.wf()
                    &&& gp.x_train@ == x_train@
                    &&& gp.y_train@ == y_train@
                    &&& gp.kernel == kernel
                    &&& rows_view(gp.gram_matrix@) == gram_spec(kernel, x_train@, x_train@)
                },
                Err(e) => e == GpError::DegenerateInput && x_train@.len() == 0,
            },
    {
        if x_train.len() == 0 {
            return Err(GpError::DegenerateInput);
        }
        let gram_matrix = compute_gram_matrix(&x_train, &x_train, &kernel);
        Ok(GaussianProcess { x_train, y_train, kernel, gram_matrix })
    }

    /// Exhaustive grid search over the kernel's hyperparameter grid,
    /// starting from the all-minimum configuration: every combination is
    /// scored by marginal log-likelihood against the training set,
    /// combinations whose likelihood is undefined (singular gram matrix)
    /// are skipped, and the kernel is left on the best-scoring combination
    /// (the earliest such, on ties).  The returned report carries the
    /// chosen parameters and their score.  The contract pins the search
    /// down: the returned score is the likelihood of the returned
    /// configuration, no combination of the grid scores above it (so in
    /// particular the all-minimum configuration does not), and every
    /// combination placed before the chosen one in odometer order scores
    /// strictly below it — ties keep the earliest.
    pub fn optimize_hyperparameters(&mut self) -> (report: OptimizeReport)
        requires
            old(self).wf(),
        ensures
            final(self).wf(),
            final(self).x_train@ == old(self).x_train@,
            final(self).y_train@ == old(self).y_train@,
            final(self).gram_matrix@ == old(self).gram_matrix@,
            report.params@ == final(self).kernel.params_spec(),
            ({
                let k0 = old(self).kernel.at_min_spec();
                let xs = old(self).x_train@;
                let ys = old(self).y_train@;
                match report.score {
                    Some(s) => {
                        &&& score_of(final(self).kernel, xs, ys) == Some(s)
                        &&& (score_of(k0, xs, ys) matches Some(s0) ==> s0 <= s)
                    },
                    None => score_of(k0, xs, ys) is None && final(self).kernel == k0,
                }
            }),
            forall|c: K| c.grid_ok() && #[trigger] c.same_grid_family(&old(self).kernel)
                ==> score_bounded(c, old(self).x_train@, old(self).y_train@, report.score),
            report.score is Some ==> forall|c: K|
                c.grid_ok() && #[trigger] c.same_grid_family(&old(self).kernel) && c.grid_pos()
                    < final(self).kernel.grid_pos() ==> score_strictly_below(
                    c,
                    old(self).x_train@,
                    old(self).y_train@,
                    report.score,
                ),
    {
        let ghost xs = self.x_train@;
        let ghost ys = self.y_train@;
        let ghost g0 = self.gram_matrix@;
        let ghost korig = self.kernel;
        self.kernel.reset_params();
        proof {
            old(self).kernel.lemma_at_min_idempotent();
        }
        let ghost k0 = self.kernel;
        let mut best_params = self.kernel.get_hyper_params();
        let ghost mut best_kernel = self.kernel;
        let mut best: Option<i64> = None;
        let ghost mut evaluated = false;
        proof {
            assert forall|c: K|
                c.grid_ok() && #[trigger] c.same_grid_family(&korig) && c.grid_pos()
                    < self.kernel.grid_pos() implies score_bounded(c, xs, ys, best) by {
                c.lemma_grid_pos_bounds();
            }
            assert forall|c: K|
                c.grid_ok() && #[trigger] c.same_grid_family(&korig) && c.grid_pos()
                    < best_kernel.grid_pos() implies score_strictly_below(c, xs, ys, best) by {
                c.lemma_grid_pos_bounds();
            }
        }
        loop
            invariant_except_break
                self.kernel.wf_spec(),
                self.kernel.grid_ok(),
                self.kernel.same_grid_family(&korig),
                forall|c: K| c.grid_ok() && #[trigger] c.same_grid_family(&korig)
                    && c.grid_pos() < self.kernel.grid_pos() ==> score_bounded(c, xs, ys, best),
            invariant
                self.x_train@ == xs,
                self.y_train@ == ys,
                self.y_train@.len() == self.x_train@.len(),
                self.x_train@.len() >= 1,
                self.gram_matrix@ == g0,
                best_kernel.wf_spec(),
                self.kernel.at_min_spec() == k0,
                self.kernel.arity_spec() == k0.arity_spec(),
                best_params@ == best_kernel.params_spec(),
                best_kernel.arity_spec() == k0.arity_spec(),
                best matches Some(s) ==> score_of(best_kernel, xs, ys) == Some(s),
                best matches Some(s) ==> (score_of(k0, xs, ys) matches Some(s0) ==> s0 <= s),
                !evaluated ==> self.kernel == k0 && best is None && best_kernel == k0,
                evaluated ==> (best is None ==> score_of(k0, xs, ys) is None),
                best is None ==> best_kernel == k0,
                forall|c: K| c.grid_ok() && #[trigger] c.same_grid_family(&korig)
                    && c.grid_pos() < best_kernel.grid_pos() ==> score_strictly_below(
                    c,
                    xs,
                    ys,
                    best,
                ),
            ensures
                forall|c: K| c.grid_ok() && #[trigger] c.same_grid_family(&korig)
                    ==> score_bounded(c, xs, ys, best),
                self.x_train@ == xs,
                self.y_train@ == ys,
                self.gram_matrix@ == g0,
                best_kernel.wf_spec(),
                self.kernel.arity_spec() == k0.arity_spec(),
                best_params@ == best_kernel.params_spec(),
                best_kernel.arity_spec() == k0.arity_spec(),
                best matches Some(s) ==> score_of(best_kernel, xs, ys) == Some(s),
                best matches Some(s) ==> (score_of(k0, xs, ys) matches Some(s0) ==> s0 <= s),
                best is None ==> score_of(k0, xs, ys) is None && best_kernel == k0,
            decreases self.kernel.grid_measure(),
        {
            let ghost cur = self.kernel;
            let ghost best0 = best;
            let gram = compute_gram_matrix(&self.x_train, &self.x_train, &self.kernel);
            let lik = self.kernel.compute_likelihood(&gram, &self.y_train);
            proof {
                evaluated = true;
            }
            match lik {
                Ok(s) => {
                    let better = match best {
                        Option::None => true,
                        Option::Some(b) => s > b,
                    };
                    if better {
                        best = Some(s);
                        best_params = self.kernel.get_hyper_params();
                        proof {
                            best_kernel = self.kernel;
                        }
                    }
                },
                Err(_) => {},
            }
            proof {
                assert forall|c: K|
                    c.grid_ok() && #[trigger] c.same_grid_family(&korig) && c.grid_pos()
                        <= cur.grid_pos() implies score_bounded(c, xs, ys, best) by {
                    if c.grid_pos() == cur.grid_pos() {
                        c.lemma_grid_pos_injective(&cur, &korig);
                    }
                }
            }
            if !self.kernel.to_next_param() {
                proof {
                    cur.lemma_family_same_total(&korig);
                    assert forall|c: K| c.grid_ok() && #[trigger] c.same_grid_family(&korig)
                        implies score_bounded(c, xs, ys, best) by {
                        c.lemma_grid_pos_bounds();
                        c.lemma_family_same_total(&korig);
                    }
                }
                break;
            }
            proof {
                self.kernel.lemma_family_transitive(&cur, &korig);
            }
        }
        let ghost kend = self.kernel;
        proof {
            best_kernel.lemma_params_arity();
            kend.lemma_params_determine(&best_kernel);
        }
        let restored = self.kernel.set_hyper_params(best_params);
        proof {
            assert(restored);
            assert(self.kernel == best_kernel);
        }
        let params = self.kernel.get_hyper_params();
        OptimizeReport { params, score: best }
    }

    /// Posterior mean and uncertainty at each query point.  The gram
    /// matrix is rebuilt for the current kernel; the mean comes from one
    /// solve against the targets, and the variance from the assembled
    /// gram inverse (one solve per training-set unit vector), clipped at
    /// zero before the square root.  An empty query set is refused before
    /// any linear algebra; a singular gram matrix is a fatal error for
    /// the call.
    pub fn predict(&mut self, x_star: &Vec<i64>) -> (r: Result<(Vec<i64>, Vec<i64>), GpError>)
        requires
            old(self).wf(),
        ensures
            final(self).wf(),
            final(self).x_train@ == old(self).x_train@,
            final(self).y_train@ == old(self).y_train@,
            final(self).kernel == old(self).kernel,
            x_star@.len() == 0 ==> (r matches Err(e) && e == GpError::DegenerateInput
                && final(self).gram_matrix@ == old(self).gram_matrix@),
            x_star@.len() >= 1 ==> rows_view(final(self).gram_matrix@) == gram_spec(
                old(self).kernel,
                old(self).x_train@,
                old(self).x_train@,
            ),
            ({
                let k = old(self).kernel;
                let xs = old(self).x_train@;
                let ys = old(self).y_train@;
                let n = xs.len() as int;
                let m = x_star@.len() as int;
                let sol = gauss_spec(gram_spec(k, xs, xs), seq![ys] + unit_vecs_spec(n));
                &&& (m >= 1 ==> ((r matches Err(e) && e == GpError::SingularMatrix) == (
                sol is None)))
                &&& ((r matches Err(e) && e == GpError::DegenerateInput) ==> m == 0)
                &&& (match r {
                    Ok(ms) => {
                        let kst = gram_spec(k, xs, x_star@);
                        let sols = sol->Some_0.0;
                        let alpha = sols[0];
                        let invcols = sols.skip(1);
                        &&& m >= 1
                        &&& sol is Some
                        &&& ms.0@.len() == m
                        &&& ms.1@.len() == m
                        &&& forall|j: int| 0 <= j < m ==> #[trigger] ms.0@[j] == dot_spec(
                            col_spec(kst, j),
                            alpha,
                        )
                        &&& forall|j: int| 0 <= j < m ==> #[trigger] ms.1@[j] >= 0
                        &&& forall|j: int|
                            0 <= j < m ==> {
                                let vr = fx_sub_spec(
                                    k.compute_spec(x_star@[j], x_star@[j]),
                                    dot_spec(
                                        col_spec(kst, j),
                                        inv_apply_spec(invcols, col_spec(kst, j), n),
                                    ),
                                );
                                let v = if vr < 0 {
                                    0
                                } else {
                                    vr as int
                                };
                                ((#[trigger] ms.1@[j]) as int) * (ms.1@[j] as int) <= v * (
                                SCALE as int) < (ms.1@[j] + 1) * (ms.1@[j] + 1)
                            }
                    },
                    Err(e) => e == GpError::SingularMatrix || e == GpError::DegenerateInput,
                })
            }),
    {
        let n = self.x_train.len();
        let m = x_star.len();
        if m == 0 {
            return Err(GpError::DegenerateInput);
        }
        let ghost k = self.kernel;
        let ghost xs = self.x_train@;
        let ghost ys = self.y_train@;

        self.gram_matrix = compute_gram_matrix(&self.x_train, &self.x_train, &self.kernel);

        // One right-hand side per solve: the targets first, then one unit
        // vector per training index to assemble the gram inverse.
        let mut rhs: Vec<Vec<i64>> = Vec::new();
        rhs.push(crate::linalg::copy_vec(&self.y_train));
        let mut i: usize = 0;
        while i < n
            invariant
                i <= n,
                n == xs.len(),
                rhs@.len() == i + 1,
                rhs@[0]@ == ys,
                ys.len() == n,
                forall|t: int| 1 <= t < i + 1 ==> #[trigger] rhs@[t]@ == unit_vecs_spec(n as int)[t
                    - 1],
            decreases n - i,
        {
            let mut unit: Vec<i64> = Vec::new();
            let mut j: usize = 0;
            while j < n
                invariant
                    j <= n,
                    i < n,
                    unit@.len() == j,
                    forall|t: int| 0 <= t < j ==> #[trigger] unit@[t] == (if t == i {
                        SCALE
                    } else {
                        0i64
                    }),
                decreases n - j,
            {
                if j == i {
                    unit.push(SCALE);
                } else {
                    unit.push(0);
                }
                j += 1;
            }
            proof {
                assert(unit@ =~= unit_vecs_spec(n as int)[i as int]);
            }
            rhs.push(unit);
            i += 1;
        }
        proof {
            assert(rows_view(rhs@) =~~= seq![ys] + unit_vecs_spec(n as int));
        }

        let sol = solve_many(&self.gram_matrix, &rhs);
        match sol {
            Option::None => Err(GpError::SingularMatrix),
            Option::Some(solution) => {
                let (sols, _pivots) = solution;
                let ghost solsv = rows_view(sols@);
                let ghost invcols = solsv.skip(1);
                let kst = compute_gram_matrix(&self.x_train, x_star, &self.kernel);
                let ghost kstv = gram_spec(k, xs, x_star@);
                let mut mean: Vec<i64> = Vec::new();
                let mut sigma: Vec<i64> = Vec::new();
                let mut j: usize = 0;
                while j < m
                    invariant
                        j <= m,
                        m == x_star@.len(),
                        n == xs.len(),
                        n >= 1,
                        k == self.kernel,
                        xs == self.x_train@,
                        x_star@.len() == m,
                        rows_view(kst@) == kstv,
                        kst@.len() == n,
                        forall|t: int| 0 <= t < n ==> #[trigger] kst@[t]@.len() == m,
                        solsv == rows_view(sols@),
                        invcols == solsv.skip(1),
                        sols@.len() == n + 1,
                        forall|t: int| 0 <= t < n + 1 ==> #[trigger] sols@[t]@.len() == n,
                        mean@.len() == j,
                        sigma@.len() == j,
                        forall|t: int| 0 <= t < j ==> #[trigger] mean@[t] == dot_spec(
                            col_spec(kstv, t),
                            solsv[0],
                        ),
                        forall|t: int| 0 <= t < j ==> #[trigger] sigma@[t] >= 0,
                        forall|t: int|
                            0 <= t < j ==> {
                                let vr = fx_sub_spec(
                                    k.compute_spec(x_star@[t], x_star@[t]),
                                    dot_spec(
                                        col_spec(kstv, t),
                                        inv_apply_spec(invcols, col_spec(kstv, t), n as int),
                                    ),
                                );
                                let v = if vr < 0 {
                                    0
                                } else {
                                    vr as int
                                };
                                ((#[trigger] sigma@[t]) as int) * (sigma@[t] as int) <= v * (
                                SCALE as int) < (sigma@[t] + 1) * (sigma@[t] + 1)
                            },
                    decreases m - j,
                {
                    // Column j of the cross-covariance matrix.
                    let mut kj: Vec<i64> = Vec::new();
                    let mut t: usize = 0;
                    while t < n
                        invariant
                            t <= n,
                            j < m,
                            kst@.len() == n,
                            forall|u: int| 0 <= u < n ==> #[trigger] kst@[u]@.len() == m,
                            rows_view(kst@) == kstv,
                            kj@.len() == t,
                            forall|u: int| 0 <= u < t ==> #[trigger] kj@[u] == kstv[u][j as int],
                        decreases n - t,
                    {
                        kj.push(kst[t][j]);
                        t += 1;
                    }
                    proof {
                        assert(kj@ =~= col_spec(kstv, j as int));
                    }

                    // u = (assembled gram inverse) * kj, one entry per row.
                    let mut uv: Vec<i64> = Vec::new();
                    let mut a: usize = 0;
                    while a < n
                        invariant
                            a <= n,
                            n >= 1,
                            kj@.len() == n,
                            solsv == rows_view(sols@),
                            invcols == solsv.skip(1),
                            sols@.len() == n + 1,
                            forall|t2: int| 0 <= t2 < n + 1 ==> #[trigger] sols@[t2]@.len() == n,
                            uv@.len() == a,
                            forall|t2: int| 0 <= t2 < a ==> #[trigger] uv@[t2]
                                == invmul_prefix_spec(invcols, kj@, t2, n as int),
                        decreases n - a,
                    {
                        let mut acc: i64 = 0;
                        let mut b: usize = 0;
                        while b < n
                            invariant
                                b <= n,
                                a < n,
                                kj@.len() == n,
                                solsv == rows_view(sols@),
                                invcols == solsv.skip(1),
                                sols@.len() == n + 1,
                                forall|t2: int| 0 <= t2 < n + 1 ==> #[trigger] sols@[t2]@.len()
                                    == n,
                                acc == invmul_prefix_spec(invcols, kj@, a as int, b as int),
                            decreases n - b,
                        {
                            acc = fx_add(acc, fx_mul(sols[b + 1][a], kj[b]));
                            b += 1;
                        }
                        uv.push(acc);
                        a += 1;
                    }
                    proof {
                        assert(uv@ =~= inv_apply_spec(invcols, kj@, n as int));
                    }

                    let vj = dot(&kj, &uv);
                    let mj = dot(&kj, &sols[0]);
                    let c = self.kernel.compute(x_star[j], x_star[j]);
                    let vr = fx_sub(c, vj);
                    let v = if vr < 0 {
                        0
                    } else {
                        vr
                    };
                    let sg = fx_sqrt(v);
                    mean.push(mj);
                    sigma.push(sg);
                    j += 1;
                }
                Ok((mean, sigma))
            },
        }
    }
}

/// The training-sized unit vectors (1.0 at one index, 0 elsewhere), used
/// as right-hand sides to assemble the gram inverse column by column.
pub open spec fn unit_vecs_spec(n: int) -> Seq<Seq<i64>> {
    Seq::new(n as nat, |i: int| Seq::new(n as nat, |j: int| if i == j {
        SCALE
    } else {
        0i64
    }))
}

/// Column `j` of a dense matrix.
pub open spec fn col_spec(m: Seq<Seq<i64>>, j: int) -> Seq<i64> {
    Seq::new(m.len(), |i: int| m[i][j])
}

/// Left fold of `invcols[b][a] * kj[b]` over `b < k`: entry `a` of the
/// assembled inverse applied to `kj`, as the executable loop accumulates
/// it.
pub open spec fn invmul_prefix_spec(invcols: Seq<Seq<i64>>, kj: Seq<i64>, a: int, k: int) -> i64
    decreases k,
{
    if k <= 0 {
        0
    } else {
        fx_add_spec(
            invmul_prefix_spec(invcols, kj, a, k - 1),
            fx_mul_spec(invcols[k - 1][a], kj[k - 1]),
        )
    }
}

/// The assembled gram inverse applied to a vector.
pub open spec fn inv_apply_spec(invcols: Seq<Seq<i64>>, kj: Seq<i64>, n: int) -> Seq<i64> {
    Seq::new(n as nat, |a: int| invmul_prefix_spec(invcols, kj, a, n))
}

} // verus!
