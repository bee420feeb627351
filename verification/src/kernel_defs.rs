//! Covariance kernels and their hyperparameter grids.
//!
//! A kernel owns an ordered set of `Parameter`s, each with bounds and a
//! step size; `to_next_param` walks the Cartesian grid of all parameter
//! combinations in nested-odometer order (first parameter innermost), and
//! `compute_likelihood` scores a gram matrix against observations by the
//! log marginal likelihood surrogate `-ln(det) - y' * gram^-1 * y`.

use vstd::prelude::*;
use crate::fixed::{SCALE, fx_add, fx_add_spec, fx_sub, fx_sub_spec, fx_mul, fx_mul_spec, fx_div,
    fx_div_spec, fx_neg, fx_neg_spec, sdiff, sdiff_spec, fx_exp_neg, exp_neg_spec, fx_ln, ln_spec,
    lemma_sdiff_antisymmetric};
use crate::linalg::{dot, dot_spec, gauss_spec, solve_many, rows_view, copy_vec};
use vstd::arithmetic::div_mod::{lemma_fundamental_div_mod, lemma_fundamental_div_mod_converse, lemma_mod_bound,
    lemma_div_is_ordered, lemma_div_pos_is_pos, lemma_div_plus_one, lemma_mod_add_multiples_vanish,
    lemma_div_by_multiple};

verus! {

/// Two input points closer than this many units (about 1e-6) are treated
/// as the same point, so the jitter term applies.
pub const DIAG_TOL: i64 = 1074;

/// Errors surfaced by likelihood evaluation and prediction.
#[derive(Clone, Copy, Debug, PartialEq, Eq, Structural)]
pub enum GpError {
    /// A gram-matrix solve or determinant failed: the matrix is singular
    /// (or not positive-definite where a logarithm of the determinant was
    /// needed).
    SingularMatrix,
    /// A training or query sequence was empty.
    DegenerateInput,
}

/// One tunable hyperparameter: a current value together with its grid
/// bounds and step size.
#[derive(Clone, Copy, Debug, PartialEq, Eq, Structural)]
pub struct Parameter {
    pub value: i64,
    pub min: i64,
    pub max: i64,
    pub step: i64,
}

impl Parameter {
    /// The value lies between the bounds, the step is positive, and one
    /// step above `max` still fits in an `i64`.
    pub open spec fn wf(self) -> bool {
        &&& self.min <= self.value <= self.max
        &&& self.step >= 1
        &&& self.max + self.step <= i64::MAX as int
    }

    /// The bounds alone are well-formed (whatever the current value).
    pub open spec fn bounds_wf(self) -> bool {
        &&& self.min <= self.max
        &&& self.step >= 1
        &&& self.max + self.step <= i64::MAX as int
    }

    /// The value sits on the grid `{min, min + step, min + 2*step, ...}`.
    pub open spec fn aligned(self) -> bool {
        (self.value - self.min) % (self.step as int) == 0
    }

    /// Number of grid points `min, min + step, ..., <= max`.
    pub open spec fn count(self) -> int {
        (self.max - self.min) / (self.step as int) + 1
    }

    /// Zero-based position of the current value on the grid.
    pub open spec fn index(self) -> int {
        (self.value - self.min) / (self.step as int)
    }

    /// The same bounds with the value returned to `min`.
    pub open spec fn reset_spec(self) -> Parameter {
        Parameter { value: self.min, ..self }
    }

    /// Same bounds and step.
    pub open spec fn same_grid(self, o: Parameter) -> bool {
        self.min == o.min && self.max == o.max && self.step == o.step
    }

    /// A fresh parameter starts at its minimum.
    pub fn new(min: i64, max: i64, step: i64) -> (p: Parameter)
        requires
            min <= max,
            step >= 1,
            max + step <= i64::MAX as int,
        ensures
            p == (Parameter { value: min, min: min, max: max, step: step }),
            p.wf(),
            p.aligned(),
    {
        proof {
            lemma_mod_bound(0, step as int);
            vstd::arithmetic::div_mod::lemma_small_mod(0, step as nat);
        }
        Parameter { value: min, min: min, max: max, step: step }
    }
}

/// Basic facts about a well-formed parameter's grid position.
pub proof fn lemma_param_index(p: Parameter)
    requires
        p.wf(),
    ensures
        0 <= p.index() < p.count(),
        p.aligned() ==> p.value == p.min + p.index() * p.step,
        1 <= p.count(),
{
    let d = p.value - p.min;
    let s = p.step as int;
    lemma_fundamental_div_mod(d, s);
    lemma_mod_bound(d, s);
    lemma_div_pos_is_pos(d, s);
    lemma_div_is_ordered(d, p.max - p.min, s);
    lemma_div_pos_is_pos(p.max - p.min, s);
    vstd::arithmetic::mul::lemma_mul_is_commutative(s, p.index());
}

/// Stepping a parameter's value advances its grid index by one and
/// preserves alignment; resetting returns the index to zero.
pub proof fn lemma_index_step(p: Parameter)
    requires
        p.wf(),
    ensures
        (Parameter { value: (p.value + p.step) as i64, ..p }).index() == p.index() + 1,
        (Parameter { value: (p.value + p.step) as i64, ..p }).aligned() == p.aligned(),
        p.reset_spec().index() == 0,
        p.reset_spec().aligned(),
{
    let d = p.value - p.min;
    let s = p.step as int;
    lemma_div_plus_one(d, s);
    lemma_mod_add_multiples_vanish(d, s);
    vstd::arithmetic::div_mod::lemma_small_mod(0, s as nat);
    vstd::arithmetic::div_mod::lemma_basic_div(0, s);
}

/// For an aligned parameter, stepping past `max` happens exactly at the
/// last grid point.
pub proof fn lemma_at_end(p: Parameter)
    requires
        p.wf(),
        p.aligned(),
    ensures
        (p.value + p.step > p.max) == (p.index() == p.count() - 1),
{
    let d = p.value - p.min;
    let dm = p.max - p.min;
    let s = p.step as int;
    let i = p.index();
    let q = dm / s;
    let r = dm % s;
    lemma_param_index(p);
    lemma_fundamental_div_mod(dm, s);
    lemma_mod_bound(dm, s);
    // value + step > max  <==>  (i + 1) * s > dm  <==>  i == q
    assert(p.value == p.min + i * s);
    if p.value + p.step > p.max {
        // (i + 1) * s > dm = q * s + r with 0 <= r < s implies i >= q
        assert(i * s + s > q * s + r);
        assert(i >= q) by (nonlinear_arith)
            requires
                i * s + s > q * s + r,
                0 <= r,
                s >= 1,
        ;
        assert(i == q);
    } else {
        // (i + 1) * s <= dm implies i + 1 <= q since q * s + s > dm
        assert(i * s + s <= q * s + r);
        assert(i < q) by (nonlinear_arith)
            requires
                i * s + s <= q * s + r,
                r < s,
                s >= 1,
        ;
    }
}

/// A covariance kernel over scalar inputs, driven by an ordered
/// hyperparameter grid.
pub trait Kernel: Sized {
    /// Current parameter values and bounds are well-formed.
    spec fn wf_spec(&self) -> bool;

    /// The covariance value as a function of the kernel state and the two
    /// input points.
    spec fn compute_spec(&self, x1: i64, x2: i64) -> i64;

    /// The ordered hyperparameter snapshot.
    spec fn params_spec(&self) -> Seq<Parameter>;

    /// The fixed number of hyperparameters of this kernel.
    spec fn arity_spec(&self) -> int;

    /// The kernel rebuilt from a full parameter snapshot.
    spec fn with_params_spec(&self, ps: Seq<Parameter>) -> Self;

    /// Log marginal likelihood surrogate of a gram matrix and targets.
    spec fn likelihood_spec(&self, gram: Seq<Seq<i64>>, y: Seq<i64>) -> Option<i64>;

    /// One nested-odometer step: the successor state and whether more grid
    /// combinations remain.
    spec fn step_spec(&self) -> (Self, bool);

    /// How many grid combinations remain ahead of the current position.
    spec fn grid_measure(&self) -> int;

    /// The same grid with every parameter at its minimum.
    spec fn at_min_spec(&self) -> Self;

    /// The state is well-formed and every value sits on its grid.
    spec fn grid_ok(&self) -> bool;

    /// Position of the current combination in odometer order.
    spec fn grid_pos(&self) -> int;

    /// Total number of grid combinations.
    spec fn grid_total(&self) -> int;

    /// Both states range over the same grid (same bounds and steps).
    spec fn same_grid_family(&self, o: &Self) -> bool;

    /// The covariance function is symmetric in its two inputs.
    proof fn lemma_compute_symmetric(&self, x1: i64, x2: i64)
        ensures
            self.compute_spec(x1, x2) == self.compute_spec(x2, x1),
    ;

    /// A kernel is exactly its parameter snapshot: rebuilding any kernel
    /// of the family from another's snapshot yields that other kernel.
    proof fn lemma_params_determine(&self, other: &Self)
        ensures
            self.with_params_spec(other.params_spec()) == *other,
    ;

    /// The snapshot always has the kernel's fixed arity.
    proof fn lemma_params_arity(&self)
        ensures
            self.params_spec().len() == self.arity_spec(),
    ;

    /// Returning every parameter to its minimum is idempotent.
    proof fn lemma_at_min_idempotent(&self)
        ensures
            self.at_min_spec().at_min_spec() == self.at_min_spec(),
    ;

    /// A grid state's position lies within the grid.
    proof fn lemma_grid_pos_bounds(&self)
        requires
            self.grid_ok(),
        ensures
            0 <= self.grid_pos() < self.grid_total(),
    ;

    /// Within one grid family, the position determines the state.
    proof fn lemma_grid_pos_injective(&self, o: &Self, anchor: &Self)
        requires
            self.grid_ok(),
            o.grid_ok(),
            self.same_grid_family(anchor),
            o.same_grid_family(anchor),
            self.grid_pos() == o.grid_pos(),
        ensures
            *self == *o,
    ;

    /// Ranging over the same grid is transitive.
    proof fn lemma_family_transitive(&self, b: &Self, c: &Self)
        requires
            self.same_grid_family(b),
            b.same_grid_family(c),
        ensures
            self.same_grid_family(c),
    ;

    /// States of one grid family have the same number of combinations.
    proof fn lemma_family_same_total(&self, o: &Self)
        requires
            self.same_grid_family(o),
        ensures
            self.grid_total() == o.grid_total(),
    ;

    fn compute(&self, x1: i64, x2: i64) -> (r: i64)
        ensures
            r == self.compute_spec(x1, x2),
    ;

    fn to_next_param(&mut self) -> (more: bool)
        requires
            old(self).wf_spec(),
        ensures
            (*final(self), more) == old(self).step_spec(),
            more ==> final(self).wf_spec(),
            more ==> 0 <= final(self).grid_measure() < old(self).grid_measure(),
            final(self).at_min_spec() == old(self).at_min_spec(),
            final(self).arity_spec() == old(self).arity_spec(),
            old(self).grid_ok() && more ==> final(self).grid_ok() && final(self).grid_pos() == old(
                self,
            ).grid_pos() + 1 && final(self).same_grid_family(old(self)),
            old(self).grid_ok() && !more ==> old(self).grid_pos() == old(self).grid_total() - 1,
            old(self).grid_ok() ==> final(self).grid_total() == old(self).grid_total(),
    ;

    fn compute_likelihood(&self, gram_matrix: &Vec<Vec<i64>>, y: &Vec<i64>) -> (r: Result<
        i64,
        GpError,
    >)
        requires
            gram_matrix@.len() == y@.len(),
            forall|k: int| 0 <= k < gram_matrix@.len() ==> #[trigger] gram_matrix@[k]@.len()
                == y@.len(),
        ensures
            match r {
                Ok(s) => self.likelihood_spec(rows_view(gram_matrix@), y@) == Some(s),
                Err(e) => self.likelihood_spec(rows_view(gram_matrix@), y@) is None && e
                    == GpError::SingularMatrix,
            },
    ;

    fn get_hyper_params(&self) -> (ps: Vec<Parameter>)
        ensures
            ps@ == self.params_spec(),
    ;

    fn set_hyper_params(&mut self, params: Vec<Parameter>) -> (ok: bool)
        ensures
            ok == (params@.len() == old(self).arity_spec()),
            ok ==> *final(self) == old(self).with_params_spec(params@),
            !ok ==> *final(self) == *old(self),
    ;

    fn reset_params(&mut self)
        requires
            old(self).wf_spec(),
        ensures
            *final(self) == old(self).at_min_spec(),
            final(self).wf_spec(),
            final(self).grid_ok(),
            final(self).grid_pos() == 0,
            final(self).same_grid_family(old(self)),
    ;
}

/// The radial-basis-function kernel:
/// `theta1 * exp(-(x1 - x2)^2 / theta2)`, plus the jitter `theta3` on the
/// diagonal (inputs closer than `DIAG_TOL`).
#[derive(Clone, Copy, Debug, PartialEq, Eq, Structural)]
pub struct RBFKernel {
    pub theta1: Parameter,
    pub theta2: Parameter,
    pub theta3: Parameter,
}

/// All three parameters of the kernel are well-formed.
pub open spec fn rbf_wf(k: RBFKernel) -> bool {
    k.theta1.wf() && k.theta2.wf() && k.theta3.wf()
}

impl RBFKernel {
    /// All three values sit on their grids.
    pub open spec fn grid_aligned(self) -> bool {
        self.theta1.aligned() && self.theta2.aligned() && self.theta3.aligned()
    }

    /// Same bounds and steps for all three parameters.
    pub open spec fn same_grids(self, o: RBFKernel) -> bool {
        self.theta1.same_grid(o.theta1) && self.theta2.same_grid(o.theta2)
            && self.theta3.same_grid(o.theta3)
    }

    /// Mixed-radix position of the current combination in odometer order:
    /// the first parameter is the innermost (fastest-moving) digit.
    pub open spec fn rank(self) -> int {
        self.theta1.index() + self.theta1.count() * (self.theta2.index() + self.theta2.count()
            * self.theta3.index())
    }

    /// Total number of grid combinations.
    pub open spec fn total(self) -> int {
        self.theta1.count() * (self.theta2.count() * self.theta3.count())
    }

    /// The nested-odometer step: increment the first parameter; on
    /// overflowing its `max`, reset it and carry into the second, then the
    /// third.  Exhaustion leaves the third parameter past its `max`.
    pub open spec fn rbf_step(self) -> (RBFKernel, bool) {
        let v1 = (self.theta1.value + self.theta1.step) as i64;
        if v1 <= self.theta1.max {
            (RBFKernel { theta1: Parameter { value: v1, ..self.theta1 }, ..self }, true)
        } else {
            let v2 = (self.theta2.value + self.theta2.step) as i64;
            if v2 <= self.theta2.max {
                (
                    RBFKernel {
                        theta1: self.theta1.reset_spec(),
                        theta2: Parameter { value: v2, ..self.theta2 },
                        ..self
                    },
                    true,
                )
            } else {
                let v3 = (self.theta3.value + self.theta3.step) as i64;
                (
                    RBFKernel {
                        theta1: self.theta1.reset_spec(),
                        theta2: self.theta2.reset_spec(),
                        theta3: Parameter { value: v3, ..self.theta3 },
                    },
                    v3 <= self.theta3.max,
                )
            }
        }
    }

    pub fn new(theta1: Parameter, theta2: Parameter, theta3: Parameter) -> (k: RBFKernel)
        ensures
            k == (RBFKernel { theta1, theta2, theta3 }),
    {
        RBFKernel { theta1, theta2, theta3 }
    }
}

/// The rank of a well-formed kernel state lies within the grid.
pub proof fn lemma_rank_bounds(k: RBFKernel)
    requires
        rbf_wf(k),
    ensures
        0 <= k.rank() < k.total(),
{
    lemma_param_index(k.theta1);
    lemma_param_index(k.theta2);
    lemma_param_index(k.theta3);
    let i1 = k.theta1.index();
    let c1 = k.theta1.count();
    let i2 = k.theta2.index();
    let c2 = k.theta2.count();
    let i3 = k.theta3.index();
    let c3 = k.theta3.count();
    assert(0 <= i1 + c1 * (i2 + c2 * i3) && i1 + c1 * (i2 + c2 * i3) < c1 * (c2 * c3))
        by (nonlinear_arith)
        requires
            0 <= i1 < c1,
            0 <= i2 < c2,
            0 <= i3 < c3,
    ;
}

/// What one odometer step does to the grid position: it preserves the
/// bounds, strictly advances the rank while more combinations remain, and
/// — from an aligned state — advances the rank by exactly one, reporting
/// exhaustion exactly at the last combination.
pub proof fn lemma_rbf_step_properties(k: RBFKernel)
    requires
        rbf_wf(k),
    ensures
        ({
            let (k2, more) = k.rbf_step();
            &&& k2.same_grids(k)
            &&& more ==> rbf_wf(k2)
            &&& more ==> k.rank() < k2.rank() < k.total()
            &&& k2.total() == k.total()
            &&& (k.grid_aligned() ==> {
                &&& more == (k.rank() + 1 < k.total())
                &&& (more ==> k2.rank() == k.rank() + 1 && k2.grid_aligned())
                &&& (!more ==> k.rank() == k.total() - 1)
            })
        }),
{
    let s = k.rbf_step();
    let k2 = s.0;
    let more = s.1;
    let p1 = k.theta1;
    let p2 = k.theta2;
    let p3 = k.theta3;
    let i1 = p1.index();
    let c1 = p1.count();
    let i2 = p2.index();
    let c2 = p2.count();
    let i3 = p3.index();
    let c3 = p3.count();
    lemma_param_index(p1);
    lemma_param_index(p2);
    lemma_param_index(p3);
    lemma_index_step(p1);
    lemma_index_step(p2);
    lemma_index_step(p3);
    lemma_rank_bounds(k);
    if p1.value + p1.step <= p1.max {
        assert(k2.rank() == i1 + 1 + c1 * (i2 + c2 * i3));
        assert(rbf_wf(k2));
        lemma_rank_bounds(k2);
        if k.grid_aligned() {
            lemma_at_end(p1);
        }
    } else if p2.value + p2.step <= p2.max {
        assert(k2.rank() == c1 * (i2 + 1 + c2 * i3));
        assert(c1 * (i2 + 1 + c2 * i3) == c1 * (i2 + c2 * i3) + c1) by (nonlinear_arith);
        assert(k2.rank() == k.rank() - i1 + c1);
        assert(rbf_wf(k2));
        lemma_rank_bounds(k2);
        if k.grid_aligned() {
            lemma_at_end(p1);
            lemma_at_end(p2);
            assert(i1 == c1 - 1);
            assert(k2.rank() == k.rank() + 1);
        }
    } else {
        let v3 = (p3.value + p3.step) as i64;
        assert(k2.rank() == c1 * (c2 * (i3 + 1)));
        assert(c1 * (c2 * (i3 + 1)) == c1 * (c2 * i3) + c1 * c2) by (nonlinear_arith);
        assert(i1 + c1 * (i2 + c2 * i3) < c1 * (c2 * i3) + c1 * c2) by (nonlinear_arith)
            requires
                0 <= i1 < c1,
                0 <= i2 < c2,
                0 <= i3,
        ;
        assert(c1 * (i2 + c2 * i3) == c1 * i2 + c1 * (c2 * i3)) by (nonlinear_arith);
        if v3 <= p3.max {
            assert(rbf_wf(k2));
            lemma_rank_bounds(k2);
        }
        if k.grid_aligned() {
            lemma_at_end(p1);
            lemma_at_end(p2);
            lemma_at_end(p3);
            assert(i1 == c1 - 1 && i2 == c2 - 1);
            assert((c1 - 1) + c1 * ((c2 - 1) + c2 * i3) + 1 == c1 * (c2 * (i3 + 1)))
                by (nonlinear_arith);
            if v3 <= p3.max {
                assert(k2.rank() == k.rank() + 1);
            } else {
                assert(i3 == c3 - 1);
                assert((c1 - 1) + c1 * ((c2 - 1) + c2 * (c3 - 1)) == c1 * (c2 * c3) - 1)
                    by (nonlinear_arith);
            }
        }
    }
}

/// Two aligned well-formed states on the same grid with the same rank are
/// the same state: together with `lemma_config_of_rank`, the ranks
/// `0 .. total - 1` number the grid combinations exactly once, so the
/// odometer (which advances the rank by one each step, by
/// `lemma_rbf_step_properties`) visits every combination exactly once.
pub proof fn lemma_rank_injective(a: RBFKernel, b: RBFKernel)
    requires
        rbf_wf(a),
        rbf_wf(b),
        a.grid_aligned(),
        b.grid_aligned(),
        a.same_grids(b),
        a.rank() == b.rank(),
    ensures
        a == b,
{
    lemma_param_index(a.theta1);
    lemma_param_index(a.theta2);
    lemma_param_index(a.theta3);
    lemma_param_index(b.theta1);
    lemma_param_index(b.theta2);
    lemma_param_index(b.theta3);
    let c1 = a.theta1.count();
    let c2 = a.theta2.count();
    let r = a.rank();
    vstd::arithmetic::mul::lemma_mul_is_commutative(
        c1,
        a.theta2.index() + c2 * a.theta3.index(),
    );
    vstd::arithmetic::mul::lemma_mul_is_commutative(
        c1,
        b.theta2.index() + c2 * b.theta3.index(),
    );
    vstd::arithmetic::mul::lemma_mul_is_commutative(c2, a.theta3.index());
    vstd::arithmetic::mul::lemma_mul_is_commutative(c2, b.theta3.index());
    lemma_fundamental_div_mod_converse(
        r,
        c1,
        a.theta2.index() + c2 * a.theta3.index(),
        a.theta1.index(),
    );
    lemma_fundamental_div_mod_converse(
        r,
        c1,
        b.theta2.index() + c2 * b.theta3.index(),
        b.theta1.index(),
    );
    let rest = a.theta2.index() + c2 * a.theta3.index();
    lemma_fundamental_div_mod_converse(rest, c2, a.theta3.index(), a.theta2.index());
    lemma_fundamental_div_mod_converse(rest, c2, b.theta3.index(), b.theta2.index());
    assert(a.theta1 =~= b.theta1);
    assert(a.theta2 =~= b.theta2);
    assert(a.theta3 =~= b.theta3);
}

/// The grid combination standing at a given rank: digits are recovered by
/// division and remainder against the parameter counts, innermost first.
pub open spec fn config_of_rank(k: RBFKernel, r: int) -> RBFKernel {
    let c1 = k.theta1.count();
    let c2 = k.theta2.count();
    let i1 = r % c1;
    let rest = r / c1;
    let i2 = rest % c2;
    let i3 = rest / c2;
    RBFKernel {
        theta1: Parameter { value: (k.theta1.min + i1 * k.theta1.step) as i64, ..k.theta1 },
        theta2: Parameter { value: (k.theta2.min + i2 * k.theta2.step) as i64, ..k.theta2 },
        theta3: Parameter { value: (k.theta3.min + i3 * k.theta3.step) as i64, ..k.theta3 },
    }
}

proof fn lemma_digit_value(p: Parameter, i: int)
    requires
        p.bounds_wf(),
        0 <= i <= (p.max - p.min) / (p.step as int),
    ensures
        ({
            let q = Parameter { value: (p.min + i * p.step) as i64, ..p };
            q.wf() && q.aligned() && q.index() == i && q.same_grid(p)
        }),
{
    let s = p.step as int;
    let dm = p.max - p.min;
    lemma_fundamental_div_mod(dm, s);
    lemma_mod_bound(dm, s);
    assert(i * s <= dm) by (nonlinear_arith)
        requires
            i <= dm / s,
            dm == s * (dm / s) + dm % s,
            0 <= dm % s,
            s >= 1,
    ;
    assert(0 <= i * s) by (nonlinear_arith)
        requires
            0 <= i,
            s >= 1,
    ;
    vstd::arithmetic::div_mod::lemma_mod_multiples_basic(i, s);
    lemma_div_by_multiple(i, s);
    vstd::arithmetic::mul::lemma_mul_is_commutative(i, s);
}

/// Every rank below the total is held by exactly one grid combination:
/// the one that `config_of_rank` constructs.
pub proof fn lemma_config_of_rank(k: RBFKernel, r: int)
    requires
        rbf_wf(k),
        0 <= r < k.total(),
    ensures
        ({
            let c = config_of_rank(k, r);
            &&& rbf_wf(c)
            &&& c.grid_aligned()
            &&& c.same_grids(k)
            &&& c.rank() == r
        }),
{
    let c1 = k.theta1.count();
    let c2 = k.theta2.count();
    let c3 = k.theta3.count();
    lemma_param_index(k.theta1);
    lemma_param_index(k.theta2);
    lemma_param_index(k.theta3);
    let i1 = r % c1;
    let rest = r / c1;
    let i2 = rest % c2;
    let i3 = rest / c2;
    lemma_fundamental_div_mod(r, c1);
    lemma_mod_bound(r, c1);
    lemma_div_pos_is_pos(r, c1);
    assert(rest < c2 * c3) by (nonlinear_arith)
        requires
            r == c1 * rest + i1,
            r < c1 * (c2 * c3),
            0 <= i1,
            c1 >= 1,
            0 <= rest,
    ;
    lemma_fundamental_div_mod(rest, c2);
    lemma_mod_bound(rest, c2);
    lemma_div_pos_is_pos(rest, c2);
    assert(i3 < c3) by (nonlinear_arith)
        requires
            rest == c2 * i3 + i2,
            rest < c2 * c3,
            0 <= i2,
            c2 >= 1,
            0 <= i3,
    ;
    lemma_digit_value(k.theta1, i1);
    lemma_digit_value(k.theta2, i2);
    lemma_digit_value(k.theta3, i3);
    let c = config_of_rank(k, r);
    assert(c.rank() == i1 + c1 * (i2 + c2 * i3));
    assert(c1 * (i2 + c2 * i3) == c1 * rest) by (nonlinear_arith)
        requires
            rest == c2 * i3 + i2,
    ;
}

/// Running sum of the logarithms of the first `k` pivots; `None` as soon
/// as a pivot is not strictly positive, where the determinant's logarithm
/// is undefined.
pub open spec fn ln_pivots_spec(piv: Seq<i64>, k: int) -> Option<i64>
    decreases k,
{
    if k <= 0 {
        Some(0)
    } else {
        match ln_pivots_spec(piv, k - 1) {
            Option::None => Option::None,
            Option::Some(s) => if piv[k - 1] >= 1 {
                Option::Some(fx_add_spec(s, ln_spec(piv[k - 1])))
            } else {
                Option::None
            },
        }
    }
}

proof fn lemma_ln_pivots_none(piv: Seq<i64>, k1: int, k2: int)
    requires
        ln_pivots_spec(piv, k1) is None,
        k1 <= k2,
    ensures
        ln_pivots_spec(piv, k2) is None,
    decreases k2 - k1,
{
    if k1 < k2 {
        lemma_ln_pivots_none(piv, k1 + 1, k2);
    }
}

/// The log marginal likelihood surrogate `-ln(det(gram)) - y' * gram^-1 * y`,
/// computed through one elimination: `ln(det)` is the sum of pivot
/// logarithms, and `gram^-1 * y` is the solve's solution.  `None` when the
/// elimination fails or a pivot is not strictly positive.
pub open spec fn likelihood_rbf_spec(gram: Seq<Seq<i64>>, y: Seq<i64>) -> Option<i64> {
    match gauss_spec(gram, seq![y]) {
        Option::None => Option::None,
        Option::Some(sol) => match ln_pivots_spec(sol.1, sol.1.len() as int) {
            Option::None => Option::None,
            Option::Some(lsum) => Option::Some(
                fx_sub_spec(fx_neg_spec(lsum), dot_spec(y, sol.0[0])),
            ),
        },
    }
}

/// The covariance formula of the radial-basis kernel on fixed-point
/// scalars.
pub open spec fn compute_rbf_spec(k: RBFKernel, x1: i64, x2: i64) -> i64 {
    let d = sdiff_spec(x1, x2);
    let d2 = fx_mul_spec(d, d);
    let q = fx_div_spec(d2, k.theta2.value);
    let e = if q >= 0 {
        exp_neg_spec(q)
    } else {
        fx_div_spec(SCALE, exp_neg_spec(fx_neg_spec(q)))
    };
    let base = fx_mul_spec(k.theta1.value, e);
    if -DIAG_TOL < d && d < DIAG_TOL {
        fx_add_spec(base, k.theta3.value)
    } else {
        base
    }
}

impl Kernel for RBFKernel {
    open spec fn wf_spec(&self) -> bool {
        rbf_wf(*self)
    }

    open spec fn compute_spec(&self, x1: i64, x2: i64) -> i64 {
        compute_rbf_spec(*self, x1, x2)
    }

    open spec fn params_spec(&self) -> Seq<Parameter> {
        seq![self.theta1, self.theta2, self.theta3]
    }

    open spec fn arity_spec(&self) -> int {
        3
    }

    open spec fn with_params_spec(&self, ps: Seq<Parameter>) -> RBFKernel {
        RBFKernel { theta1: ps[0], theta2: ps[1], theta3: ps[2] }
    }

    open spec fn likelihood_spec(&self, gram: Seq<Seq<i64>>, y: Seq<i64>) -> Option<i64> {
        likelihood_rbf_spec(gram, y)
    }

    open spec fn step_spec(&self) -> (RBFKernel, bool) {
        self.rbf_step()
    }

    open spec fn grid_measure(&self) -> int {
        self.total() - self.rank()
    }

    open spec fn at_min_spec(&self) -> RBFKernel {
        RBFKernel {
            theta1: self.theta1.reset_spec(),
            theta2: self.theta2.reset_spec(),
            theta3: self.theta3.reset_spec(),
        }
    }

    open spec fn grid_ok(&self) -> bool {
        rbf_wf(*self) && self.grid_aligned()
    }

    open spec fn grid_pos(&self) -> int {
        self.rank()
    }

    open spec fn grid_total(&self) -> int {
        self.total()
    }

    open spec fn same_grid_family(&self, o: &RBFKernel) -> bool {
        self.same_grids(*o)
    }

    proof fn lemma_compute_symmetric(&self, x1: i64, x2: i64) {
        lemma_sdiff_antisymmetric(x1, x2);
        let d = sdiff_spec(x1, x2);
        let d2 = sdiff_spec(x2, x1);
        assert(d2 as int == -(d as int));
        assert((d2 as int) * (d2 as int) == (d as int) * (d as int)) by (nonlinear_arith)
            requires
                d2 as int == -(d as int),
        ;
        assert(fx_mul_spec(d2, d2) == fx_mul_spec(d, d));
    }

    proof fn lemma_params_determine(&self, other: &RBFKernel) {
    }

    proof fn lemma_params_arity(&self) {
    }

    proof fn lemma_at_min_idempotent(&self) {
    }

    proof fn lemma_grid_pos_bounds(&self) {
        lemma_rank_bounds(*self);
    }

    proof fn lemma_grid_pos_injective(&self, o: &RBFKernel, anchor: &RBFKernel) {
        lemma_rank_injective(*self, *o);
    }

    proof fn lemma_family_transitive(&self, b: &RBFKernel, c: &RBFKernel) {
    }

    proof fn lemma_family_same_total(&self, o: &RBFKernel) {
    }

    fn compute(&self, x1: i64, x2: i64) -> (r: i64) {
        let d = sdiff(x1, x2);
        let d2 = fx_mul(d, d);
        let q = fx_div(d2, self.theta2.value);
        let e = if q >= 0 {
            fx_exp_neg(q)
        } else {
            fx_div(SCALE, fx_exp_neg(fx_neg(q)))
        };
        let base = fx_mul(self.theta1.value, e);
        if -DIAG_TOL < d && d < DIAG_TOL {
            fx_add(base, self.theta3.value)
        } else {
            base
        }
    }

    fn to_next_param(&mut self) -> (more: bool) {
        proof {
            lemma_rbf_step_properties(*old(self));
        }
        let v1 = self.theta1.value + self.theta1.step;
        if v1 <= self.theta1.max {
            self.theta1.value = v1;
            true
        } else {
            self.theta1.value = self.theta1.min;
            let v2 = self.theta2.value + self.theta2.step;
            if v2 <= self.theta2.max {
                self.theta2.value = v2;
                true
            } else {
                self.theta2.value = self.theta2.min;
                let v3 = self.theta3.value + self.theta3.step;
                self.theta3.value = v3;
                v3 <= self.theta3.max
            }
        }
    }

    fn compute_likelihood(&self, gram_matrix: &Vec<Vec<i64>>, y: &Vec<i64>) -> (r: Result<
        i64,
        GpError,
    >) {
        let mut bs: Vec<Vec<i64>> = Vec::new();
        bs.push(copy_vec(y));
        proof {
            assert(rows_view(bs@) =~~= seq![y@]);
        }
        match solve_many(gram_matrix, &bs) {
            Option::None => Err(GpError::SingularMatrix),
            Option::Some(sol) => {
                let (xs, piv) = sol;
                let ghost gv = rows_view(gram_matrix@);
                let mut lsum: i64 = 0;
                let mut t: usize = 0;
                while t < piv.len()
                    invariant
                        t <= piv@.len(),
                        ln_pivots_spec(piv@, t as int) == Some(lsum),
                        gv == rows_view(gram_matrix@),
                        gauss_spec(gv, seq![y@]) == Some((rows_view(xs@), piv@)),
                        xs@.len() == 1,
                        xs@[0]@.len() == y@.len(),
                    decreases piv@.len() - t,
                {
                    let pv = piv[t];
                    if pv < 1 {
                        proof {
                            lemma_ln_pivots_none(piv@, t as int + 1, piv@.len() as int);
                        }
                        return Err(GpError::SingularMatrix);
                    }
                    lsum = fx_add(lsum, fx_ln(pv));
                    t += 1;
                }
                let d = dot(y, &xs[0]);
                Ok(fx_sub(fx_neg(lsum), d))
            },
        }
    }

    fn get_hyper_params(&self) -> (ps: Vec<Parameter>) {
        let mut ps: Vec<Parameter> = Vec::new();
        ps.push(self.theta1);
        ps.push(self.theta2);
        ps.push(self.theta3);
        proof {
            assert(ps@ =~= seq![self.theta1, self.theta2, self.theta3]);
        }
        ps
    }

    fn set_hyper_params(&mut self, params: Vec<Parameter>) -> (ok: bool) {
        if params.len() != 3 {
            false
        } else {
            self.theta1 = params[0];
            self.theta2 = params[1];
            self.theta3 = params[2];
            true
        }
    }

    fn reset_params(&mut self) {
        proof {
            lemma_index_step(old(self).theta1);
            lemma_index_step(old(self).theta2);
            lemma_index_step(old(self).theta3);
        }
        self.theta1.value = self.theta1.min;
        self.theta2.value = self.theta2.min;
        self.theta3.value = self.theta3.min;
        proof {
            let i1 = self.theta1.index();
            let c1 = self.theta1.count();
            let i2 = self.theta2.index();
            let c2 = self.theta2.count();
            let i3 = self.theta3.index();
            assert(i1 == 0 && i2 == 0 && i3 == 0);
            assert(i1 + c1 * (i2 + c2 * i3) == 0) by (nonlinear_arith)
                requires
                    i1 == 0,
                    i2 == 0,
                    i3 == 0,
            ;
        }
    }
}

} // verus!
