//! Dense linear algebra over fixed-point scalars: dot products and a
//! multi-right-hand-side Gaussian elimination (without pivoting) that also
//! reports the pivots, so a caller can form `ln(det)` as the sum of pivot
//! logarithms.  Every executable function is pinned to a spec-level mirror.

use vstd::prelude::*;
use crate::fixed::{fx_add, fx_add_spec, fx_sub, fx_sub_spec, fx_mul, fx_mul_spec, fx_div,
    fx_div_spec};

verus! {

/// Row-by-row view of a vector of vectors as a sequence of sequences.
pub open spec fn rows_view(m: Seq<Vec<i64>>) -> Seq<Seq<i64>> {
    m.map_values(|r: Vec<i64>| r@)
}

/// Left fold of the first `k` products of paired entries, mirroring how
/// the executable dot product accumulates.
pub open spec fn dot_prefix_spec(a: Seq<i64>, b: Seq<i64>, k: int) -> i64
    decreases k,
{
    if k <= 0 {
        0
    } else {
        fx_add_spec(dot_prefix_spec(a, b, k - 1), fx_mul_spec(a[k - 1], b[k - 1]))
    }
}

/// Fixed-point dot product of two equal-length vectors.
pub open spec fn dot_spec(a: Seq<i64>, b: Seq<i64>) -> i64 {
    dot_prefix_spec(a, b, a.len() as int)
}

pub fn dot(a: &Vec<i64>, b: &Vec<i64>) -> (r: i64)
    requires
        a@.len() == b@.len(),
    ensures
        r == dot_spec(a@, b@),
{
    let mut acc: i64 = 0;
    let mut i: usize = 0;
    while i < a.len()
        invariant
            i <= a@.len(),
            a@.len() == b@.len(),
            acc == dot_prefix_spec(a@, b@, i as int),
        decreases a@.len() - i,
    {
        acc = fx_add(acc, fx_mul(a[i], b[i]));
        i += 1;
    }
    acc
}

/// One eliminated row: entry `j` of `row` (beyond the pivot column) minus
/// `f` times the matching entry of the pivot row.
pub open spec fn elim_row_spec(a0: Seq<i64>, row: Seq<i64>, f: i64) -> Seq<i64> {
    Seq::new((a0.len() - 1) as nat, |j: int| fx_sub_spec(row[j + 1], fx_mul_spec(f, a0[j + 1])))
}

/// The multiplier that clears the leading entry of `row`.
pub open spec fn row_factor_spec(row: Seq<i64>, p: i64) -> i64 {
    fx_div_spec(row[0], p)
}

/// The matrix after eliminating the first row and column.
pub open spec fn reduce_mat_spec(a: Seq<Seq<i64>>) -> Seq<Seq<i64>> {
    Seq::new((a.len() - 1) as nat, |i: int|
        elim_row_spec(a[0], a[i + 1], row_factor_spec(a[i + 1], a[0][0])))
}

/// A right-hand side after the same elimination step.
pub open spec fn reduce_rhs_spec(a: Seq<Seq<i64>>, b: Seq<i64>) -> Seq<i64> {
    Seq::new((a.len() - 1) as nat, |i: int|
        fx_sub_spec(b[i + 1], fx_mul_spec(row_factor_spec(a[i + 1], a[0][0]), b[0])))
}

/// Back substitution of the leading unknown given the solution of the
/// reduced system.
pub open spec fn back_sub_spec(a0: Seq<i64>, b0: i64, p: i64, subx: Seq<i64>) -> Seq<i64> {
    seq![fx_div_spec(fx_sub_spec(b0, dot_spec(a0.skip(1), subx)), p)] + subx
}

/// Gaussian elimination without pivoting on a square matrix `a` with a
/// list of right-hand sides `bs`: `None` exactly when a pivot of zero is
/// hit, otherwise the solutions (one per right-hand side, in order) and
/// the pivots in elimination order.
pub open spec fn gauss_spec(a: Seq<Seq<i64>>, bs: Seq<Seq<i64>>) -> Option<(Seq<Seq<i64>>, Seq<
    i64,
>)>
    decreases a.len(),
{
    if a.len() == 0 {
        Some((Seq::new(bs.len(), |r: int| Seq::<i64>::empty()), Seq::<i64>::empty()))
    } else if a[0][0] == 0 {
        None
    } else {
        let suba = reduce_mat_spec(a);
        let subbs = Seq::new(bs.len(), |r: int| reduce_rhs_spec(a, bs[r]));
        match gauss_spec(suba, subbs) {
            Option::None => Option::None,
            Option::Some(sub) => Option::Some(
                (
                    Seq::new(bs.len(), |r: int| back_sub_spec(a[0], bs[r][0], a[0][0], sub.0[r])),
                    seq![a[0][0]] + sub.1,
                ),
            ),
        }
    }
}

/// An element-wise copy of a scalar vector.
pub fn copy_vec(v: &Vec<i64>) -> (c: Vec<i64>)
    ensures
        c@ == v@,
{
    let mut c: Vec<i64> = Vec::new();
    let mut j: usize = 0;
    while j < v.len()
        invariant
            j <= v@.len(),
            c@ == v@.subrange(0, j as int),
        decreases v@.len() - j,
    {
        c.push(v[j]);
        j += 1;
    }
    proof {
        assert(c@ =~= v@);
    }
    c
}

fn tail_of(v: &Vec<i64>) -> (t: Vec<i64>)
    requires
        v@.len() >= 1,
    ensures
        t@ == v@.skip(1),
{
    let mut t: Vec<i64> = Vec::new();
    let mut j: usize = 1;
    while j < v.len()
        invariant
            1 <= j <= v@.len(),
            t@ == v@.subrange(1, j as int),
        decreases v@.len() - j,
    {
        t.push(v[j]);
        j += 1;
    }
    proof {
        assert(t@ =~= v@.skip(1));
    }
    t
}

/// Solve `a * x = b` for every right-hand side in `bs` by recursive
/// Gaussian elimination, returning the solutions together with the pivots.
pub fn solve_many(a: &Vec<Vec<i64>>, bs: &Vec<Vec<i64>>) -> (r: Option<(Vec<Vec<i64>>, Vec<i64>)>)
    requires
        forall|k: int| 0 <= k < a@.len() ==> #[trigger] a@[k]@.len() == a@.len(),
        forall|k: int| 0 <= k < bs@.len() ==> #[trigger] bs@[k]@.len() == a@.len(),
    ensures
        match r {
            Option::Some(sp) => {
                &&& gauss_spec(rows_view(a@), rows_view(bs@)) == Some((rows_view(sp.0@), sp.1@))
                &&& sp.0@.len() == bs@.len()
                &&& forall|k: int| 0 <= k < bs@.len() ==> #[trigger] sp.0@[k]@.len() == a@.len()
                &&& sp.1@.len() == a@.len()
            },
            Option::None => gauss_spec(rows_view(a@), rows_view(bs@)) is None,
        },
    decreases a@.len(),
{
    let n = a.len();
    if n == 0 {
        let mut xs: Vec<Vec<i64>> = Vec::new();
        let mut k: usize = 0;
        while k < bs.len()
            invariant
                k <= bs@.len(),
                xs@.len() == k,
                forall|t: int| 0 <= t < k ==> #[trigger] xs@[t]@.len() == 0,
            decreases bs@.len() - k,
        {
            xs.push(Vec::new());
            k += 1;
        }
        proof {
            assert(rows_view(xs@) =~~= Seq::new(bs@.len(), |r: int| Seq::<i64>::empty()));
        }
        return Some((xs, Vec::new()));
    }
    let p = a[0][0];
    if p == 0 {
        return None;
    }
    let ghost av = rows_view(a@);
    let ghost bsv = rows_view(bs@);

    // Eliminate the first column from the trailing rows.
    let mut suba: Vec<Vec<i64>> = Vec::new();
    let mut i: usize = 1;
    while i < n
        invariant
            1 <= i <= n,
            n == a@.len(),
            av == rows_view(a@),
            forall|t: int| 0 <= t < n ==> #[trigger] a@[t]@.len() == n,
            p == av[0][0],
            p != 0,
            suba@.len() == i - 1,
            forall|t: int| 0 <= t < i - 1 ==> #[trigger] suba@[t]@ == reduce_mat_spec(av)[t],
        decreases n - i,
    {
        let f = fx_div(a[i][0], p);
        let mut row: Vec<i64> = Vec::new();
        let mut j: usize = 1;
        while j < n
            invariant
                1 <= j <= n,
                1 <= i < n,
                n == a@.len(),
                av == rows_view(a@),
                forall|t: int| 0 <= t < n ==> #[trigger] a@[t]@.len() == n,
                f == row_factor_spec(av[i as int], av[0][0]),
                row@.len() == j - 1,
                forall|t: int| 0 <= t < j - 1 ==> #[trigger] row@[t] == fx_sub_spec(
                    av[i as int][t + 1],
                    fx_mul_spec(f, av[0][t + 1]),
                ),
            decreases n - j,
        {
            row.push(fx_sub(a[i][j], fx_mul(f, a[0][j])));
            j += 1;
        }
        proof {
            assert(row@ =~= elim_row_spec(av[0], av[i as int], f));
        }
        suba.push(row);
        i += 1;
    }
    proof {
        assert(rows_view(suba@) =~~= reduce_mat_spec(av));
    }

    // The same elimination applied to every right-hand side.
    let mut subbs: Vec<Vec<i64>> = Vec::new();
    let mut k: usize = 0;
    while k < bs.len()
        invariant
            k <= bs@.len(),
            n == a@.len(),
            n >= 1,
            av == rows_view(a@),
            bsv == rows_view(bs@),
            forall|t: int| 0 <= t < n ==> #[trigger] a@[t]@.len() == n,
            forall|t: int| 0 <= t < bs@.len() ==> #[trigger] bs@[t]@.len() == n,
            p == av[0][0],
            p != 0,
            subbs@.len() == k,
            forall|t: int| 0 <= t < k ==> #[trigger] subbs@[t]@ == reduce_rhs_spec(av, bsv[t]),
        decreases bs@.len() - k,
    {
        let b = &bs[k];
        let mut nb: Vec<i64> = Vec::new();
        let mut i2: usize = 1;
        while i2 < n
            invariant
                1 <= i2 <= n,
                n == a@.len(),
                k < bs@.len(),
                av == rows_view(a@),
                bsv == rows_view(bs@),
                forall|t: int| 0 <= t < n ==> #[trigger] a@[t]@.len() == n,
                forall|t: int| 0 <= t < bs@.len() ==> #[trigger] bs@[t]@.len() == n,
                b == &bs[k as int],
                p == av[0][0],
                p != 0,
                nb@.len() == i2 - 1,
                forall|t: int| 0 <= t < i2 - 1 ==> #[trigger] nb@[t] == fx_sub_spec(
                    bsv[k as int][t + 1],
                    fx_mul_spec(row_factor_spec(av[t + 1], av[0][0]), bsv[k as int][0]),
                ),
            decreases n - i2,
        {
            let f = fx_div(a[i2][0], p);
            nb.push(fx_sub(b[i2], fx_mul(f, b[0])));
            i2 += 1;
        }
        proof {
            assert(nb@ =~= reduce_rhs_spec(av, bsv[k as int]));
        }
        subbs.push(nb);
        k += 1;
    }
    proof {
        assert(rows_view(subbs@) =~~= Seq::new(bsv.len(), |r: int| reduce_rhs_spec(av, bsv[r])));
    }

    let sub = solve_many(&suba, &subbs);
    match sub {
        Option::None => None,
        Option::Some(subsol) => {
            let (subxs, subpiv) = subsol;
            let a0tail = tail_of(&a[0]);
            let mut xs: Vec<Vec<i64>> = Vec::new();
            let mut k2: usize = 0;
            while k2 < bs.len()
                invariant
                    k2 <= bs@.len(),
                    n == a@.len(),
                    n >= 1,
                    av == rows_view(a@),
                    bsv == rows_view(bs@),
                    forall|t: int| 0 <= t < n ==> #[trigger] a@[t]@.len() == n,
                    forall|t: int| 0 <= t < bs@.len() ==> #[trigger] bs@[t]@.len() == n,
                    p == av[0][0],
                    a0tail@ == av[0].skip(1),
                    subxs@.len() == bs@.len(),
                    forall|t: int| 0 <= t < bs@.len() ==> #[trigger] subxs@[t]@.len() == n - 1,
                    forall|t: int| 0 <= t < bs@.len() ==> #[trigger] rows_view(subxs@)[t]
                        == gauss_spec(reduce_mat_spec(av), Seq::new(bsv.len(), |r: int|
                        reduce_rhs_spec(av, bsv[r])))->Some_0.0[t],
                    xs@.len() == k2,
                    forall|t: int| 0 <= t < k2 ==> #[trigger] xs@[t]@ == back_sub_spec(
                        av[0],
                        bsv[t][0],
                        av[0][0],
                        rows_view(subxs@)[t],
                    ),
                decreases bs@.len() - k2,
            {
                let sx = &subxs[k2];
                let x0 = fx_div(fx_sub(bs[k2][0], dot(&a0tail, sx)), p);
                let mut xrow: Vec<i64> = Vec::new();
                xrow.push(x0);
                let mut j2: usize = 0;
                while j2 < sx.len()
                    invariant
                        j2 <= sx@.len(),
                        sx == &subxs[k2 as int],
                        k2 < subxs@.len(),
                        xrow@.len() == j2 + 1,
                        xrow@[0] == x0,
                        forall|t: int| 1 <= t < j2 + 1 ==> #[trigger] xrow@[t] == sx@[t - 1],
                    decreases sx@.len() - j2,
                {
                    xrow.push(sx[j2]);
                    j2 += 1;
                }
                proof {
                    assert(xrow@ =~= seq![x0] + subxs@[k2 as int]@);
                }
                xs.push(xrow);
                k2 += 1;
            }
            let mut piv: Vec<i64> = Vec::new();
            piv.push(p);
            let mut j3: usize = 0;
            while j3 < subpiv.len()
                invariant
                    j3 <= subpiv@.len(),
                    piv@.len() == j3 + 1,
                    piv@[0] == p,
                    forall|t: int| 1 <= t < j3 + 1 ==> #[trigger] piv@[t] == subpiv@[t - 1],
                decreases subpiv@.len() - j3,
            {
                piv.push(subpiv[j3]);
                j3 += 1;
            }
            proof {
                assert(piv@ =~= seq![p] + subpiv@);
                let subg = gauss_spec(reduce_mat_spec(av), Seq::new(bsv.len(), |r: int|
                    reduce_rhs_spec(av, bsv[r])));
                assert(rows_view(xs@) =~~= Seq::new(bsv.len(), |r: int| back_sub_spec(
                    av[0],
                    bsv[r][0],
                    av[0][0],
                    subg->Some_0.0[r],
                )));
            }
            Some((xs, piv))
        },
    }
}

} // verus!
