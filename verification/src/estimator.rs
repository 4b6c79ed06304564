//! The ordinary least squares estimator.
//!
//! `fit` assembles the normal equations (XᵗX)·w = Xᵗy from the design
//! matrix X and the target vector y, solves them by Gaussian elimination
//! without pivoting (sound for the symmetric positive semi-definite Gram
//! matrix XᵗX), and verifies the candidate weights against the assembled
//! system before committing them. `predict` evaluates X·w.
//!
//! Every arithmetic step is exact and checked, and the whole computation is
//! mirrored by spec functions, so the contract of `fit` determines its
//! result — weights, singularity report or overflow report — from the
//! inputs alone.

use vstd::prelude::*;
use vstd::pervasive::VecAdditionalExecFns;

use crate::rational::Rat;
use crate::rational::Ratio;
use crate::rational::add_v;
use crate::rational::sub_v;
use crate::rational::mul_v;
use crate::rational::chk;
use crate::rational::odiv;
use crate::rational::opt_val;
use crate::rational::opt_wf;
use crate::rational::ratio_eqv;
use crate::rational::ratio_wf;
use crate::rational::zero_ratio;
use crate::rational::lemma_chk_eqv;
use crate::rational::lemma_eqv_trans;
use crate::rational::lemma_add_eqv;
use crate::rational::lemma_mul_eqv;
use crate::matrix::Matrix;
use crate::matrix::grid_vals;
use crate::matrix::grid_wf;
use crate::matrix::row_vals;
use crate::matrix::vals_wf;

verus! {

/// Why a call failed. Dimension errors carry the two counts that disagree.
#[derive(Clone, Copy, Debug, PartialEq, Eq, Structural)]
pub enum OlsError {
    /// `fit`: the design matrix and the target vector disagree on the number
    /// of observations.
    DimensionMismatch { x_rows: usize, y_len: usize },
    /// `fit`: the Gram matrix XᵗX is singular, usually because features are
    /// linearly dependent.
    SingularMatrix,
    /// `predict`: no successful `fit` has happened yet.
    NotFitted,
    /// `predict`: the input column count differs from the stored feature
    /// count.
    FeatureDimensionMismatch { x_cols: usize, expected: usize },
    /// An exact intermediate value, even in lowest terms, left the range
    /// of the 64-bit fraction representation.
    NumericOverflow,
}

/// Result of Gaussian elimination at the spec level.
pub ghost enum ElimRes {
    /// Elimination ran to completion and left this upper-triangular
    /// augmented matrix.
    Done(Seq<Seq<Ratio>>),
    /// A pivot was exactly zero: the Gram matrix is reported singular.
    Singular,
    /// Some intermediate value left the machine representation.
    Overflow,
}

/// What `fit` computes for given inputs.
pub ghost enum FitOutcome {
    /// The solved weight vector of the normal equations.
    Weights(Seq<Ratio>),
    Singular,
    Overflow,
}

/// Checked sum of the first `k` terms of an entry of the augmented system
/// [XᵗX | Xᵗy]: column `j == p` is the target column Xᵗy, the others are
/// Gram entries Σ x[k][i]·x[k][j].
pub open spec fn aug_sum(
    x: Seq<Seq<Ratio>>,
    y: Seq<Ratio>,
    p: int,
    i: int,
    j: int,
    k: int,
) -> Option<Ratio>
    decreases k,
{
    if k <= 0 {
        Some(zero_ratio())
    } else {
        let term = if j == p {
            chk(mul_v(x[k - 1][i], y[k - 1]))
        } else {
            chk(mul_v(x[k - 1][i], x[k - 1][j]))
        };
        match (aug_sum(x, y, p, i, j, k - 1), term) {
            (Some(acc), Some(t)) => chk(add_v(acc, t)),
            _ => None,
        }
    }
}

/// One checked entry of the augmented system, summed over all observations.
pub open spec fn aug_entry(x: Seq<Seq<Ratio>>, y: Seq<Ratio>, p: int, i: int, j: int) -> Option<
    Ratio,
> {
    aug_sum(x, y, p, i, j, x.len() as int)
}

/// Whether every entry of row `i` of the augmented system fits the machine
/// representation.
pub open spec fn aug_row_ok(x: Seq<Seq<Ratio>>, y: Seq<Ratio>, p: int, i: int) -> bool {
    forall|j: int| 0 <= j <= p ==> (#[trigger] aug_entry(x, y, p, i, j)) is Some
}

/// Row `i` of the augmented system (meaningful only when `aug_row_ok`).
pub open spec fn aug_row(x: Seq<Seq<Ratio>>, y: Seq<Ratio>, p: int, i: int) -> Seq<Ratio> {
    Seq::new((p + 1) as nat, |j: int| aug_entry(x, y, p, i, j).unwrap())
}

/// Whether the whole augmented system fits the machine representation.
pub open spec fn aug_ok(x: Seq<Seq<Ratio>>, y: Seq<Ratio>, p: int) -> bool {
    forall|i: int| 0 <= i < p ==> #[trigger] aug_row_ok(x, y, p, i)
}

/// The augmented system [XᵗX | Xᵗy] as a p × (p+1) grid.
pub open spec fn aug_matrix(x: Seq<Seq<Ratio>>, y: Seq<Ratio>, p: int) -> Seq<Seq<Ratio>> {
    Seq::new(p as nat, |i: int| aug_row(x, y, p, i))
}

/// One checked entry of a row update during elimination:
/// row_i[j] - f·row_k[j].
pub open spec fn upd_entry(ri: Seq<Ratio>, rk: Seq<Ratio>, f: Ratio, j: int) -> Option<Ratio> {
    match chk(mul_v(f, rk[j])) {
        Some(m) => chk(sub_v(ri[j], m)),
        None => None,
    }
}

/// Whether a whole row update of width `w` fits the machine representation.
pub open spec fn upd_row_ok(ri: Seq<Ratio>, rk: Seq<Ratio>, f: Ratio, w: int) -> bool {
    forall|j: int| 0 <= j < w ==> (#[trigger] upd_entry(ri, rk, f, j)) is Some
}

/// The updated row of width `w` (meaningful only when `upd_row_ok`).
pub open spec fn upd_row(ri: Seq<Ratio>, rk: Seq<Ratio>, f: Ratio, w: int) -> Seq<Ratio> {
    Seq::new(w as nat, |j: int| upd_entry(ri, rk, f, j).unwrap())
}

/// What elimination stage `k` makes of row `i` (for k < i < p): the row
/// minus (a[i][k]/a[k][k]) times the pivot row, or `None` on overflow.
pub open spec fn stage_row(a: Seq<Seq<Ratio>>, k: int, p: int, i: int) -> Option<Seq<Ratio>> {
    match odiv(Some(a[i][k]), Some(a[k][k])) {
        Some(f) => if upd_row_ok(a[i], a[k], f, p + 1) {
            Some(upd_row(a[i], a[k], f, p + 1))
        } else {
            None
        },
        None => None,
    }
}

/// Whether every row update of elimination stage `k` stays representable.
pub open spec fn stage_ok(a: Seq<Seq<Ratio>>, k: int, p: int) -> bool {
    forall|i: int| k < i < p ==> (#[trigger] stage_row(a, k, p, i)) is Some
}

/// The augmented matrix after elimination stage `k`: rows up to `k` are
/// kept, the rows below the pivot are updated.
pub open spec fn stage_mat(a: Seq<Seq<Ratio>>, k: int, p: int) -> Seq<Seq<Ratio>> {
    Seq::new(p as nat, |i: int| if k < i < p {
        stage_row(a, k, p, i).unwrap()
    } else {
        a[i]
    })
}

/// Gaussian elimination without pivoting on the p × (p+1) augmented matrix,
/// from stage `k` on. A zero pivot reports the system singular.
pub open spec fn elim(a: Seq<Seq<Ratio>>, p: int, k: int) -> ElimRes
    decreases p - k,
{
    if k < 0 || k >= p {
        ElimRes::Done(a)
    } else if a[k][k].num == 0 {
        ElimRes::Singular
    } else if !stage_ok(a, k, p) {
        ElimRes::Overflow
    } else {
        elim(stage_mat(a, k, p), p, k + 1)
    }
}

/// Checked running value of back substitution in row `i` after the first
/// `t` already-solved columns i+1, ..., i+t have been folded in:
/// a[i][p] - Σ a[i][j]·w[j].
pub open spec fn tail_sum(row: Seq<Ratio>, w: Seq<Ratio>, p: int, i: int, t: int) -> Option<Ratio>
    decreases t,
{
    if t <= 0 {
        Some(row[p])
    } else {
        let j = i + t;
        match (tail_sum(row, w, p, i, t - 1), chk(mul_v(row[j], w[j]))) {
            (Some(acc), Some(m)) => chk(sub_v(acc, m)),
            _ => None,
        }
    }
}

/// The solved weight of row `i` during back substitution, given the weights
/// of the rows below it.
pub open spec fn back_step(a: Seq<Seq<Ratio>>, p: int, i: int, w: Seq<Ratio>) -> Option<Ratio> {
    match tail_sum(a[i], w, p, i, p - 1 - i) {
        Some(s) => odiv(Some(s), Some(a[i][i])),
        None => None,
    }
}

/// Back substitution on the eliminated matrix, walking rows i-1 down to 0
/// and filling the weight vector `w` in place.
pub open spec fn back(a: Seq<Seq<Ratio>>, p: int, i: int, w: Seq<Ratio>) -> Option<Seq<Ratio>>
    decreases i,
{
    if i <= 0 {
        Some(w)
    } else {
        match back_step(a, p, i - 1, w) {
            Some(v) => back(a, p, i - 1, w.update(i - 1, v)),
            None => None,
        }
    }
}

/// Checked dot product of the first `k` columns of a row with a weight
/// vector.
pub open spec fn odot(r: Seq<Ratio>, w: Seq<Ratio>, k: int) -> Option<Ratio>
    decreases k,
{
    if k <= 0 {
        Some(zero_ratio())
    } else {
        match (odot(r, w, k - 1), chk(mul_v(r[k - 1], w[k - 1]))) {
            (Some(acc), Some(m)) => chk(add_v(acc, m)),
            _ => None,
        }
    }
}

/// Verification of one equation of the assembled system: does row `i` of
/// the augmented matrix, as assembled, dotted with the candidate weights,
/// give back its target entry?
pub open spec fn cert_row(a0: Seq<Seq<Ratio>>, w: Seq<Ratio>, p: int, i: int) -> Option<bool> {
    match odot(a0[i], w, p) {
        Some(d) => Some(ratio_eqv(d, a0[i][p])),
        None => None,
    }
}

/// Verification of the candidate weights against the whole assembled
/// system; `None` when the check itself overflows.
pub open spec fn certified(a0: Seq<Seq<Ratio>>, w: Seq<Ratio>, p: int) -> Option<bool> {
    if forall|i: int| 0 <= i < p ==> (#[trigger] cert_row(a0, w, p, i)) is Some {
        Some(forall|i: int| 0 <= i < p ==> (#[trigger] cert_row(a0, w, p, i)) == Some(true))
    } else {
        None
    }
}

/// A weight vector of `p` zeros.
pub open spec fn zero_seq(p: int) -> Seq<Ratio> {
    Seq::new(p as nat, |i: int| zero_ratio())
}

/// What `fit` computes for a design matrix with `p` feature columns and a
/// matching target vector: the entire pipeline — assembling the normal
/// equations, elimination, back substitution, verification — step for step,
/// so the outcome is a function of the inputs alone.
pub open spec fn fit_result(x: Seq<Seq<Ratio>>, y: Seq<Ratio>, p: int) -> FitOutcome {
    if !aug_ok(x, y, p) {
        FitOutcome::Overflow
    } else {
        let a0 = aug_matrix(x, y, p);
        match elim(a0, p, 0) {
            ElimRes::Singular => FitOutcome::Singular,
            ElimRes::Overflow => FitOutcome::Overflow,
            ElimRes::Done(a1) => match back(a1, p, p, zero_seq(p)) {
                None => FitOutcome::Overflow,
                Some(w) => match certified(a0, w, p) {
                    Some(true) => FitOutcome::Weights(w),
                    // A solved system that fails its own verification is
                    // mathematically unreachable; the branch only keeps
                    // the outcome a total function of the inputs.
                    _ => FitOutcome::Overflow,
                },
            },
        }
    }
}

// ------------------------------------------------------------------
// The unchecked mathematical mirror: the same quantities over unbounded
// integers, used to state what successful results mean.
// ------------------------------------------------------------------

/// Exact sum of the first `k` terms of an entry of the augmented system,
/// over unbounded integers.
pub open spec fn aug_sum_u(
    x: Seq<Seq<Ratio>>,
    y: Seq<Ratio>,
    p: int,
    i: int,
    j: int,
    k: int,
) -> Ratio
    decreases k,
{
    if k <= 0 {
        zero_ratio()
    } else {
        let term = if j == p {
            mul_v(x[k - 1][i], y[k - 1])
        } else {
            mul_v(x[k - 1][i], x[k - 1][j])
        };
        add_v(aug_sum_u(x, y, p, i, j, k - 1), term)
    }
}

/// Exact entry of the augmented system: Gram entry (XᵗX)[i][j] for j < p,
/// and (Xᵗy)[i] for j == p.
pub open spec fn aug_entry_u(x: Seq<Seq<Ratio>>, y: Seq<Ratio>, p: int, i: int, j: int) -> Ratio {
    aug_sum_u(x, y, p, i, j, x.len() as int)
}

/// Exact dot product of the first `k` columns of a row with a weight
/// vector.
pub open spec fn dot_u(r: Seq<Ratio>, w: Seq<Ratio>, k: int) -> Ratio
    decreases k,
{
    if k <= 0 {
        zero_ratio()
    } else {
        add_v(dot_u(r, w, k - 1), mul_v(r[k - 1], w[k - 1]))
    }
}

/// Row `i` of the exact Gram matrix XᵗX.
pub open spec fn gram_row_u(x: Seq<Seq<Ratio>>, y: Seq<Ratio>, p: int, i: int) -> Seq<Ratio> {
    Seq::new(p as nat, |j: int| aug_entry_u(x, y, p, i, j))
}

/// The weights `w` satisfy the normal equations of X and y: for every
/// feature `i`, Σ_j (XᵗX)[i][j]·w[j] equals (Xᵗy)[i] as rational numbers.
pub open spec fn normal_eq(x: Seq<Seq<Ratio>>, y: Seq<Ratio>, p: int, w: Seq<Ratio>) -> bool {
    forall|i: int|
        0 <= i < p ==> ratio_eqv(
            dot_u(#[trigger] gram_row_u(x, y, p, i), w, p),
            aug_entry_u(x, y, p, i, p),
        )
}

// ------------------------------------------------------------------
// Executable pipeline stages.
// ------------------------------------------------------------------

/// Assembles the augmented normal-equations system [XᵗX | Xᵗy] from the
/// design matrix and the target vector, with checked arithmetic.
#[verifier::loop_isolation(false)]
fn build_aug(x: &Matrix, y: &Vec<Rat>) -> (r: Option<Vec<Vec<Rat>>>)
    requires
        x.wf(),
        vals_wf(row_vals(y@)),
        x.rows == y@.len(),
    ensures
        match r {
            Some(a) => {
                &&& aug_ok(x@, row_vals(y@), x.cols as int)
                &&& grid_vals(a@) == aug_matrix(x@, row_vals(y@), x.cols as int)
                &&& a@.len() == x.cols
                &&& forall|i: int| 0 <= i < a@.len() ==> (#[trigger] a@[i])@.len() == x.cols + 1
                &&& grid_wf(grid_vals(a@), x.cols as int, x.cols as int + 1)
            },
            None => !aug_ok(x@, row_vals(y@), x.cols as int),
        },
{
    let ghost xv = x@;
    let ghost yv = row_vals(y@);
    let p = x.cols;
    let n = x.rows;
    let mut a: Vec<Vec<Rat>> = Vec::new();
    let mut i: usize = 0;
    while i < p
        invariant
            0 <= i <= p,
            a@.len() == i,
            forall|i2: int| 0 <= i2 < i ==> aug_row_ok(xv, yv, p as int, i2),
            forall|i2: int|
                0 <= i2 < i ==> row_vals((#[trigger] a@[i2])@) == aug_row(xv, yv, p as int, i2),
            forall|i2: int| 0 <= i2 < i ==> (#[trigger] a@[i2])@.len() == p + 1,
            forall|i2: int, j2: int|
                0 <= i2 < i && 0 <= j2 < p + 1 ==> (#[trigger] a@[i2]@[j2]).wf(),
        decreases p - i,
    {
        let mut row: Vec<Rat> = Vec::new();
        let mut j: usize = 0;
        while j <= p
            invariant
                0 <= j <= p + 1,
                row@.len() == j,
                forall|j2: int|
                    0 <= j2 < j ==> (#[trigger] aug_entry(xv, yv, p as int, i as int, j2))
                        is Some,
                forall|j2: int|
                    0 <= j2 < j ==> (#[trigger] row@[j2])@ == aug_entry(
                        xv,
                        yv,
                        p as int,
                        i as int,
                        j2,
                    ).unwrap(),
                forall|j2: int| 0 <= j2 < j ==> (#[trigger] row@[j2]).wf(),
            decreases p + 1 - j,
        {
            let mut acc: Option<Rat> = Some(Rat::zero());
            let mut k: usize = 0;
            while k < n
                invariant
                    0 <= k <= n,
                    0 <= j <= p,
                    opt_val(acc) == aug_sum(xv, yv, p as int, i as int, j as int, k as int),
                    opt_wf(acc),
                decreases n - k,
            {
                proof {
                    assert(xv[k as int] == row_vals(x.data@[k as int]@));
                    assert(xv[k as int].len() == p);
                    assert(ratio_wf(xv[k as int][i as int]));
                    assert(ratio_wf(yv[k as int]));
                    if j < p {
                        assert(ratio_wf(xv[k as int][j as int]));
                    }
                }
                let term = if j == p {
                    x.data[k][i].checked_mul(y[k])
                } else {
                    x.data[k][i].checked_mul(x.data[k][j])
                };
                acc = match (acc, term) {
                    (Some(a1), Some(t)) => a1.checked_add(t),
                    _ => None,
                };
                k += 1;
            }
            match acc {
                None => {
                    proof {
                        assert(aug_entry(xv, yv, p as int, i as int, j as int) is None);
                        assert(!aug_row_ok(xv, yv, p as int, i as int));
                    }
                    return None;
                },
                Some(v) => {
                    row.push(v);
                },
            }
            j += 1;
        }
        proof {
            assert(aug_row_ok(xv, yv, p as int, i as int));
            assert(row_vals(row@) =~= aug_row(xv, yv, p as int, i as int));
        }
        a.push(row);
        i += 1;
    }
    proof {
        assert(grid_vals(a@) =~= aug_matrix(xv, yv, p as int));
    }
    Some(a)
}

/// Runs Gaussian elimination without pivoting on the augmented system, in
/// place, mirroring `elim` stage for stage.
#[verifier::loop_isolation(false)]
fn eliminate(a: &mut Vec<Vec<Rat>>, p: usize) -> (r: Result<(), OlsError>)
    requires
        p < usize::MAX,
        old(a)@.len() == p,
        forall|i: int| 0 <= i < p ==> (#[trigger] old(a)@[i])@.len() == p + 1,
        grid_wf(grid_vals(old(a)@), p as int, p as int + 1),
    ensures
        match r {
            Ok(()) => {
                &&& elim(grid_vals(old(a)@), p as int, 0) == ElimRes::Done(grid_vals(final(a)@))
                &&& final(a)@.len() == p
                &&& forall|i: int| 0 <= i < p ==> (#[trigger] final(a)@[i])@.len() == p + 1
                &&& grid_wf(grid_vals(final(a)@), p as int, p as int + 1)
            },
            Err(e) => (e == OlsError::SingularMatrix && elim(grid_vals(old(a)@), p as int, 0)
                == ElimRes::Singular) || (e == OlsError::NumericOverflow && elim(
                grid_vals(old(a)@),
                p as int,
                0,
            ) == ElimRes::Overflow),
        },
{
    let ghost g0 = grid_vals(old(a)@);
    let mut k: usize = 0;
    while k < p
        invariant
            0 <= k <= p,
            a@.len() == p,
            forall|i: int| 0 <= i < p ==> (#[trigger] a@[i])@.len() == p + 1,
            grid_wf(grid_vals(a@), p as int, p as int + 1),
            elim(g0, p as int, 0) == elim(grid_vals(a@), p as int, k as int),
        decreases p - k,
    {
        let ghost ak = grid_vals(a@);
        proof {
            assert(ak[k as int] == row_vals(a@[k as int]@));
        }
        if a[k][k].is_zero() {
            proof {
                assert(elim(ak, p as int, k as int) == ElimRes::Singular);
            }
            return Err(OlsError::SingularMatrix);
        }
        let pivot = a[k][k];
        let mut i: usize = k + 1;
        while i < p
            invariant
                k < i <= p,
                k < p,
                a@.len() == p,
                forall|i2: int| 0 <= i2 < p ==> (#[trigger] a@[i2])@.len() == p + 1,
                grid_wf(grid_vals(a@), p as int, p as int + 1),
                forall|i2: int|
                    0 <= i2 < p && !(k < i2 < i) ==> #[trigger] grid_vals(a@)[i2] == ak[i2],
                forall|i2: int|
                    k < i2 < i ==> (#[trigger] stage_row(ak, k as int, p as int, i2)) is Some,
                forall|i2: int|
                    k < i2 < i ==> #[trigger] grid_vals(a@)[i2] == stage_row(
                        ak,
                        k as int,
                        p as int,
                        i2,
                    ).unwrap(),
            decreases p - i,
        {
            proof {
                assert(grid_vals(a@)[i as int] == ak[i as int]);
                assert(grid_vals(a@)[k as int] == ak[k as int]);
                assert(grid_vals(a@)[i as int] == row_vals(a@[i as int]@));
                assert(grid_vals(a@)[k as int] == row_vals(a@[k as int]@));
                assert(ratio_wf(grid_vals(a@)[i as int][k as int]));
                assert(ratio_wf(grid_vals(a@)[k as int][k as int]));
            }
            let f = match a[i][k].checked_div(pivot) {
                Some(f) => f,
                None => {
                    proof {
                        assert(stage_row(ak, k as int, p as int, i as int) is None);
                        assert(elim(ak, p as int, k as int) == ElimRes::Overflow);
                    }
                    return Err(OlsError::NumericOverflow);
                },
            };
            let mut nr: Vec<Rat> = Vec::new();
            let mut j: usize = 0;
            while j <= p
                invariant
                    0 <= j <= p + 1,
                    nr@.len() == j,
                    forall|j2: int|
                        0 <= j2 < j ==> (#[trigger] upd_entry(
                            ak[i as int],
                            ak[k as int],
                            f@,
                            j2,
                        )) is Some,
                    forall|j2: int|
                        0 <= j2 < j ==> (#[trigger] nr@[j2])@ == upd_entry(
                            ak[i as int],
                            ak[k as int],
                            f@,
                            j2,
                        ).unwrap(),
                    forall|j2: int| 0 <= j2 < j ==> (#[trigger] nr@[j2]).wf(),
                decreases p + 1 - j,
            {
                proof {
                    assert(ratio_wf(grid_vals(a@)[i as int][j as int]));
                    assert(ratio_wf(grid_vals(a@)[k as int][j as int]));
                }
                let m = match f.checked_mul(a[k][j]) {
                    Some(m) => m,
                    None => {
                        proof {
                            assert(upd_entry(ak[i as int], ak[k as int], f@, j as int) is None);
                            assert(stage_row(ak, k as int, p as int, i as int) is None);
                            assert(elim(ak, p as int, k as int) == ElimRes::Overflow);
                        }
                        return Err(OlsError::NumericOverflow);
                    },
                };
                let e = match a[i][j].checked_sub(m) {
                    Some(e) => e,
                    None => {
                        proof {
                            assert(upd_entry(ak[i as int], ak[k as int], f@, j as int) is None);
                            assert(stage_row(ak, k as int, p as int, i as int) is None);
                            assert(elim(ak, p as int, k as int) == ElimRes::Overflow);
                        }
                        return Err(OlsError::NumericOverflow);
                    },
                };
                nr.push(e);
                j += 1;
            }
            let ghost prev = a@;
            let ghost nrv = row_vals(nr@);
            proof {
                assert(upd_row_ok(ak[i as int], ak[k as int], f@, p as int + 1));
                assert(nrv =~= upd_row(ak[i as int], ak[k as int], f@, p as int + 1));
                assert(stage_row(ak, k as int, p as int, i as int) == Some(nrv));
                assert(vals_wf(nrv));
            }
            a.set(i, nr);
            proof {
                assert forall|i2: int| 0 <= i2 < p && i2 != i as int implies #[trigger] grid_vals(
                    a@,
                )[i2] == grid_vals(prev)[i2] by {
                    assert(a@[i2] == prev[i2]);
                }
                assert(grid_vals(a@)[i as int] == nrv);
                assert forall|i2: int, j2: int|
                    0 <= i2 < p && 0 <= j2 < p + 1 implies ratio_wf(
                    #[trigger] grid_vals(a@)[i2][j2],
                ) by {
                    if i2 == i as int {
                        assert(ratio_wf(nrv[j2]));
                    } else {
                        assert(grid_vals(a@)[i2] == grid_vals(prev)[i2]);
                        assert(ratio_wf(grid_vals(prev)[i2][j2]));
                    }
                }
            }
            i += 1;
        }
        proof {
            assert(stage_ok(ak, k as int, p as int));
            assert(grid_vals(a@) =~= stage_mat(ak, k as int, p as int));
            assert(elim(ak, p as int, k as int) == elim(grid_vals(a@), p as int, k as int + 1));
        }
        k += 1;
    }
    Ok(())
}

/// Back substitution on the eliminated upper-triangular system, mirroring
/// `back` row for row.
#[verifier::loop_isolation(false)]
fn back_substitute(a: &Vec<Vec<Rat>>, p: usize) -> (r: Option<Vec<Rat>>)
    requires
        p < usize::MAX,
        a@.len() == p,
        forall|i: int| 0 <= i < p ==> (#[trigger] a@[i])@.len() == p + 1,
        grid_wf(grid_vals(a@), p as int, p as int + 1),
    ensures
        match r {
            Some(w) => {
                &&& back(grid_vals(a@), p as int, p as int, zero_seq(p as int)) == Some(
                    row_vals(w@),
                )
                &&& w@.len() == p
                &&& vals_wf(row_vals(w@))
            },
            None => back(grid_vals(a@), p as int, p as int, zero_seq(p as int)) is None,
        },
{
    let ghost g = grid_vals(a@);
    let mut w: Vec<Rat> = Vec::new();
    let mut z: usize = 0;
    while z < p
        invariant
            0 <= z <= p,
            w@.len() == z,
            forall|q: int| 0 <= q < z ==> (#[trigger] w@[q])@ == zero_ratio(),
        decreases p - z,
    {
        w.push(Rat::zero());
        z += 1;
    }
    proof {
        assert(row_vals(w@) =~= zero_seq(p as int));
    }
    let mut i: usize = p;
    while i > 0
        invariant
            0 <= i <= p,
            w@.len() == p,
            vals_wf(row_vals(w@)),
            back(g, p as int, p as int, zero_seq(p as int)) == back(
                g,
                p as int,
                i as int,
                row_vals(w@),
            ),
        decreases i,
    {
        let ii = i - 1;
        let ghost wv = row_vals(w@);
        proof {
            assert(g[ii as int] == row_vals(a@[ii as int]@));
            assert(ratio_wf(g[ii as int][p as int]));
        }
        let mut acc: Option<Rat> = Some(a[ii][p]);
        let mut j: usize = ii + 1;
        while j < p
            invariant
                ii + 1 <= j <= p,
                opt_val(acc) == tail_sum(g[ii as int], wv, p as int, ii as int, j - ii - 1),
                opt_wf(acc),
            decreases p - j,
        {
            proof {
                assert(ratio_wf(g[ii as int][j as int]));
                assert(ratio_wf(wv[j as int]));
            }
            acc = match (acc, a[ii][j].checked_mul(w[j])) {
                (Some(s), Some(m)) => s.checked_sub(m),
                _ => None,
            };
            j += 1;
        }
        let s = match acc {
            Some(s) => s,
            None => {
                proof {
                    assert(back_step(g, p as int, ii as int, wv) is None);
                    assert(back(g, p as int, i as int, wv) is None);
                }
                return None;
            },
        };
        proof {
            assert(ratio_wf(g[ii as int][ii as int]));
        }
        let v = match s.checked_div(a[ii][ii]) {
            Some(v) => v,
            None => {
                proof {
                    assert(back_step(g, p as int, ii as int, wv) is None);
                    assert(back(g, p as int, i as int, wv) is None);
                }
                return None;
            },
        };
        proof {
            assert(back_step(g, p as int, ii as int, wv) == Some(v@));
        }
        w.set(ii, v);
        proof {
            assert(row_vals(w@) =~= wv.update(ii as int, v@));
            assert(back(g, p as int, i as int, wv) == back(
                g,
                p as int,
                ii as int,
                row_vals(w@),
            ));
        }
        i = ii;
    }
    Some(w)
}

/// Checked dot product of the first `w.len()` entries of a row with the
/// weight vector `w`, mirroring `odot`.
#[verifier::loop_isolation(false)]
fn dot_prefix(row: &Vec<Rat>, w: &Vec<Rat>) -> (r: Option<Rat>)
    requires
        row@.len() >= w@.len(),
        vals_wf(row_vals(row@)),
        vals_wf(row_vals(w@)),
    ensures
        opt_val(r) == odot(row_vals(row@), row_vals(w@), w@.len() as int),
        opt_wf(r),
{
    let mut acc: Option<Rat> = Some(Rat::zero());
    let mut k: usize = 0;
    while k < w.len()
        invariant
            0 <= k <= w@.len(),
            opt_val(acc) == odot(row_vals(row@), row_vals(w@), k as int),
            opt_wf(acc),
        decreases w@.len() - k,
    {
        proof {
            assert(ratio_wf(row_vals(row@)[k as int]));
            assert(ratio_wf(row_vals(w@)[k as int]));
        }
        acc = match (acc, row[k].checked_mul(w[k])) {
            (Some(s), Some(m)) => s.checked_add(m),
            _ => None,
        };
        k += 1;
    }
    acc
}

/// Checks the candidate weights against the assembled augmented system,
/// mirroring `certified`: returns true exactly when every equation of the
/// system is satisfied and no check overflows.
#[verifier::loop_isolation(false)]
fn certify(a0: &Vec<Vec<Rat>>, w: &Vec<Rat>, p: usize) -> (r: bool)
    requires
        a0@.len() == p,
        forall|i: int| 0 <= i < p ==> (#[trigger] a0@[i])@.len() == p + 1,
        grid_wf(grid_vals(a0@), p as int, p as int + 1),
        w@.len() == p,
        vals_wf(row_vals(w@)),
    ensures
        r == (certified(grid_vals(a0@), row_vals(w@), p as int) == Some(true)),
{
    let ghost g = grid_vals(a0@);
    let ghost wv = row_vals(w@);
    let mut i: usize = 0;
    while i < p
        invariant
            0 <= i <= p,
            forall|i2: int| 0 <= i2 < i ==> (#[trigger] cert_row(g, wv, p as int, i2)) == Some(
                true,
            ),
        decreases p - i,
    {
        proof {
            assert(g[i as int] == row_vals(a0@[i as int]@));
            assert forall|j: int| 0 <= j < row_vals(a0@[i as int]@).len() implies ratio_wf(
                #[trigger] row_vals(a0@[i as int]@)[j],
            ) by {
                assert(ratio_wf(g[i as int][j]));
            }
        }
        let d = match dot_prefix(&a0[i], w) {
            Some(d) => d,
            None => {
                proof {
                    assert(cert_row(g, wv, p as int, i as int) is None);
                    assert(certified(g, wv, p as int) != Some(true));
                }
                return false;
            },
        };
        if !d.equiv(a0[i][p]) {
            proof {
                assert(cert_row(g, wv, p as int, i as int) == Some(false));
                assert(certified(g, wv, p as int) != Some(true));
            }
            return false;
        }
        i += 1;
    }
    proof {
        assert(certified(g, wv, p as int) == Some(true));
    }
    true
}

/// A deep copy of the augmented system, kept so that the solved weights can
/// be checked against the system as it was assembled.
#[verifier::loop_isolation(false)]
fn copy_grid(a: &Vec<Vec<Rat>>) -> (r: Vec<Vec<Rat>>)
    ensures
        r@.len() == a@.len(),
        forall|i: int| 0 <= i < a@.len() ==> (#[trigger] r@[i])@ == a@[i]@,
        grid_vals(r@) == grid_vals(a@),
{
    let mut r: Vec<Vec<Rat>> = Vec::new();
    let mut i: usize = 0;
    while i < a.len()
        invariant
            0 <= i <= a@.len(),
            r@.len() == i,
            forall|i2: int| 0 <= i2 < i ==> (#[trigger] r@[i2])@ == a@[i2]@,
        decreases a@.len() - i,
    {
        let mut row: Vec<Rat> = Vec::new();
        let mut j: usize = 0;
        while j < a[i].len()
            invariant
                0 <= i < a@.len(),
                0 <= j <= a@[i as int]@.len(),
                row@.len() == j,
                forall|j2: int| 0 <= j2 < j ==> (#[trigger] row@[j2]) == a@[i as int]@[j2],
            decreases a@[i as int]@.len() - j,
        {
            row.push(a[i][j]);
            j += 1;
        }
        proof {
            assert(row@ =~= a@[i as int]@);
        }
        r.push(row);
        i += 1;
    }
    proof {
        assert(grid_vals(r@) =~= grid_vals(a@));
    }
    r
}

// ------------------------------------------------------------------
// Bridging lemmas: a checked computation that is defined equals the exact
// one.
// ------------------------------------------------------------------

/// A defined checked entry sum is a well-formed fraction with the value of
/// the exact entry sum.
proof fn lemma_aug_sum_eqv(x: Seq<Seq<Ratio>>, y: Seq<Ratio>, p: int, i: int, j: int, k: int)
    requires
        grid_wf(x, x.len() as int, p),
        vals_wf(y),
        y.len() == x.len(),
        0 <= i < p,
        0 <= j <= p,
        0 <= k <= x.len(),
        aug_sum(x, y, p, i, j, k) is Some,
    ensures
        ratio_wf(aug_sum(x, y, p, i, j, k).unwrap()),
        ratio_wf(aug_sum_u(x, y, p, i, j, k)),
        ratio_eqv(aug_sum(x, y, p, i, j, k).unwrap(), aug_sum_u(x, y, p, i, j, k)),
    decreases k,
{
    if k <= 0 {
    } else {
        lemma_aug_sum_eqv(x, y, p, i, j, k - 1);
        let term_u = if j == p {
            mul_v(x[k - 1][i], y[k - 1])
        } else {
            mul_v(x[k - 1][i], x[k - 1][j])
        };
        assert(ratio_wf(x[k - 1][i]));
        if j == p {
            assert(ratio_wf(y[k - 1]));
        } else {
            assert(ratio_wf(x[k - 1][j]));
        }
        assert(term_u.den > 0) by (nonlinear_arith)
            requires
                term_u.den == x[k - 1][i].den * (if j == p {
                    y[k - 1]
                } else {
                    x[k - 1][j]
                }).den,
                x[k - 1][i].den > 0,
                (if j == p {
                    y[k - 1]
                } else {
                    x[k - 1][j]
                }).den > 0,
        ;
        lemma_chk_eqv(term_u);
        let term_r = chk(term_u).unwrap();
        let acc_r = aug_sum(x, y, p, i, j, k - 1).unwrap();
        let acc_u = aug_sum_u(x, y, p, i, j, k - 1);
        let mid = add_v(acc_r, term_r);
        assert(mid.den > 0) by (nonlinear_arith)
            requires
                mid.den == acc_r.den * term_r.den,
                acc_r.den > 0,
                term_r.den > 0,
        ;
        lemma_chk_eqv(mid);
        lemma_add_eqv(acc_r, acc_u, term_r, term_u);
        lemma_eqv_trans(aug_sum(x, y, p, i, j, k).unwrap(), mid, aug_sum_u(x, y, p, i, j, k));
        assert(aug_sum_u(x, y, p, i, j, k).den > 0) by (nonlinear_arith)
            requires
                aug_sum_u(x, y, p, i, j, k).den == acc_u.den * term_u.den,
                acc_u.den > 0,
                term_u.den > 0,
        ;
    }
}

/// A defined checked dot product is a well-formed fraction with the value
/// of the exact dot product.
proof fn lemma_odot_eqv(r: Seq<Ratio>, w: Seq<Ratio>, k: int)
    requires
        0 <= k <= r.len(),
        k <= w.len(),
        vals_wf(r),
        vals_wf(w),
        odot(r, w, k) is Some,
    ensures
        ratio_wf(odot(r, w, k).unwrap()),
        ratio_wf(dot_u(r, w, k)),
        ratio_eqv(odot(r, w, k).unwrap(), dot_u(r, w, k)),
    decreases k,
{
    if k <= 0 {
    } else {
        lemma_odot_eqv(r, w, k - 1);
        let term_u = mul_v(r[k - 1], w[k - 1]);
        assert(ratio_wf(r[k - 1]));
        assert(ratio_wf(w[k - 1]));
        assert(term_u.den > 0) by (nonlinear_arith)
            requires
                term_u.den == r[k - 1].den * w[k - 1].den,
                r[k - 1].den > 0,
                w[k - 1].den > 0,
        ;
        lemma_chk_eqv(term_u);
        let term_r = chk(term_u).unwrap();
        let acc_r = odot(r, w, k - 1).unwrap();
        let acc_u = dot_u(r, w, k - 1);
        let mid = add_v(acc_r, term_r);
        assert(mid.den > 0) by (nonlinear_arith)
            requires
                mid.den == acc_r.den * term_r.den,
                acc_r.den > 0,
                term_r.den > 0,
        ;
        lemma_chk_eqv(mid);
        lemma_add_eqv(acc_r, acc_u, term_r, term_u);
        lemma_eqv_trans(odot(r, w, k).unwrap(), mid, dot_u(r, w, k));
        assert(dot_u(r, w, k).den > 0) by (nonlinear_arith)
            requires
                dot_u(r, w, k).den == acc_u.den * term_u.den,
                acc_u.den > 0,
                term_u.den > 0,
        ;
    }
}

/// Exact dot products over entrywise-equivalent well-formed rows are
/// equivalent.
proof fn lemma_dot_u_pairwise(r1: Seq<Ratio>, r2: Seq<Ratio>, w: Seq<Ratio>, k: int)
    requires
        forall|j: int| 0 <= j < k ==> ratio_eqv(#[trigger] r1[j], r2[j]),
        forall|j: int| 0 <= j < k ==> ratio_wf(#[trigger] r1[j]),
        forall|j: int| 0 <= j < k ==> ratio_wf(#[trigger] r2[j]),
        forall|j: int| 0 <= j < k ==> ratio_wf(#[trigger] w[j]),
    ensures
        ratio_wf(dot_u(r1, w, k)),
        ratio_wf(dot_u(r2, w, k)),
        ratio_eqv(dot_u(r1, w, k), dot_u(r2, w, k)),
    decreases k,
{
    if k <= 0 {
    } else {
        lemma_dot_u_pairwise(r1, r2, w, k - 1);
        lemma_mul_eqv(r1[k - 1], r2[k - 1], w[k - 1], w[k - 1]);
        lemma_add_eqv(
            dot_u(r1, w, k - 1),
            dot_u(r2, w, k - 1),
            mul_v(r1[k - 1], w[k - 1]),
            mul_v(r2[k - 1], w[k - 1]),
        );
        assert(dot_u(r1, w, k).den > 0) by (nonlinear_arith)
            requires
                dot_u(r1, w, k).den == dot_u(r1, w, k - 1).den * (r1[k - 1].den * w[k - 1].den),
                dot_u(r1, w, k - 1).den > 0,
                r1[k - 1].den > 0,
                w[k - 1].den > 0,
        ;
        assert(dot_u(r2, w, k).den > 0) by (nonlinear_arith)
            requires
                dot_u(r2, w, k).den == dot_u(r2, w, k - 1).den * (r2[k - 1].den * w[k - 1].den),
                dot_u(r2, w, k - 1).den > 0,
                r2[k - 1].den > 0,
                w[k - 1].den > 0,
        ;
    }
}

/// Law: weights that `fit` reports satisfy the normal equations — for every
/// feature `i`, the `i`-th row of XᵗX dotted with the weights equals the
/// `i`-th entry of Xᵗy, as rational numbers. This is the defining property
/// of the least-squares solution.
pub proof fn lemma_fit_weights_solve(x: Seq<Seq<Ratio>>, y: Seq<Ratio>, p: int, w: Seq<Ratio>)
    requires
        fit_result(x, y, p) == FitOutcome::Weights(w),
        grid_wf(x, x.len() as int, p),
        vals_wf(y),
        y.len() == x.len(),
        vals_wf(w),
        w.len() == p,
    ensures
        normal_eq(x, y, p, w),
{
    let a0 = aug_matrix(x, y, p);
    assert(aug_ok(x, y, p));
    assert(certified(a0, w, p) == Some(true));
    assert forall|i: int| 0 <= i < p implies ratio_eqv(
        dot_u(#[trigger] gram_row_u(x, y, p, i), w, p),
        aug_entry_u(x, y, p, i, p),
    ) by {
        assert(cert_row(a0, w, p, i) == Some(true));
        let d = odot(a0[i], w, p).unwrap();
        assert(aug_row_ok(x, y, p, i));
        assert forall|j: int| 0 <= j <= p implies {
            &&& ratio_wf(#[trigger] aug_row(x, y, p, i)[j])
            &&& ratio_wf(aug_entry_u(x, y, p, i, j))
            &&& ratio_eqv(aug_row(x, y, p, i)[j], aug_entry_u(x, y, p, i, j))
        } by {
            assert(aug_entry(x, y, p, i, j) is Some);
            lemma_aug_sum_eqv(x, y, p, i, j, x.len() as int);
        }
        assert(vals_wf(a0[i]));
        lemma_odot_eqv(a0[i], w, p);
        assert forall|j: int| 0 <= j < p implies ratio_wf(#[trigger] gram_row_u(x, y, p, i)[j]) by {
            assert(ratio_wf(aug_row(x, y, p, i)[j]));
            assert(gram_row_u(x, y, p, i)[j] == aug_entry_u(x, y, p, i, j));
        }
        lemma_dot_u_pairwise(a0[i], gram_row_u(x, y, p, i), w, p);
        let dg = dot_u(gram_row_u(x, y, p, i), w, p);
        lemma_eqv_trans(dg, dot_u(a0[i], w, p), d);
        lemma_eqv_trans(dg, d, a0[i][p]);
        lemma_eqv_trans(dg, a0[i][p], aug_entry_u(x, y, p, i, p));
    }
}

// ------------------------------------------------------------------
// The estimator.
// ------------------------------------------------------------------

/// An ordinary least squares estimator: a weight vector, a bias that the
/// model keeps fixed at zero, and a flag that records whether a fit has
/// succeeded.
pub struct OLS {
    pub weights: Vec<Rat>,
    pub bias: Rat,
    pub is_fitted: bool,
}

impl OLS {
    /// Well-formedness: every stored rational is well formed.
    pub open spec fn wf(self) -> bool {
        vals_wf(self.weight_vals()) && self.bias.wf()
    }

    /// The mathematical values of the stored weights.
    pub open spec fn weight_vals(self) -> Seq<Ratio> {
        row_vals(self.weights@)
    }

    /// A fresh estimator expecting `num_features` features: zero weights,
    /// zero bias, not fitted.
    #[verifier::loop_isolation(false)]
    pub fn new(num_features: usize) -> (r: OLS)
        ensures
            r.wf(),
            !r.is_fitted,
            r.bias@ == zero_ratio(),
            r.weights@.len() == num_features,
            forall|i: int| 0 <= i < num_features ==> r.weight_vals()[i] == zero_ratio(),
    {
        let mut weights: Vec<Rat> = Vec::new();
        let mut i: usize = 0;
        while i < num_features
            invariant
                0 <= i <= num_features,
                weights@.len() == i,
                forall|q: int| 0 <= q < i ==> (#[trigger] weights@[q])@ == zero_ratio(),
            decreases num_features - i,
        {
            weights.push(Rat::zero());
            i += 1;
        }
        OLS { weights, bias: Rat::zero(), is_fitted: false }
    }

    /// Fits the estimator to the design matrix `x` and targets `y` by
    /// solving the normal equations (XᵗX)·w = Xᵗy exactly.
    ///
    /// The call is all-or-nothing: on any error the weights, the bias and
    /// the fitted flag are exactly as they were. A row count disagreeing
    /// with `y` is a `DimensionMismatch`; an exactly singular Gram matrix
    /// is a `SingularMatrix`; a value that no longer fits the 64-bit
    /// fraction representation is a `NumericOverflow`. On success the new
    /// weights are the unique values determined by `fit_result`, and they
    /// satisfy the normal equations.
    pub fn fit(&mut self, x: &Matrix, y: &Vec<Rat>) -> (result: Result<(), OlsError>)
        requires
            old(self).wf(),
            x.wf(),
            vals_wf(row_vals(y@)),
        ensures
            final(self).wf(),
            (x.rows != y@.len()) <==> result == Err::<(), OlsError>(
                OlsError::DimensionMismatch { x_rows: x.rows, y_len: y@.len() as usize },
            ),
            x.rows == y@.len() ==> match result {
                Ok(_) => {
                    &&& fit_result(x@, row_vals(y@), x.cols as int) == FitOutcome::Weights(
                        final(self).weight_vals(),
                    )
                    &&& final(self).is_fitted
                    &&& final(self).bias@ == zero_ratio()
                    &&& final(self).weights@.len() == x.cols
                    &&& normal_eq(x@, row_vals(y@), x.cols as int, final(self).weight_vals())
                },
                Err(e) => {
                    &&& (e == OlsError::SingularMatrix <==> fit_result(
                        x@,
                        row_vals(y@),
                        x.cols as int,
                    ) == FitOutcome::Singular)
                    &&& (e == OlsError::NumericOverflow <==> fit_result(
                        x@,
                        row_vals(y@),
                        x.cols as int,
                    ) == FitOutcome::Overflow)
                    &&& (e is SingularMatrix || e is NumericOverflow)
                },
            },
            result is Err ==> *final(self) == *old(self),
    {
        if x.rows != y.len() {
            return Err(OlsError::DimensionMismatch { x_rows: x.rows, y_len: y.len() });
        }
        let p = x.cols;
        let ghost xv = x@;
        let ghost yv = row_vals(y@);
        let mut a = match build_aug(x, y) {
            Some(a) => a,
            None => {
                return Err(OlsError::NumericOverflow);
            },
        };
        let orig = copy_grid(&a);
        let ghost a0 = grid_vals(a@);
        match eliminate(&mut a, p) {
            Ok(()) => {},
            Err(e) => {
                return Err(e);
            },
        }
        let w = match back_substitute(&a, p) {
            Some(w) => w,
            None => {
                return Err(OlsError::NumericOverflow);
            },
        };
        proof {
            assert(grid_vals(orig@) =~= a0);
        }
        if !certify(&orig, &w, p) {
            return Err(OlsError::NumericOverflow);
        }
        proof {
            assert(fit_result(xv, yv, p as int) == FitOutcome::Weights(row_vals(w@)));
            lemma_fit_weights_solve(xv, yv, p as int, row_vals(w@));
        }
        self.weights = w;
        self.bias = Rat::zero();
        self.is_fitted = true;
        Ok(())
    }

    /// Predicted values X·w, one per input row, in row order. Fails with
    /// `NotFitted` before any successful fit (checked before anything
    /// else), with `FeatureDimensionMismatch` when the column count is not
    /// the stored feature count, and with `NumericOverflow` when a product
    /// leaves the representation.
    #[verifier::loop_isolation(false)]
    pub fn predict(&self, x: &Matrix) -> (result: Result<Vec<Rat>, OlsError>)
        requires
            self.wf(),
            x.wf(),
        ensures
            !self.is_fitted <==> result == Err::<Vec<Rat>, OlsError>(OlsError::NotFitted),
            self.is_fitted && x.cols != self.weights@.len() <==> result == Err::<
                Vec<Rat>,
                OlsError,
            >(
                OlsError::FeatureDimensionMismatch {
                    x_cols: x.cols,
                    expected: self.weights@.len() as usize,
                },
            ),
            self.is_fitted && x.cols == self.weights@.len() ==> match result {
                Ok(v) => {
                    &&& v@.len() == x.rows
                    &&& vals_wf(row_vals(v@))
                    &&& forall|r2: int|
                        0 <= r2 < x.rows ==> #[trigger] odot(
                            x@[r2],
                            self.weight_vals(),
                            x.cols as int,
                        ) == Some(row_vals(v@)[r2])
                    &&& forall|r2: int|
                        0 <= r2 < x.rows ==> ratio_eqv(
                            #[trigger] row_vals(v@)[r2],
                            dot_u(x@[r2], self.weight_vals(), x.cols as int),
                        )
                },
                Err(e) => {
                    &&& e == OlsError::NumericOverflow
                    &&& exists|r2: int|
                        0 <= r2 < x.rows && (#[trigger] odot(
                            x@[r2],
                            self.weight_vals(),
                            x.cols as int,
                        )) is None
                },
            },
    {
        if !self.is_fitted {
            return Err(OlsError::NotFitted);
        }
        if x.cols != self.weights.len() {
            return Err(
                OlsError::FeatureDimensionMismatch { x_cols: x.cols, expected: self.weights.len() },
            );
        }
        let ghost wv = self.weight_vals();
        let mut out: Vec<Rat> = Vec::new();
        let mut r: usize = 0;
        while r < x.rows
            invariant
                0 <= r <= x.rows,
                out@.len() == r,
                forall|r2: int|
                    0 <= r2 < r ==> #[trigger] odot(x@[r2], wv, x.cols as int) == Some(
                        row_vals(out@)[r2],
                    ),
                forall|r2: int| 0 <= r2 < r ==> (#[trigger] out@[r2]).wf(),
            decreases x.rows - r,
        {
            proof {
                assert(x@[r as int] == row_vals(x.data@[r as int]@));
                assert forall|j: int| 0 <= j < row_vals(x.data@[r as int]@).len() implies ratio_wf(
                    #[trigger] row_vals(x.data@[r as int]@)[j],
                ) by {
                    assert(ratio_wf(x@[r as int][j]));
                }
            }
            match dot_prefix(&x.data[r], &self.weights) {
                Some(d) => {
                    out.push(d);
                },
                None => {
                    return Err(OlsError::NumericOverflow);
                },
            }
            r += 1;
        }
        proof {
            assert forall|r2: int| 0 <= r2 < x.rows implies ratio_eqv(
                #[trigger] row_vals(out@)[r2],
                dot_u(x@[r2], wv, x.cols as int),
            ) by {
                assert(x@[r2] == row_vals(x.data@[r2]@));
                assert forall|j: int| 0 <= j < x@[r2].len() implies ratio_wf(
                    #[trigger] x@[r2][j],
                ) by {
                    assert(ratio_wf(grid_vals(x.data@)[r2][j]));
                }
                lemma_odot_eqv(x@[r2], wv, x.cols as int);
            }
        }
        Ok(out)
    }

    /// The current weight vector.
    pub fn get_weights(&self) -> (r: &Vec<Rat>)
        ensures
            r@ == self.weights@,
    {
        &self.weights
    }

    /// The current bias. The model does not estimate an intercept, so this
    /// stays at zero.
    pub fn get_bias(&self) -> (r: Rat)
        ensures
            r == self.bias,
    {
        self.bias
    }

    /// Whether a fit has succeeded on this estimator.
    pub fn is_fitted(&self) -> (r: bool)
        ensures
            r == self.is_fitted,
    {
        self.is_fitted
    }
}

/// Law: fitting is idempotent. The weights a successful `fit` installs are
/// a function of the design matrix and the targets alone — two estimators
/// fitted with the same inputs hold identical weight vectors, whatever
/// their prior states were.
pub proof fn lemma_fit_idempotent(e1: OLS, e2: OLS, x: Matrix, y: Vec<Rat>, p: int)
    requires
        fit_result(x@, row_vals(y@), p) == FitOutcome::Weights(e1.weight_vals()),
        fit_result(x@, row_vals(y@), p) == FitOutcome::Weights(e2.weight_vals()),
    ensures
        e1.weight_vals() == e2.weight_vals(),
        e1.weights@ == e2.weights@,
{
    assert(e1.weight_vals() == e2.weight_vals());
    assert(e1.weights@.len() == e1.weight_vals().len());
    assert forall|i: int| 0 <= i < e1.weights@.len() implies e1.weights@[i] == e2.weights@[i] by {
        assert(e1.weight_vals()[i] == e2.weight_vals()[i]);
        assert(e1.weights@[i]@ == e2.weights@[i]@);
        assert(e1.weights@[i].num as int == e2.weights@[i].num as int);
        assert(e1.weights@[i].den as int == e2.weights@[i].den as int);
    }
    assert(e1.weights@ =~= e2.weights@);
}

} // verus!
