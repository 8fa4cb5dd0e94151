//! The error metric helper: mean squared error between two vectors.

use vstd::prelude::*;
use crate::fixed::{
    fx_add, fx_mul, fx_sub, fx_add_spec, fx_mul_spec, fx_sub_spec, lemma_fx_mul_self_nonneg,
    lemma_fx_sub_self, lemma_fx_mul_zero_left, FX_MAX,
};
use crate::Error;

verus! {

/// The saturating sum of the squared differences of the first `n` entries,
/// in entry order.
pub open spec fn sq_err_acc(p: Seq<i64>, a: Seq<i64>, n: int) -> int
    decreases n,
{
    if n <= 0 {
        0
    } else {
        fx_add_spec(
            sq_err_acc(p, a, n - 1),
            fx_mul_spec(
                fx_sub_spec(p[n - 1] as int, a[n - 1] as int),
                fx_sub_spec(p[n - 1] as int, a[n - 1] as int),
            ),
        )
    }
}

/// Mean squared error of two equal-length vectors: the sum of squared
/// differences divided by the length.  Two empty vectors have error zero.
pub open spec fn mse_spec(p: Seq<i64>, a: Seq<i64>) -> int {
    if p.len() == 0 {
        0
    } else {
        sq_err_acc(p, a, p.len() as int) / p.len() as int
    }
}

/// The sum of squares never leaves `[0, FX_MAX]`.
proof fn lemma_sq_err_acc_nonneg(p: Seq<i64>, a: Seq<i64>, n: int)
    ensures
        0 <= sq_err_acc(p, a, n) <= FX_MAX,
    decreases n,
{
    if n > 0 {
        lemma_sq_err_acc_nonneg(p, a, n - 1);
        lemma_fx_mul_self_nonneg(fx_sub_spec(p[n - 1] as int, a[n - 1] as int));
    }
}

/// Mean squared error of two equal-length vectors.  Vectors of different
/// lengths are rejected; nothing else is.
pub fn diff(predicted: &[i64], actual: &[i64]) -> (r: Result<i64, Error>)
    ensures
        predicted@.len() == actual@.len() ==> r is Ok && r->Ok_0 == mse_spec(predicted@, actual@),
        predicted@.len() != actual@.len() ==> (r is Err && r->Err_0 == Error::LengthMismatch),
{
    if predicted.len() != actual.len() {
        return Err(Error::LengthMismatch);
    }
    let n = actual.len();
    if n == 0 {
        return Ok(0);
    }
    let mut sum: i64 = 0;
    let mut i: usize = 0;
    while i < n
        invariant
            i <= n,
            n == predicted@.len(),
            n == actual@.len(),
            sum as int == sq_err_acc(predicted@, actual@, i as int),
            0 <= sum,
        decreases n - i,
    {
        let d = fx_sub(predicted[i], actual[i]);
        sum = fx_add(sum, fx_mul(d, d));
        proof {
            lemma_sq_err_acc_nonneg(predicted@, actual@, i as int + 1);
        }
        i += 1;
    }
    let q: u64 = (sum as u64) / (n as u64);
    proof {
        vstd::arithmetic::div_mod::lemma_div_nonincreasing(sum as int, n as int);
        vstd::arithmetic::div_mod::lemma_div_pos_is_pos(sum as int, n as int);
    }
    Ok(q as i64)
}

/// Identical vectors have mean squared error exactly zero: every squared
/// difference collapses to zero.
pub proof fn lemma_mse_identical(v: Seq<i64>)
    ensures
        mse_spec(v, v) == 0,
{
    lemma_sq_err_self(v, v.len() as int);
    if v.len() > 0 {
        vstd::arithmetic::div_mod::lemma_div_of0(v.len() as int);
    }
}

proof fn lemma_sq_err_self(v: Seq<i64>, n: int)
    ensures
        sq_err_acc(v, v, n) == 0,
    decreases n,
{
    if n > 0 {
        lemma_sq_err_self(v, n - 1);
        lemma_fx_sub_self(v[n - 1] as int);
        lemma_fx_mul_zero_left(0);
    }
}

} // verus!
