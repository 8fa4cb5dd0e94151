//! Saturating signed fixed-point arithmetic.
//!
//! An `i64` stands for the real number `value / FX_ONE`.  Every operation
//! saturates at `FX_MIN` / `FX_MAX`; the range is kept symmetric so that a
//! value's magnitude always fits in the type and negation never overflows.

use vstd::prelude::*;

verus! {

/// The fixed-point unit: the representation of the real number one.
pub const FX_ONE: i64 = 65536;

/// Largest representable value.
pub const FX_MAX: i64 = 9223372036854775807;

/// Smallest representable value (the negation of `FX_MAX`, so the range is
/// symmetric).
pub const FX_MIN: i64 = -9223372036854775807;

/// Inputs past `tanh` of three units are treated as flat.
pub const TANH_CLAMP: i64 = 3 * 65536;

/// The constant `27` of the tanh approximant, on the squared scale.
pub const TANH_C27: u64 = 27 * 65536 * 65536;

pub open spec fn fx_in_range(x: int) -> bool {
    FX_MIN <= x <= FX_MAX
}

/// Saturate an unbounded integer onto the representable range.
pub open spec fn sat(x: int) -> int {
    if x > FX_MAX {
        FX_MAX as int
    } else if x < FX_MIN {
        FX_MIN as int
    } else {
        x
    }
}

pub open spec fn abs1(x: int) -> int {
    if x >= 0 {
        x
    } else {
        -x
    }
}

/// Saturating sum of two fixed-point values.
pub open spec fn fx_add_spec(a: int, b: int) -> int {
    sat(a + b)
}

/// Saturating difference of two fixed-point values.
pub open spec fn fx_sub_spec(a: int, b: int) -> int {
    sat(a - b)
}

/// Saturating product of two fixed-point values: magnitudes multiply and are
/// rescaled by `FX_ONE` (truncating), then the sign is reapplied.
pub open spec fn fx_mul_spec(a: int, b: int) -> int {
    let m = (abs1(a) * abs1(b)) / (FX_ONE as int);
    let c = if m > FX_MAX {
        FX_MAX as int
    } else {
        m
    };
    if (a < 0) != (b < 0) {
        -c
    } else {
        c
    }
}

pub fn fx_add(a: i64, b: i64) -> (r: i64)
    ensures
        r == fx_add_spec(a as int, b as int),
{
    let s: i128 = (a as i128) + (b as i128);
    if s > FX_MAX as i128 {
        FX_MAX
    } else if s < FX_MIN as i128 {
        FX_MIN
    } else {
        s as i64
    }
}

pub fn fx_sub(a: i64, b: i64) -> (r: i64)
    ensures
        r == fx_sub_spec(a as int, b as int),
{
    let s: i128 = (a as i128) - (b as i128);
    if s > FX_MAX as i128 {
        FX_MAX
    } else if s < FX_MIN as i128 {
        FX_MIN
    } else {
        s as i64
    }
}

pub fn fx_mul(a: i64, b: i64) -> (r: i64)
    ensures
        r == fx_mul_spec(a as int, b as int),
{
    let neg: bool = (a < 0) != (b < 0);
    let am: u64 = if a >= 0 {
        a as u64
    } else {
        (-(a as i128)) as u64
    };
    let bm: u64 = if b >= 0 {
        b as u64
    } else {
        (-(b as i128)) as u64
    };
    assert(am == abs1(a as int));
    assert(bm == abs1(b as int));
    assert((am as int) * (bm as int) <= (u64::MAX as int) * (u64::MAX as int)) by (nonlinear_arith)
        requires
            0 <= am as int <= u64::MAX as int,
            0 <= bm as int <= u64::MAX as int,
    ;
    let p: u128 = (am as u128) * (bm as u128);
    let q: u128 = p / (FX_ONE as u128);
    assert(q <= p) by {
        vstd::arithmetic::div_mod::lemma_div_nonincreasing(p as int, FX_ONE as int);
    }
    let qc: i64 = if q > FX_MAX as u128 {
        FX_MAX
    } else {
        q as i64
    };
    if neg {
        -qc
    } else {
        qc
    }
}

/// Multiplying by zero gives exactly zero, whatever the other factor.
pub proof fn lemma_fx_mul_zero_left(b: int)
    ensures
        fx_mul_spec(0, b) == 0,
{
    assert(abs1(0) * abs1(b) == 0) by (nonlinear_arith);
    vstd::arithmetic::div_mod::lemma_div_of0(FX_ONE as int);
}

/// Adding zero to an in-range value gives the value back.
pub proof fn lemma_fx_add_zero(a: int)
    requires
        fx_in_range(a),
    ensures
        fx_add_spec(a, 0) == a,
{
}

/// A square is never negative.
pub proof fn lemma_fx_mul_self_nonneg(a: int)
    ensures
        0 <= fx_mul_spec(a, a),
{
    assert(0 <= abs1(a) * abs1(a)) by (nonlinear_arith);
    vstd::arithmetic::div_mod::lemma_div_pos_is_pos(abs1(a) * abs1(a), FX_ONE as int);
}

/// Subtracting a value from itself gives exactly zero.
pub proof fn lemma_fx_sub_self(a: int)
    ensures
        fx_sub_spec(a, a) == 0,
{
}

/// Clamp a fixed-point value onto `[-TANH_CLAMP, TANH_CLAMP]`.
pub open spec fn tanh_clamp_spec(x: int) -> int {
    if x > TANH_CLAMP {
        TANH_CLAMP as int
    } else if x < -(TANH_CLAMP as int) {
        -(TANH_CLAMP as int)
    } else {
        x
    }
}

/// The non-negative branch of the activation: the rational approximant
/// `x * (27 + x^2) / (27 + 9 * x^2)` of the hyperbolic tangent, written on
/// the fixed-point scale, with the result held strictly below one unit.
pub open spec fn tanh_pos_spec(ax: int) -> int {
    let ax2 = ax * ax;
    let n = ax * (TANH_C27 + ax2);
    let d = TANH_C27 + 9 * ax2;
    let q = n / d;
    if q >= FX_ONE {
        (FX_ONE - 1) as int
    } else {
        q
    }
}

/// Bounded odd approximation of the hyperbolic tangent on the fixed-point
/// scale: the argument is clamped to three units, the rational approximant
/// is applied to its magnitude, and the sign is reapplied.
pub open spec fn tanh_fx_spec(x: int) -> int {
    let t = tanh_clamp_spec(x);
    if t >= 0 {
        tanh_pos_spec(t)
    } else {
        -tanh_pos_spec(-t)
    }
}

pub proof fn lemma_tanh_pos_bounds(ax: int)
    requires
        0 <= ax,
    ensures
        0 <= tanh_pos_spec(ax) < FX_ONE,
{
    let ax2 = ax * ax;
    let n = ax * (TANH_C27 + ax2);
    let d = TANH_C27 + 9 * ax2;
    assert(0 <= ax * ax) by (nonlinear_arith);
    assert(0 <= ax * (TANH_C27 + ax * ax)) by (nonlinear_arith)
        requires
            0 <= ax,
            0 <= ax * ax,
    ;
    vstd::arithmetic::div_mod::lemma_div_pos_is_pos(n, d);
}

/// The activation of zero is exactly zero.
pub proof fn lemma_tanh_zero()
    ensures
        tanh_fx_spec(0) == 0,
{
    assert(tanh_pos_spec(0) == 0) by {
        vstd::arithmetic::div_mod::lemma_div_of0(TANH_C27 as int);
    }
}

/// The activation is strictly bounded by one unit in magnitude.
pub proof fn lemma_tanh_bounded(x: int)
    ensures
        -FX_ONE < tanh_fx_spec(x) < FX_ONE,
        fx_in_range(tanh_fx_spec(x)),
{
    let t = tanh_clamp_spec(x);
    if t >= 0 {
        lemma_tanh_pos_bounds(t);
    } else {
        lemma_tanh_pos_bounds(-t);
    }
}

pub fn tanh_fx(x: i64) -> (r: i64)
    ensures
        r == tanh_fx_spec(x as int),
        -FX_ONE < r < FX_ONE,
{
    proof {
        lemma_tanh_bounded(x as int);
    }
    let t: i64 = if x > TANH_CLAMP {
        TANH_CLAMP
    } else if x < -TANH_CLAMP {
        -TANH_CLAMP
    } else {
        x
    };
    let neg: bool = t < 0;
    let ax: u64 = if t >= 0 {
        t as u64
    } else {
        (-t) as u64
    };
    assert(ax == abs1(t as int));
    assert(ax <= TANH_CLAMP);
    let ax2: u64 = {
        assert(ax * ax <= (TANH_CLAMP as int) * (TANH_CLAMP as int)) by (nonlinear_arith)
            requires
                0 <= ax as int <= TANH_CLAMP as int,
        ;
        ax * ax
    };
    let n: u64 = {
        assert(ax * (TANH_C27 + ax2) <= (TANH_CLAMP as int) * (TANH_C27 + (TANH_CLAMP as int)
            * (TANH_CLAMP as int))) by (nonlinear_arith)
            requires
                0 <= ax as int <= TANH_CLAMP as int,
                0 <= ax2 as int <= (TANH_CLAMP as int) * (TANH_CLAMP as int),
        ;
        ax * (TANH_C27 + ax2)
    };
    let d: u64 = TANH_C27 + 9 * ax2;
    let q: u64 = n / d;
    proof {
        vstd::arithmetic::div_mod::lemma_div_nonincreasing(n as int, d as int);
        vstd::arithmetic::div_mod::lemma_div_pos_is_pos(n as int, d as int);
    }
    let qc: i64 = if q >= (FX_ONE as u64) {
        FX_ONE - 1
    } else {
        q as i64
    };
    proof {
        let ti = tanh_clamp_spec(x as int);
        assert(t as int == ti);
        assert(ax as int == abs1(ti));
        assert(n as int == abs1(ti) * (TANH_C27 + abs1(ti) * abs1(ti)));
        assert(d as int == TANH_C27 + 9 * (abs1(ti) * abs1(ti)));
        assert(qc as int == tanh_pos_spec(abs1(ti)));
    }
    if neg {
        -qc
    } else {
        qc
    }
}

} // verus!
