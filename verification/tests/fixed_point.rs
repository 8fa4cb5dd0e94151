use hillnet::fixed::{fx_add, fx_mul, fx_sub, tanh_fx, FX_MAX, FX_MIN, FX_ONE};

#[test]
fn products_rescale() {
    assert_eq!(fx_mul(2 * FX_ONE, 3 * FX_ONE), 6 * FX_ONE);
    assert_eq!(fx_mul(-2 * FX_ONE, 3 * FX_ONE), -6 * FX_ONE);
    assert_eq!(fx_mul(-2 * FX_ONE, -3 * FX_ONE), 6 * FX_ONE);
    assert_eq!(fx_mul(0, i64::MIN), 0);
    assert_eq!(fx_mul(FX_ONE / 2, FX_ONE / 2), FX_ONE / 4);
}

#[test]
fn sums_saturate() {
    assert_eq!(fx_add(1, 2), 3);
    assert_eq!(fx_add(FX_MAX, 1), FX_MAX);
    assert_eq!(fx_sub(FX_MIN, FX_ONE), FX_MIN);
    assert_eq!(fx_sub(5, 7), -2);
}

#[test]
fn activation_is_bounded_and_odd() {
    assert_eq!(tanh_fx(0), 0);
    assert_eq!(tanh_fx(FX_ONE), 50972);
    assert_eq!(tanh_fx(-FX_ONE), -50972);
    // saturates strictly inside one unit, however large the input
    assert_eq!(tanh_fx(3 * FX_ONE), FX_ONE - 1);
    assert_eq!(tanh_fx(i64::MAX), FX_ONE - 1);
    assert_eq!(tanh_fx(i64::MIN), -(FX_ONE - 1));
}
