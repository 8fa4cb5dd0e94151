use hillnet::diff;
use hillnet::fixed::FX_ONE;
use hillnet::Error;

#[test]
fn identical_vectors_have_zero_error() {
    assert_eq!(diff(&[], &[]), Ok(0));
    assert_eq!(diff(&[0], &[0]), Ok(0));
    assert_eq!(diff(&[FX_ONE, -FX_ONE, 12345], &[FX_ONE, -FX_ONE, 12345]), Ok(0));
    assert_eq!(diff(&[i64::MAX, i64::MIN], &[i64::MAX, i64::MIN]), Ok(0));
}

#[test]
fn mismatched_lengths_are_rejected() {
    assert_eq!(diff(&[FX_ONE, 2 * FX_ONE], &[FX_ONE]), Err(Error::LengthMismatch));
    assert_eq!(diff(&[], &[0]), Err(Error::LengthMismatch));
}

#[test]
fn mean_squared_error_exact_values() {
    // one unit of difference on one of two entries: (1^2 + 0^2) / 2
    assert_eq!(diff(&[FX_ONE, 0], &[0, 0]), Ok(FX_ONE / 2));
    // two units of difference on a single entry: 2^2
    assert_eq!(diff(&[FX_ONE], &[-FX_ONE]), Ok(4 * FX_ONE));
    // truncating division: 1 / 3 of a squared unit
    assert_eq!(diff(&[FX_ONE, 0, 0], &[0, 0, 0]), Ok(FX_ONE / 3));
}
