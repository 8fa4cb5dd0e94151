use hillnet::fixed::FX_ONE;
use hillnet::net::{Net, SPARSE_RATE};
use hillnet::Error;

fn fresh(topology: &[usize]) -> Net {
    Net::new(topology).unwrap()
}

#[test]
fn fresh_net_outputs_zero() {
    let net = fresh(&[2, 3, 1]);
    let out = net.calc(&[0, 0]).unwrap();
    assert_eq!(out, vec![0]);

    let net = fresh(&[3, 2, 4]);
    let out = net.calc(&[0, 0, 0]).unwrap();
    assert_eq!(out, vec![0, 0, 0, 0]);

    // a fresh net has all-zero weights, so any input maps to zero as well
    let out = net.calc(&[FX_ONE, -FX_ONE, 7 * FX_ONE]).unwrap();
    assert_eq!(out, vec![0, 0, 0, 0]);
}

#[test]
fn evaluate_rejects_length_mismatch() {
    let net = fresh(&[2, 3, 1]);
    assert_eq!(net.calc(&[FX_ONE]), Err(Error::LengthMismatch));
    assert_eq!(net.calc(&[]), Err(Error::LengthMismatch));
    assert_eq!(net.calc(&[0, 0, 0]), Err(Error::LengthMismatch));

    // even when the first layer has no units, the declared input size rules
    let net = fresh(&[2, 0, 1]);
    assert_eq!(net.calc(&[FX_ONE]), Err(Error::LengthMismatch));
    assert!(net.calc(&[0, 0]).is_ok());
}

#[test]
fn invalid_topology_is_rejected() {
    assert!(matches!(Net::new(&[]), Err(Error::InvalidTopology)));
    assert!(matches!(Net::new(&[5]), Err(Error::InvalidTopology)));
    assert!(Net::new(&[0, 0]).is_ok());
}

#[test]
fn zero_width_input_layer_evaluates() {
    let net = fresh(&[0, 3, 2]);
    let out = net.calc(&[]).unwrap();
    assert_eq!(out.len(), 2);
    assert_eq!(net.calc(&[0]), Err(Error::LengthMismatch));
}

#[test]
fn zero_multiplier_perturb_is_noop() {
    let mut net = fresh(&[2, 3, 1]);
    // give the parameters some nonzero values first
    net.mutate(FX_ONE);
    let input = [FX_ONE, -FX_ONE];
    let before = net.calc(&input).unwrap();
    net.mutate(0);
    assert_eq!(net.calc(&input).unwrap(), before);
    net.mutate_sparsly(0, SPARSE_RATE);
    assert_eq!(net.calc(&input).unwrap(), before);
    net.mutate_sparsly(0, FX_ONE);
    assert_eq!(net.calc(&input).unwrap(), before);
}

#[test]
fn nonzero_perturb_changes_output() {
    let mut net = fresh(&[2, 3, 1]);
    net.mutate(FX_ONE);
    let out = net.calc(&[FX_ONE, FX_ONE]).unwrap();
    assert_ne!(out, vec![0]);
}

#[test]
fn train_once_strictly_improves() {
    let mut net = fresh(&[2, 3, 1]);
    let target = [FX_ONE];
    let input = [FX_ONE, -FX_ONE];
    let error_fun = move |n: &Net| -> i64 {
        hillnet::diff(&n.calc(&input).unwrap(), &target).unwrap()
    };
    let base = error_fun(&net);
    let accepted = net.train_once(FX_ONE, error_fun, 5_000_000).unwrap();
    assert!(accepted < base);
    // the returned error is the error of the updated network
    assert_eq!(error_fun(&net), accepted);
}

#[test]
fn xor_training_errors_strictly_decrease() {
    let t = FX_ONE;
    let f = -FX_ONE;
    let samples: Vec<(Vec<i64>, Vec<i64>)> = vec![
        (vec![f, f], vec![f]),
        (vec![f, t], vec![t]),
        (vec![t, f], vec![t]),
        (vec![t, t], vec![f]),
    ];
    let mut net = fresh(&[2, 3, 1]);
    let error_fun = move |n: &Net| -> i64 {
        let mut error: i64 = 0;
        for (input, expected) in samples.iter() {
            let out = n.calc(input).unwrap();
            error += hillnet::diff(&out, expected).unwrap();
        }
        error
    };
    let mut multiplier = FX_ONE;
    let mut last = error_fun(&net);
    for _ in 0..10 {
        let accepted = net.train_once(multiplier, &error_fun, 5_000_000).unwrap();
        assert!(accepted < last);
        last = accepted;
        // decay the multiplier by 1.05, as the surrounding driver would
        multiplier = multiplier * 20 / 21;
    }
}
