//! Library-wide laws, stated and proved once over the model.

use vstd::prelude::*;
use crate::fixed::{fx_mul_spec, lemma_fx_mul_zero_left, lemma_tanh_zero};
use crate::net::{
    NetV, NeuronV, net_eval, layer_eval, unit_eval, dot_acc, all_zero, unit_zero,
    lemma_net_eval_len,
};

verus! {

proof fn lemma_zero_dot(u: NeuronV, x: Seq<i64>, n: int)
    requires
        unit_zero(u),
        n <= u.weights.len(),
    ensures
        dot_acc(u.weights, x, u.bias, n) == 0,
    decreases n,
{
    if n > 0 {
        lemma_zero_dot(u, x, n - 1);
        lemma_fx_mul_zero_left(x[n - 1] as int);
        assert(fx_mul_spec(u.weights[n - 1] as int, x[n - 1] as int) == 0);
    }
}

proof fn lemma_zero_unit(u: NeuronV, x: Seq<i64>)
    requires
        unit_zero(u),
    ensures
        unit_eval(u, x) == 0i64,
{
    lemma_zero_dot(u, x, u.weights.len() as int);
    lemma_tanh_zero();
}

proof fn lemma_zero_layers(layers: Seq<Seq<NeuronV>>, x: Seq<i64>)
    requires
        forall|k: int, j: int|
            0 <= k < layers.len() && 0 <= j < layers[k].len() ==> unit_zero(
                #[trigger] layers[k][j],
            ),
    ensures
        layers.len() >= 1 ==> forall|i: int|
            0 <= i < net_eval(layers, x).len() ==> net_eval(layers, x)[i] == 0i64,
    decreases layers.len(),
{
    if layers.len() >= 1 {
        let y = layer_eval(layers[0], x);
        assert forall|i: int| 0 <= i < y.len() implies y[i] == 0i64 by {
            lemma_zero_unit(layers[0][i], x);
        }
        let rest = layers.drop_first();
        assert(net_eval(layers, x) == net_eval(rest, y));
        assert forall|k: int, j: int|
            0 <= k < rest.len() && 0 <= j < rest[k].len() implies unit_zero(
            #[trigger] rest[k][j],
        ) by {
            assert(rest[k] == layers[k + 1]);
        }
        lemma_zero_layers(rest, y);
        if rest.len() == 0 {
            assert(net_eval(rest, y) == y);
        }
    }
}

/// A fresh network — one whose parameters are all zero — returns zero on
/// every output, whatever the input: each unit's weighted sum collapses to
/// its zero bias, and the activation of zero is zero.  The output has one
/// entry per unit of the last layer.
pub proof fn lemma_fresh_net_outputs_zero(v: NetV, x: Seq<i64>)
    requires
        v.layers.len() >= 1,
        all_zero(v),
    ensures
        net_eval(v.layers, x).len() == v.layers.last().len(),
        forall|i: int| 0 <= i < net_eval(v.layers, x).len() ==> net_eval(v.layers, x)[i] == 0i64,
{
    lemma_net_eval_len(v.layers, x);
    lemma_zero_layers(v.layers, x);
}

} // verus!
