//! The network: units, layers, the forward pass and the mutation-based
//! trainer.

use vstd::prelude::*;
use crate::fixed::{
    FX_ONE, fx_add, fx_mul, tanh_fx, fx_in_range, fx_add_spec, fx_mul_spec, tanh_fx_spec,
    lemma_fx_add_zero, lemma_fx_mul_zero_left,
};
use crate::rng::{draw_step, draw_coin};
use crate::Error;

verus! {

/// Mathematical model of a unit: its weights and its bias.
#[verifier::ext_equal]
pub struct NeuronV {
    pub weights: Seq<i64>,
    pub bias: i64,
}

/// Model of a whole network: the external input size and, per layer, the
/// model of each unit.
#[verifier::ext_equal]
pub struct NetV {
    pub in_size: int,
    pub layers: Seq<Seq<NeuronV>>,
}

/// Every parameter of the unit is on the representable range.
pub open spec fn unit_ranges(u: NeuronV) -> bool {
    &&& fx_in_range(u.bias as int)
    &&& forall|i: int| 0 <= i < u.weights.len() ==> fx_in_range(#[trigger] u.weights[i] as int)
}

/// The unit expects `in_size` inputs and its parameters are representable.
pub open spec fn unit_wf(u: NeuronV, in_size: int) -> bool {
    &&& u.weights.len() == in_size
    &&& unit_ranges(u)
}

/// Every unit of the layer expects the same `in_size` inputs.
pub open spec fn layer_wf(l: Seq<NeuronV>, in_size: int) -> bool {
    forall|j: int| 0 <= j < l.len() ==> unit_wf(#[trigger] l[j], in_size)
}

/// The first layer consumes the external input; each later layer consumes
/// exactly what the layer before it produces.
pub open spec fn net_wf(v: NetV) -> bool {
    &&& 0 <= v.in_size
    &&& v.layers.len() >= 1
    &&& layer_wf(v.layers[0], v.in_size)
    &&& forall|k: int|
        1 <= k < v.layers.len() ==> layer_wf(
            #[trigger] v.layers[k],
            v.layers[k - 1].len() as int,
        )
}

/// The unit's weighted sum over the first `n` inputs, starting from the
/// bias, in input order, with saturating fixed-point arithmetic.
pub open spec fn dot_acc(w: Seq<i64>, x: Seq<i64>, bias: i64, n: int) -> int
    decreases n,
{
    if n <= 0 {
        bias as int
    } else {
        fx_add_spec(dot_acc(w, x, bias, n - 1), fx_mul_spec(w[n - 1] as int, x[n - 1] as int))
    }
}

/// What a unit returns on an input: its full weighted sum, squashed
/// through the bounded activation.
pub open spec fn unit_eval(u: NeuronV, x: Seq<i64>) -> i64 {
    tanh_fx_spec(dot_acc(u.weights, x, u.bias, u.weights.len() as int)) as i64
}

/// What a layer returns: one output per unit, in unit order, all from the
/// same input.
pub open spec fn layer_eval(l: Seq<NeuronV>, x: Seq<i64>) -> Seq<i64> {
    Seq::new(l.len(), |j: int| unit_eval(l[j], x))
}

/// What a chain of layers returns: each layer consumes what the previous
/// one produced; no layers at all return the input unchanged.
pub open spec fn net_eval(layers: Seq<Seq<NeuronV>>, x: Seq<i64>) -> Seq<i64>
    decreases layers.len(),
{
    if layers.len() == 0 {
        x
    } else {
        net_eval(layers.drop_first(), layer_eval(layers[0], x))
    }
}

/// One parameter after one perturbation: the old value plus the multiplier
/// times some step drawn from `[-1, 1)` on the fixed-point scale.
pub open spec fn param_step(p: i64, m: i64, q: i64) -> bool {
    exists|d: i64|
        -FX_ONE <= d < FX_ONE && q == fx_add_spec(
            p as int,
            #[trigger] fx_mul_spec(m as int, d as int),
        )
}

/// A whole unit after one perturbation: every weight and the bias took one
/// independent step with the same multiplier.
pub open spec fn unit_step(u0: NeuronV, m: i64, u1: NeuronV) -> bool {
    &&& u1.weights.len() == u0.weights.len()
    &&& forall|i: int|
        0 <= i < u0.weights.len() ==> param_step(u0.weights[i], m, #[trigger] u1.weights[i])
    &&& param_step(u0.bias, m, u1.bias)
}

/// A layer after a uniform perturbation: every unit took a step.
pub open spec fn layer_step(l0: Seq<NeuronV>, m: i64, l1: Seq<NeuronV>) -> bool {
    &&& l1.len() == l0.len()
    &&& forall|j: int| 0 <= j < l0.len() ==> unit_step(l0[j], m, #[trigger] l1[j])
}

/// A layer after a sparse perturbation: each unit either took a step or
/// was left untouched.
pub open spec fn layer_sparse_step(l0: Seq<NeuronV>, m: i64, l1: Seq<NeuronV>) -> bool {
    &&& l1.len() == l0.len()
    &&& forall|j: int|
        0 <= j < l0.len() ==> (unit_step(l0[j], m, #[trigger] l1[j]) || l1[j] == l0[j])
}

/// A network after a uniform perturbation.
pub open spec fn net_step(v0: NetV, m: i64, v1: NetV) -> bool {
    &&& v1.in_size == v0.in_size
    &&& v1.layers.len() == v0.layers.len()
    &&& forall|k: int| 0 <= k < v0.layers.len() ==> layer_step(v0.layers[k], m, #[trigger] v1.layers[k])
}

/// A network after a sparse perturbation.
pub open spec fn net_sparse_step(v0: NetV, m: i64, v1: NetV) -> bool {
    &&& v1.in_size == v0.in_size
    &&& v1.layers.len() == v0.layers.len()
    &&& forall|k: int|
        0 <= k < v0.layers.len() ==> layer_sparse_step(v0.layers[k], m, #[trigger] v1.layers[k])
}

/// Every parameter of the unit is exactly zero.
pub open spec fn unit_zero(u: NeuronV) -> bool {
    &&& u.bias == 0
    &&& forall|i: int| 0 <= i < u.weights.len() ==> #[trigger] u.weights[i] == 0
}

/// Every parameter of the network is exactly zero.
pub open spec fn all_zero(v: NetV) -> bool {
    forall|k: int, j: int|
        0 <= k < v.layers.len() && 0 <= j < v.layers[k].len() ==> unit_zero(
            #[trigger] v.layers[k][j],
        )
}

/// A single computational node: a weighted sum of its inputs plus a bias,
/// squashed through the bounded activation.
struct Neuron {
    weights: Vec<i64>,
    bias: i64,
}

impl View for Neuron {
    type V = NeuronV;

    closed spec fn view(&self) -> NeuronV {
        NeuronV { weights: self.weights@, bias: self.bias }
    }
}

fn zero_vec(n: usize) -> (v: Vec<i64>)
    ensures
        v@.len() == n,
        forall|i: int| 0 <= i < n ==> #[trigger] v@[i] == 0i64,
{
    let mut v: Vec<i64> = Vec::new();
    let mut i: usize = 0;
    while i < n
        invariant
            i <= n,
            v@.len() == i,
            forall|k: int| 0 <= k < i ==> #[trigger] v@[k] == 0i64,
        decreases n - i,
    {
        v.push(0);
        i += 1;
    }
    v
}

impl Neuron {
    /// A fresh unit: the given number of inputs, every parameter zero.
    fn new(inputs: usize) -> (r: Neuron)
        ensures
            unit_wf(r@, inputs as int),
            unit_zero(r@),
    {
        Neuron { weights: zero_vec(inputs), bias: 0 }
    }

    /// The weighted sum of the input plus the bias, squashed through the
    /// bounded activation.
    fn calc(&self, input: &Vec<i64>) -> (r: i64)
        requires
            self@.weights.len() == input@.len(),
        ensures
            r == unit_eval(self@, input@),
    {
        let mut sum: i64 = self.bias;
        let n = self.weights.len();
        let mut i: usize = 0;
        while i < n
            invariant
                i <= n,
                n == self@.weights.len(),
                input@.len() == n,
                sum as int == dot_acc(self@.weights, input@, self@.bias, i as int),
            decreases n - i,
        {
            sum = fx_add(sum, fx_mul(self.weights[i], input[i]));
            i += 1;
        }
        tanh_fx(sum)
    }

    /// A copy of this unit with every weight and the bias perturbed: each
    /// parameter gains the multiplier times an independent step drawn from
    /// `[-1, 1)`.  A zero multiplier reproduces the unit exactly.
    fn mutated(&self, multiplier: i64) -> (r: Neuron)
        requires
            unit_ranges(self@),
        ensures
            unit_step(self@, multiplier, r@),
            unit_ranges(r@),
            multiplier == 0 ==> r@ == self@,
    {
        let n = self.weights.len();
        let mut w: Vec<i64> = Vec::new();
        let mut i: usize = 0;
        while i < n
            invariant
                i <= n,
                n == self@.weights.len(),
                unit_ranges(self@),
                w@.len() == i,
                forall|k: int|
                    0 <= k < i ==> param_step(self@.weights[k], multiplier, #[trigger] w@[k]),
                forall|k: int| 0 <= k < i ==> fx_in_range(#[trigger] w@[k] as int),
                multiplier == 0 ==> forall|k: int| 0 <= k < i ==> #[trigger] w@[k] == self@.weights[k],
            decreases n - i,
        {
            let d = draw_step();
            let nw = fx_add(self.weights[i], fx_mul(multiplier, d));
            proof {
                if multiplier == 0 {
                    lemma_fx_mul_zero_left(d as int);
                    lemma_fx_add_zero(self@.weights[i as int] as int);
                }
                assert(-FX_ONE <= d < FX_ONE && nw == fx_add_spec(
                    self@.weights[i as int] as int,
                    fx_mul_spec(multiplier as int, d as int),
                ));
            }
            w.push(nw);
            i += 1;
        }
        let d = draw_step();
        let nb = fx_add(self.bias, fx_mul(multiplier, d));
        proof {
            if multiplier == 0 {
                lemma_fx_mul_zero_left(d as int);
                lemma_fx_add_zero(self@.bias as int);
            }
            assert(-FX_ONE <= d < FX_ONE && nb == fx_add_spec(
                self@.bias as int,
                fx_mul_spec(multiplier as int, d as int),
            ));
        }
        let r = Neuron { weights: w, bias: nb };
        proof {
            if multiplier == 0 {
                assert(r@.weights =~= self@.weights);
                assert(r@ =~= self@);
            }
        }
        r
    }
}

impl Clone for Neuron {
    /// An exact deep copy.
    fn clone(&self) -> (r: Self)
        ensures
            r@ == self@,
    {
        let w = self.weights.clone();
        proof {
            assert(w@ =~= self@.weights);
        }
        Neuron { weights: w, bias: self.bias }
    }
}

/// An ordered collection of units, all reading the same input vector.
struct Layer {
    neurons: Vec<Neuron>,
}

impl View for Layer {
    type V = Seq<NeuronV>;

    closed spec fn view(&self) -> Seq<NeuronV> {
        self.neurons@.map_values(|n: Neuron| n@)
    }
}

impl Layer {
    /// A fresh layer: `count` zero units, each expecting `inputs` inputs.
    fn new(inputs: usize, count: usize) -> (r: Layer)
        ensures
            r@.len() == count,
            layer_wf(r@, inputs as int),
            forall|j: int| 0 <= j < count ==> unit_zero(#[trigger] r@[j]),
    {
        let mut neurons: Vec<Neuron> = Vec::new();
        let mut j: usize = 0;
        while j < count
            invariant
                j <= count,
                neurons@.len() == j,
                forall|k: int|
                    0 <= k < j ==> unit_wf(#[trigger] neurons@[k]@, inputs as int) && unit_zero(
                        neurons@[k]@,
                    ),
            decreases count - j,
        {
            neurons.push(Neuron::new(inputs));
            j += 1;
        }
        Layer { neurons }
    }

    /// One output per unit, in unit order, all computed from the same
    /// input.
    fn calc(&self, input: &Vec<i64>) -> (r: Vec<i64>)
        requires
            forall|j: int| 0 <= j < self@.len() ==> (#[trigger] self@[j]).weights.len()
                == input@.len(),
        ensures
            r@ == layer_eval(self@, input@),
    {
        let count = self.neurons.len();
        let mut r: Vec<i64> = Vec::new();
        let mut j: usize = 0;
        while j < count
            invariant
                j <= count,
                count == self@.len(),
                forall|k: int| 0 <= k < count ==> (#[trigger] self@[k]).weights.len()
                    == input@.len(),
                r@.len() == j,
                forall|k: int| 0 <= k < j ==> #[trigger] r@[k] == unit_eval(self@[k], input@),
            decreases count - j,
        {
            assert(self.neurons@[j as int]@ == self@[j as int]);
            r.push(self.neurons[j].calc(input));
            j += 1;
        }
        proof {
            assert(r@ =~= layer_eval(self@, input@));
        }
        r
    }

    /// A copy of this layer with every unit perturbed.
    fn mutated(&self, multiplier: i64) -> (r: Layer)
        requires
            forall|j: int| 0 <= j < self@.len() ==> unit_ranges(#[trigger] self@[j]),
        ensures
            layer_step(self@, multiplier, r@),
            forall|j: int| 0 <= j < r@.len() ==> unit_ranges(#[trigger] r@[j]),
            multiplier == 0 ==> r@ == self@,
    {
        let count = self.neurons.len();
        let mut neurons: Vec<Neuron> = Vec::new();
        let mut j: usize = 0;
        while j < count
            invariant
                j <= count,
                count == self@.len(),
                forall|k: int| 0 <= k < count ==> unit_ranges(#[trigger] self@[k]),
                neurons@.len() == j,
                forall|k: int|
                    0 <= k < j ==> unit_step(self@[k], multiplier, #[trigger] neurons@[k]@)
                        && unit_ranges(neurons@[k]@),
                multiplier == 0 ==> forall|k: int| 0 <= k < j ==> #[trigger] neurons@[k]@
                    == self@[k],
            decreases count - j,
        {
            assert(self.neurons@[j as int]@ == self@[j as int]);
            neurons.push(self.neurons[j].mutated(multiplier));
            j += 1;
        }
        let r = Layer { neurons };
        proof {
            if multiplier == 0 {
                assert(r@ =~= self@);
            }
        }
        r
    }

    /// A copy of this layer with a random subset of its units perturbed:
    /// each unit independently draws a coin from `[0, 1)` and is perturbed
    /// exactly when the coin is at most `percent`.
    fn mutated_sparse(&self, multiplier: i64, percent: i64) -> (r: Layer)
        requires
            forall|j: int| 0 <= j < self@.len() ==> unit_ranges(#[trigger] self@[j]),
        ensures
            layer_sparse_step(self@, multiplier, r@),
            forall|j: int| 0 <= j < r@.len() ==> unit_ranges(#[trigger] r@[j]),
            multiplier == 0 ==> r@ == self@,
    {
        let count = self.neurons.len();
        let mut neurons: Vec<Neuron> = Vec::new();
        let mut j: usize = 0;
        while j < count
            invariant
                j <= count,
                count == self@.len(),
                forall|k: int| 0 <= k < count ==> unit_ranges(#[trigger] self@[k]),
                neurons@.len() == j,
                forall|k: int|
                    0 <= k < j ==> (unit_step(self@[k], multiplier, #[trigger] neurons@[k]@)
                        || neurons@[k]@ == self@[k]) && unit_ranges(neurons@[k]@),
                multiplier == 0 ==> forall|k: int| 0 <= k < j ==> #[trigger] neurons@[k]@
                    == self@[k],
            decreases count - j,
        {
            assert(self.neurons@[j as int]@ == self@[j as int]);
            let coin = draw_coin();
            if coin <= percent {
                neurons.push(self.neurons[j].mutated(multiplier));
            } else {
                neurons.push(self.neurons[j].clone());
            }
            j += 1;
        }
        let r = Layer { neurons };
        proof {
            if multiplier == 0 {
                assert(r@ =~= self@);
            }
        }
        r
    }
}

impl Clone for Layer {
    /// An exact deep copy.
    fn clone(&self) -> (r: Self)
        ensures
            r@ == self@,
    {
        let count = self.neurons.len();
        let mut neurons: Vec<Neuron> = Vec::new();
        let mut j: usize = 0;
        while j < count
            invariant
                j <= count,
                count == self@.len(),
                neurons@.len() == j,
                forall|k: int| 0 <= k < j ==> #[trigger] neurons@[k]@ == self@[k],
            decreases count - j,
        {
            neurons.push(self.neurons[j].clone());
            j += 1;
        }
        let r = Layer { neurons };
        proof {
            assert(r@ =~= self@);
        }
        r
    }
}

/// The sparsity used by the trainer: a quarter of the unit scale, so that
/// each unit is perturbed with probability about one quarter per attempt.
pub const SPARSE_RATE: i64 = 16384;

/// An output vector has one entry per unit of the last layer.
pub proof fn lemma_net_eval_len(layers: Seq<Seq<NeuronV>>, x: Seq<i64>)
    requires
        layers.len() >= 1,
    ensures
        net_eval(layers, x).len() == layers.last().len(),
    decreases layers.len(),
{
    if layers.len() == 1 {
        assert(layers.drop_first().len() == 0);
        assert(net_eval(layers.drop_first(), layer_eval(layers[0], x)) == layer_eval(
            layers[0],
            x,
        ));
        assert(layers.last() == layers[0]);
    } else {
        lemma_net_eval_len(layers.drop_first(), layer_eval(layers[0], x));
        assert(layers.drop_first().last() == layers.last());
    }
}

/// An ordered chain of layers, each consuming what the previous one
/// produced, the first consuming the external input.
pub struct Net {
    layers: Vec<Layer>,
    in_size: usize,
}

impl View for Net {
    type V = NetV;

    closed spec fn view(&self) -> NetV {
        NetV { in_size: self.in_size as int, layers: self.layers@.map_values(|l: Layer| l@) }
    }
}

impl Net {
    /// The network's structural invariant: adjacent layer sizes agree and
    /// every parameter is representable.
    pub open spec fn wf(&self) -> bool {
        net_wf(self@)
    }

    /// A fresh network for the given topology: `config[0]` is the external
    /// input size, `config[k]` for `k >= 1` the size of layer `k - 1`.
    /// Every parameter starts at zero.  A topology with fewer than two
    /// entries is rejected.
    pub fn new(config: &[usize]) -> (r: Result<Net, Error>)
        ensures
            config@.len() < 2 ==> (r is Err && r->Err_0 == Error::InvalidTopology),
            config@.len() >= 2 ==> r is Ok,
            config@.len() >= 2 ==> net_wf(r->Ok_0@) && all_zero(r->Ok_0@),
            config@.len() >= 2 ==> r->Ok_0@.in_size == config@[0],
            config@.len() >= 2 ==> r->Ok_0@.layers.len() == config@.len() - 1,
            config@.len() >= 2 ==> forall|k: int|
                0 <= k < config@.len() - 1 ==> #[trigger] r->Ok_0@.layers[k].len() == config@[k
                    + 1],
    {
        if config.len() < 2 {
            return Err(Error::InvalidTopology);
        }
        let nl = config.len();
        let mut layers: Vec<Layer> = Vec::new();
        let mut k: usize = 1;
        while k < nl
            invariant
                1 <= k <= nl,
                nl == config@.len(),
                layers@.len() == k - 1,
                forall|j: int|
                    0 <= j < k - 1 ==> (#[trigger] layers@[j]@).len() == config@[j + 1]
                        && layer_wf(layers@[j]@, config@[j] as int) && (forall|u: int|
                        0 <= u < layers@[j]@.len() ==> unit_zero(#[trigger] layers@[j]@[u])),
            decreases nl - k,
        {
            layers.push(Layer::new(config[k - 1], config[k]));
            k += 1;
        }
        let net = Net { layers, in_size: config[0] };
        proof {
            assert(forall|j: int| 0 <= j < net@.layers.len() ==> #[trigger] net@.layers[j]
                == net.layers@[j]@);
        }
        Ok(net)
    }

    /// The forward pass: the input runs through the layers in order and the
    /// last layer's output comes back.  An input whose length is not the
    /// declared input size is rejected, and nothing else is.
    pub fn calc(&self, input: &[i64]) -> (r: Result<Vec<i64>, Error>)
        requires
            self.wf(),
        ensures
            input@.len() == self@.in_size ==> r is Ok && r->Ok_0@ == net_eval(
                self@.layers,
                input@,
            ),
            input@.len() == self@.in_size ==> r->Ok_0@.len() == self@.layers.last().len(),
            input@.len() != self@.in_size ==> (r is Err && r->Err_0 == Error::LengthMismatch),
    {
        if input.len() != self.in_size {
            return Err(Error::LengthMismatch);
        }
        let mut cur: Vec<i64> = Vec::new();
        let mut i: usize = 0;
        while i < input.len()
            invariant
                i <= input@.len(),
                cur@.len() == i,
                forall|t: int| 0 <= t < i ==> #[trigger] cur@[t] == input@[t],
            decreases input@.len() - i,
        {
            cur.push(input[i]);
            i += 1;
        }
        proof {
            assert(cur@ =~= input@);
        }
        let ghost x0 = input@;
        proof {
            assert(self@.layers.skip(0) =~= self@.layers);
        }
        let nl = self.layers.len();
        let mut k: usize = 0;
        while k < nl
            invariant
                self.wf(),
                k <= nl,
                nl == self@.layers.len(),
                cur@.len() == (if k == 0 {
                    self@.in_size
                } else {
                    self@.layers[k - 1].len() as int
                }),
                net_eval(self@.layers.skip(k as int), cur@) == net_eval(self@.layers, x0),
            decreases nl - k,
        {
            proof {
                assert(self.layers@[k as int]@ == self@.layers[k as int]);
                assert(self@.layers.skip(k as int).drop_first() =~= self@.layers.skip(
                    k as int + 1,
                ));
                assert(self@.layers.skip(k as int)[0] == self@.layers[k as int]);
            }
            let next = self.layers[k].calc(&cur);
            cur = next;
            k += 1;
        }
        proof {
            assert(self@.layers.skip(nl as int).len() == 0);
            lemma_net_eval_len(self@.layers, x0);
        }
        Ok(cur)
    }

    /// Perturb every unit of every layer: each parameter gains the
    /// multiplier times an independent random step from `[-1, 1)`.  A zero
    /// multiplier leaves the network exactly as it was.
    pub fn mutate(&mut self, multiplier: i64)
        requires
            old(self).wf(),
        ensures
            final(self).wf(),
            net_step(old(self)@, multiplier, final(self)@),
            multiplier == 0 ==> final(self)@ == old(self)@,
    {
        let nl = self.layers.len();
        let mut out: Vec<Layer> = Vec::new();
        let mut k: usize = 0;
        while k < nl
            invariant
                *self == *old(self),
                self.wf(),
                k <= nl,
                nl == self@.layers.len(),
                out@.len() == k,
                forall|j: int|
                    0 <= j < k ==> layer_step(self@.layers[j], multiplier, #[trigger] out@[j]@)
                        && (forall|u: int|
                        0 <= u < out@[j]@.len() ==> unit_ranges(#[trigger] out@[j]@[u])),
                multiplier == 0 ==> forall|j: int| 0 <= j < k ==> #[trigger] out@[j]@
                    == self@.layers[j],
            decreases nl - k,
        {
            proof {
                assert(self.layers@[k as int]@ == self@.layers[k as int]);
                if k == 0 {
                    assert(layer_wf(self@.layers[0], self@.in_size));
                } else {
                    assert(layer_wf(self@.layers[k as int], self@.layers[k as int - 1].len() as int));
                }
            }
            out.push(self.layers[k].mutated(multiplier));
            k += 1;
        }
        let ghost pre = self@;
        self.layers = out;
        proof {
            assert(forall|j: int| 0 <= j < self@.layers.len() ==> #[trigger] self@.layers[j]
                == out@[j]@);
            assert(net_step(pre, multiplier, self@));
            lemma_step_preserves_wf(pre, multiplier, self@);
            if multiplier == 0 {
                assert(self@.layers =~= pre.layers);
                assert(self@ =~= pre);
            }
        }
    }

    /// Perturb a random subset of the units: each unit independently draws
    /// a coin from `[0, 1)` and is perturbed exactly when the coin is at
    /// most `percent` (so `percent` is a probability on the fixed-point
    /// scale; values outside `[0, 1]` simply mean never or always).  A zero
    /// multiplier leaves the network exactly as it was.
    pub fn mutate_sparsly(&mut self, multiplier: i64, percent: i64)
        requires
            old(self).wf(),
        ensures
            final(self).wf(),
            net_sparse_step(old(self)@, multiplier, final(self)@),
            multiplier == 0 ==> final(self)@ == old(self)@,
    {
        let nl = self.layers.len();
        let mut out: Vec<Layer> = Vec::new();
        let mut k: usize = 0;
        while k < nl
            invariant
                *self == *old(self),
                self.wf(),
                k <= nl,
                nl == self@.layers.len(),
                out@.len() == k,
                forall|j: int|
                    0 <= j < k ==> layer_sparse_step(
                        self@.layers[j],
                        multiplier,
                        #[trigger] out@[j]@,
                    ) && (forall|u: int|
                        0 <= u < out@[j]@.len() ==> unit_ranges(#[trigger] out@[j]@[u])),
                multiplier == 0 ==> forall|j: int| 0 <= j < k ==> #[trigger] out@[j]@
                    == self@.layers[j],
            decreases nl - k,
        {
            proof {
                assert(self.layers@[k as int]@ == self@.layers[k as int]);
                if k == 0 {
                    assert(layer_wf(self@.layers[0], self@.in_size));
                } else {
                    assert(layer_wf(self@.layers[k as int], self@.layers[k as int - 1].len() as int));
                }
            }
            out.push(self.layers[k].mutated_sparse(multiplier, percent));
            k += 1;
        }
        let ghost pre = self@;
        self.layers = out;
        proof {
            assert(forall|j: int| 0 <= j < self@.layers.len() ==> #[trigger] self@.layers[j]
                == out@[j]@);
            assert(net_sparse_step(pre, multiplier, self@));
            lemma_sparse_step_preserves_wf(pre, multiplier, self@);
            if multiplier == 0 {
                assert(self@.layers =~= pre.layers);
                assert(self@ =~= pre);
            }
        }
    }

    /// The trainer: repeatedly copy the network, sparsely perturb the copy
    /// with a quarter of the units, and install the copy as soon as it
    /// strictly improves the caller's error metric.  Gives up and leaves the
    /// network untouched after `max_tries` unsuccessful attempts, since the
    /// search cannot be guaranteed to ever improve an arbitrary metric.
    pub fn train_once<F: Fn(&Net) -> i64>(
        &mut self,
        multiplier: i64,
        error_fun: F,
        max_tries: u64,
    ) -> (r: Option<i64>)
        requires
            old(self).wf(),
            forall|n: &Net| n.wf() ==> #[trigger] call_requires(error_fun, (n,)),
        ensures
            final(self).wf(),
            net_sparse_step(old(self)@, multiplier, final(self)@),
            r is None ==> final(self)@ == old(self)@,
            r is Some ==> exists|b: i64|
                #[trigger] call_ensures(error_fun, (&*old(self),), b) && r->0 < b,
            r is Some ==> call_ensures(error_fun, (&*final(self),), r->0),
    {
        let base = error_fun(&*self);
        let mut tries: u64 = 0;
        while tries < max_tries
            invariant
                *self == *old(self),
                self.wf(),
                tries <= max_tries,
                call_ensures(error_fun, (&*old(self),), base),
                forall|n: &Net| n.wf() ==> #[trigger] call_requires(error_fun, (n,)),
            decreases max_tries - tries,
        {
            let mut cand = self.clone();
            cand.mutate_sparsly(multiplier, SPARSE_RATE);
            let e = error_fun(&cand);
            if e < base {
                *self = cand;
                return Some(e);
            }
            tries = tries + 1;
        }
        None
    }
}

/// A uniform perturbation keeps the network well-formed: unit counts and
/// weight counts are unchanged, and every new parameter is representable.
proof fn lemma_step_preserves_wf(v0: NetV, m: i64, v1: NetV)
    requires
        net_wf(v0),
        net_step(v0, m, v1),
        forall|k: int, u: int|
            0 <= k < v1.layers.len() && 0 <= u < v1.layers[k].len() ==> unit_ranges(
                #[trigger] v1.layers[k][u],
            ),
    ensures
        net_wf(v1),
{
    assert forall|k: int| 1 <= k < v1.layers.len() implies layer_wf(
        #[trigger] v1.layers[k],
        v1.layers[k - 1].len() as int,
    ) by {
        assert(layer_step(v0.layers[k], m, v1.layers[k]));
        assert(layer_step(v0.layers[k - 1], m, v1.layers[k - 1]));
        assert forall|j: int| 0 <= j < v1.layers[k].len() implies unit_wf(
            #[trigger] v1.layers[k][j],
            v1.layers[k - 1].len() as int,
        ) by {
            assert(unit_step(v0.layers[k][j], m, v1.layers[k][j]));
            assert(unit_wf(v0.layers[k][j], v0.layers[k - 1].len() as int));
        }
    }
    assert forall|j: int| 0 <= j < v1.layers[0].len() implies unit_wf(
        #[trigger] v1.layers[0][j],
        v1.in_size,
    ) by {
        assert(layer_step(v0.layers[0], m, v1.layers[0]));
        assert(unit_step(v0.layers[0][j], m, v1.layers[0][j]));
        assert(unit_wf(v0.layers[0][j], v0.in_size));
    }
}

/// A sparse perturbation keeps the network well-formed.
proof fn lemma_sparse_step_preserves_wf(v0: NetV, m: i64, v1: NetV)
    requires
        net_wf(v0),
        net_sparse_step(v0, m, v1),
        forall|k: int, u: int|
            0 <= k < v1.layers.len() && 0 <= u < v1.layers[k].len() ==> unit_ranges(
                #[trigger] v1.layers[k][u],
            ),
    ensures
        net_wf(v1),
{
    assert forall|k: int| 1 <= k < v1.layers.len() implies layer_wf(
        #[trigger] v1.layers[k],
        v1.layers[k - 1].len() as int,
    ) by {
        assert(layer_sparse_step(v0.layers[k], m, v1.layers[k]));
        assert(layer_sparse_step(v0.layers[k - 1], m, v1.layers[k - 1]));
        assert forall|j: int| 0 <= j < v1.layers[k].len() implies unit_wf(
            #[trigger] v1.layers[k][j],
            v1.layers[k - 1].len() as int,
        ) by {
            assert(unit_step(v0.layers[k][j], m, v1.layers[k][j]) || v1.layers[k][j]
                == v0.layers[k][j]);
            assert(unit_wf(v0.layers[k][j], v0.layers[k - 1].len() as int));
        }
    }
    assert forall|j: int| 0 <= j < v1.layers[0].len() implies unit_wf(
        #[trigger] v1.layers[0][j],
        v1.in_size,
    ) by {
        assert(layer_sparse_step(v0.layers[0], m, v1.layers[0]));
        assert(unit_step(v0.layers[0][j], m, v1.layers[0][j]) || v1.layers[0][j]
            == v0.layers[0][j]);
        assert(unit_wf(v0.layers[0][j], v0.in_size));
    }
}

impl Clone for Net {
    /// An exact deep copy: the copy has the same model as its source, so
    /// it is well-formed exactly when the source is and evaluates
    /// identically.
    fn clone(&self) -> (r: Self)
        ensures
            r@ == self@,
    {
        let nl = self.layers.len();
        let mut layers: Vec<Layer> = Vec::new();
        let mut k: usize = 0;
        while k < nl
            invariant
                k <= nl,
                nl == self@.layers.len(),
                layers@.len() == k,
                forall|j: int| 0 <= j < k ==> #[trigger] layers@[j]@ == self@.layers[j],
            decreases nl - k,
        {
            proof {
                assert(self.layers@[k as int]@ == self@.layers[k as int]);
            }
            layers.push(self.layers[k].clone());
            k += 1;
        }
        let r = Net { layers, in_size: self.in_size };
        proof {
            assert(r@.layers =~= self@.layers);
            assert(r@ =~= self@);
        }
        r
    }
}

} // verus!
