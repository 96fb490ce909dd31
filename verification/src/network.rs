use vstd::prelude::*;

use crate::activations::Activation;
use crate::matrix::{
    callable1, callable2, combined, dotted, is_transpose, mapped, scaled, Matrix,
};
use vstd::pervasive::VecAdditionalExecFns;

verus! {

/// Construction and inference failures of the network.
#[derive(Clone, Copy, Debug, PartialEq, Eq, Structural)]
pub enum NetworkError {
    /// Fewer than two layer sizes were supplied.
    InvalidTopology,
    /// The supplied initial parameter buffer does not hold exactly one value
    /// per weight and bias entry.
    InitSizeMismatch,
    /// The input to a forward pass is not a column whose height is the first
    /// layer size.
    InvalidInputSize,
}

/// How many initial parameter values the layer pair `i` consumes: one per
/// weight entry plus one per bias entry.
pub open spec fn segment_len(layers: Seq<usize>, i: int) -> int {
    layers[i + 1] * layers[i] + layers[i + 1]
}

/// Where the parameter values of layer pair `i` start inside the initial
/// parameter buffer.
pub open spec fn segment_offset(layers: Seq<usize>, i: int) -> int
    decreases i,
{
    if i <= 0 {
        0
    } else {
        segment_offset(layers, i - 1) + segment_len(layers, i - 1)
    }
}

/// The exact number of initial parameter values the topology needs: one per
/// weight entry and per bias entry, layer pair by layer pair.
pub open spec fn init_len(layers: Seq<usize>) -> int {
    segment_offset(layers, layers.len() - 1)
}

proof fn lemma_segment_offset_mono(layers: Seq<usize>, i: int, j: int)
    requires
        0 <= i <= j,
    ensures
        segment_offset(layers, i) <= segment_offset(layers, j),
    decreases j - i,
{
    if i < j {
        lemma_segment_offset_mono(layers, i, j - 1);
        assert(segment_len(layers, j - 1) >= 0) by (nonlinear_arith);
    }
}

/// One forward step: `y` is the elementwise activation image of `w · x + b`
/// over the supplied arithmetic — there exist the product `z = w · x` and the
/// sum `s = z + b` such that `y` maps `s` through `act`.
pub open spec fn layer_step<T: Copy, FA: Fn(T, T) -> T, FM: Fn(T, T) -> T, F: Fn(T) -> T>(
    plus: FA,
    times: FM,
    act: F,
    zero: T,
    w: Matrix<T>,
    b: Matrix<T>,
    x: Matrix<T>,
    y: Matrix<T>,
) -> bool {
    exists|z: Matrix<T>, s: Matrix<T>|
        #![trigger combined(plus, z, b, s)]
        {
            &&& z.wf()
            &&& dotted(plus, times, zero, w, x, z)
            &&& s.wf()
            &&& combined(plus, z, b, s)
            &&& mapped(act, s, y)
        }
}

/// One backward step at a single layer pair, over the supplied arithmetic:
/// from the incoming error and gradient columns and the parameters `(w, b)`,
/// there are the elementwise product `g1 = gradients ⊙ errors`, its scaling
/// `g2 = g1 * rate`, the transposed cache column `ct`, the weight delta
/// `delta = g2 · ct`, the updated parameters `w2 = w + delta` and
/// `b2 = b + g2`, the transpose `wt` of the just-updated `w2`, the propagated
/// error `errors2 = wt · errors`, and the next gradient
/// `gradients2 = derivative(cache)`.
pub open spec fn backward_step<T: Copy, FA: Fn(T, T) -> T, FM: Fn(T, T) -> T, D: Fn(T) -> T>(
    plus: FA,
    times: FM,
    deriv: D,
    zero: T,
    rate: T,
    cache: Matrix<T>,
    w: Matrix<T>,
    b: Matrix<T>,
    errors: Matrix<T>,
    gradients: Matrix<T>,
    w2: Matrix<T>,
    b2: Matrix<T>,
    errors2: Matrix<T>,
    gradients2: Matrix<T>,
) -> bool {
    exists|g1: Matrix<T>, g2: Matrix<T>, ct: Matrix<T>, delta: Matrix<T>, wt: Matrix<T>|
        #![trigger scaled(times, g1, rate, g2), dotted(plus, times, zero, g2, ct, delta), is_transpose(w2, wt)]
        {
            &&& combined(times, gradients, errors, g1)
            &&& scaled(times, g1, rate, g2)
            &&& is_transpose(cache, ct)
            &&& dotted(plus, times, zero, g2, ct, delta)
            &&& combined(plus, w, delta, w2)
            &&& combined(plus, b, g2, b2)
            &&& is_transpose(w2, wt)
            &&& dotted(plus, times, zero, wt, errors, errors2)
            &&& mapped(deriv, cache, gradients2)
        }
}

/// The backward pass from layer pair `idx - 1` down to pair 0: repeatedly
/// taking one backward step — each against the matching cache column, and
/// each feeding its updated weights into its own error propagation — turns
/// the parameter sequences `ws`/`bs` into `ws2`/`bs2`.
pub open spec fn backward_chain<T: Copy, FA: Fn(T, T) -> T, FM: Fn(T, T) -> T, D: Fn(T) -> T>(
    plus: FA,
    times: FM,
    deriv: D,
    zero: T,
    rate: T,
    cache: Seq<Matrix<T>>,
    ws: Seq<Matrix<T>>,
    bs: Seq<Matrix<T>>,
    errors: Matrix<T>,
    gradients: Matrix<T>,
    idx: int,
    ws2: Seq<Matrix<T>>,
    bs2: Seq<Matrix<T>>,
) -> bool
    decreases idx,
{
    if idx <= 0 {
        ws2 == ws && bs2 == bs
    } else {
        exists|w2: Matrix<T>, b2: Matrix<T>, errors2: Matrix<T>, gradients2: Matrix<T>|
            #![trigger backward_step(plus, times, deriv, zero, rate, cache[idx - 1], ws[idx - 1], bs[idx - 1], errors, gradients, w2, b2, errors2, gradients2)]
            {
                &&& backward_step(
                    plus,
                    times,
                    deriv,
                    zero,
                    rate,
                    cache[idx - 1],
                    ws[idx - 1],
                    bs[idx - 1],
                    errors,
                    gradients,
                    w2,
                    b2,
                    errors2,
                    gradients2,
                )
                &&& backward_chain(
                    plus,
                    times,
                    deriv,
                    zero,
                    rate,
                    cache,
                    ws.update(idx - 1, w2),
                    bs.update(idx - 1, b2),
                    errors2,
                    gradients2,
                    idx - 1,
                    ws2,
                    bs2,
                )
            }
    }
}

/// A full forward pass under the parameters `ws`/`bs`: `cache[0]` is the
/// input column, and every later cache column is one forward step from the
/// previous one.
pub open spec fn forward_pass<T: Copy, FA: Fn(T, T) -> T, FM: Fn(T, T) -> T, F: Fn(T) -> T>(
    plus: FA,
    times: FM,
    act: F,
    zero: T,
    layers: Seq<usize>,
    ws: Seq<Matrix<T>>,
    bs: Seq<Matrix<T>>,
    input: Seq<T>,
    cache: Seq<Matrix<T>>,
) -> bool {
    &&& cache.len() == layers.len()
    &&& cache[0].rows == input.len()
    &&& cache[0].cols == 1
    &&& cache[0].data@ == input
    &&& forall|k: int|
        0 <= k < layers.len() - 1 ==> layer_step(
            plus,
            times,
            act,
            zero,
            ws[k],
            bs[k],
            cache[k],
            #[trigger] cache[k + 1],
        )
}

/// One training sample under the parameters `ws`/`bs`: a forward pass on the
/// input column leaving `cache` behind, then one backward pass against the
/// target column, ending at the parameters `ws2`/`bs2`.
pub open spec fn sample_step<
    T: Copy,
    FA: Fn(T, T) -> T,
    FS: Fn(T, T) -> T,
    FM: Fn(T, T) -> T,
    F: Fn(T) -> T,
    D: Fn(T) -> T,
>(
    plus: FA,
    minus: FS,
    times: FM,
    act: F,
    deriv: D,
    zero: T,
    rate: T,
    layers: Seq<usize>,
    input: Seq<T>,
    target: Seq<T>,
    ws: Seq<Matrix<T>>,
    bs: Seq<Matrix<T>>,
    ws2: Seq<Matrix<T>>,
    bs2: Seq<Matrix<T>>,
    cache: Seq<Matrix<T>>,
) -> bool {
    &&& forward_pass(plus, times, act, zero, layers, ws, bs, input, cache)
    &&& exists|out: Matrix<T>, tm: Matrix<T>, errors0: Matrix<T>, gradients0: Matrix<T>|
        #![trigger combined(minus, tm, out, errors0), mapped(deriv, out, gradients0)]
        {
            &&& out.eqv(cache[layers.len() - 1])
            &&& tm.rows == target.len()
            &&& tm.cols == 1
            &&& tm.data@ == target
            &&& combined(minus, tm, out, errors0)
            &&& mapped(deriv, out, gradients0)
            &&& backward_chain(
                plus,
                times,
                deriv,
                zero,
                rate,
                cache,
                ws,
                bs,
                errors0,
                gradients0,
                layers.len() - 1,
                ws2,
                bs2,
            )
        }
}

/// The training trajectory: starting in epoch `e` at sample `j`, finishing
/// that epoch over the samples in order and then the remaining epochs turns
/// the parameters `ws`/`bs` into `ws2`/`bs2` through one `sample_step` per
/// (epoch, sample) pair.
pub open spec fn training_chain<
    T: Copy,
    FA: Fn(T, T) -> T,
    FS: Fn(T, T) -> T,
    FM: Fn(T, T) -> T,
    F: Fn(T) -> T,
    D: Fn(T) -> T,
>(
    plus: FA,
    minus: FS,
    times: FM,
    act: F,
    deriv: D,
    zero: T,
    rate: T,
    layers: Seq<usize>,
    inputs: Seq<Vec<T>>,
    targets: Seq<Vec<T>>,
    ws: Seq<Matrix<T>>,
    bs: Seq<Matrix<T>>,
    e: int,
    j: int,
    epochs: int,
    ws2: Seq<Matrix<T>>,
    bs2: Seq<Matrix<T>>,
) -> bool
    decreases epochs - e, inputs.len() - j,
{
    if e >= epochs {
        ws2 == ws && bs2 == bs
    } else if j >= inputs.len() {
        training_chain(
            plus,
            minus,
            times,
            act,
            deriv,
            zero,
            rate,
            layers,
            inputs,
            targets,
            ws,
            bs,
            e + 1,
            0,
            epochs,
            ws2,
            bs2,
        )
    } else {
        exists|wsm: Seq<Matrix<T>>, bsm: Seq<Matrix<T>>, cache: Seq<Matrix<T>>|
            #![trigger sample_step(plus, minus, times, act, deriv, zero, rate, layers, inputs[j]@, targets[j]@, ws, bs, wsm, bsm, cache)]
            {
                &&& sample_step(
                    plus,
                    minus,
                    times,
                    act,
                    deriv,
                    zero,
                    rate,
                    layers,
                    inputs[j]@,
                    targets[j]@,
                    ws,
                    bs,
                    wsm,
                    bsm,
                    cache,
                )
                &&& training_chain(
                    plus,
                    minus,
                    times,
                    act,
                    deriv,
                    zero,
                    rate,
                    layers,
                    inputs,
                    targets,
                    wsm,
                    bsm,
                    e,
                    j + 1,
                    epochs,
                    ws2,
                    bs2,
                )
            }
    }
}

/// A fully-connected feedforward network: per-layer weight and bias matrices,
/// a cache of per-layer activations from the last forward pass, an activation
/// pair, and a learning-rate scalar. The arithmetic on entries is injected at
/// construction as function values, together with its zero.
pub struct Network<T, F, D, FA, FS, FM> {
    pub layers: Vec<usize>,
    pub weights: Vec<Matrix<T>>,
    pub biases: Vec<Matrix<T>>,
    pub data: Vec<Matrix<T>>,
    pub activation: Activation<F, D>,
    pub learning_rate: T,
    pub zero: T,
    pub plus: FA,
    pub minus: FS,
    pub times: FM,
}

impl<
    T: Copy,
    F: Fn(T) -> T + Copy,
    D: Fn(T) -> T + Copy,
    FA: Fn(T, T) -> T + Copy,
    FS: Fn(T, T) -> T + Copy,
    FM: Fn(T, T) -> T + Copy,
> Network<T, F, D, FA, FS, FM> {
    /// The structural invariant: at least two layers; one weight and one bias
    /// matrix per adjacent layer pair, with `weights[i]` of shape
    /// `(layers[i+1], layers[i])` and `biases[i]` of shape `(layers[i+1], 1)`;
    /// and every injected function callable on all entries.
    pub open spec fn wf(self) -> bool {
        &&& self.layers@.len() >= 2
        &&& self.weights@.len() == self.layers@.len() - 1
        &&& self.biases@.len() == self.layers@.len() - 1
        &&& forall|i: int|
            0 <= i < self.weights@.len() ==> {
                &&& (#[trigger] self.weights@[i]).wf()
                &&& self.weights@[i].rows == self.layers@[i + 1]
                &&& self.weights@[i].cols == self.layers@[i]
            }
        &&& forall|i: int|
            0 <= i < self.biases@.len() ==> {
                &&& (#[trigger] self.biases@[i]).wf()
                &&& self.biases@[i].rows == self.layers@[i + 1]
                &&& self.biases@[i].cols == 1
            }
        &&& callable1(self.activation.function)
        &&& callable1(self.activation.derivative)
        &&& callable2(self.plus)
        &&& callable2(self.minus)
        &&& callable2(self.times)
    }

    /// The activation cache holds one column per layer: entry `k` is a column
    /// of height `layers[k]` (entry 0 the fed input, entry `k` the output of
    /// layer `k`).
    pub open spec fn cache_full(self) -> bool {
        &&& self.data@.len() == self.layers@.len()
        &&& forall|k: int|
            0 <= k < self.data@.len() ==> {
                &&& (#[trigger] self.data@[k]).wf()
                &&& self.data@[k].rows == self.layers@[k]
                &&& self.data@[k].cols == 1
            }
    }

    /// The parts a pass must never touch: topology, activation pair,
    /// arithmetic, and the learning rate.
    pub open spec fn config_eq(self, other: Self) -> bool {
        &&& self.layers == other.layers
        &&& self.activation == other.activation
        &&& self.learning_rate == other.learning_rate
        &&& self.zero == other.zero
        &&& self.plus == other.plus
        &&& self.minus == other.minus
        &&& self.times == other.times
    }

    /// Builds a network from a layer-size sequence, an activation pair, a
    /// learning rate, the entry arithmetic, and one initial value per weight
    /// and bias entry (in order: weights of pair 0 row-major, biases of pair
    /// 0, weights of pair 1, ...). Rejects fewer than two layers, and an
    /// initial buffer whose length is not exactly what the topology needs.
    pub fn new(
        layers: Vec<usize>,
        activation: Activation<F, D>,
        learning_rate: T,
        zero: T,
        plus: FA,
        minus: FS,
        times: FM,
        init: Vec<T>,
    ) -> (r: Result<Network<T, F, D, FA, FS, FM>, NetworkError>)
        requires
            callable1(activation.function),
            callable1(activation.derivative),
            callable2(plus),
            callable2(minus),
            callable2(times),
        ensures
            match r {
                Ok(n) => {
                    &&& layers@.len() >= 2
                    &&& init@.len() == init_len(layers@)
                    &&& n.wf()
                    &&& n.layers@ == layers@
                    &&& n.data@.len() == 0
                    &&& n.activation == activation
                    &&& n.learning_rate == learning_rate
                    &&& n.zero == zero
                    &&& n.plus == plus
                    &&& n.minus == minus
                    &&& n.times == times
                    &&& forall|k: int|
                        0 <= k < n.weights@.len() ==> (#[trigger] n.weights@[k]).data@
                            == init@.subrange(
                            segment_offset(layers@, k),
                            segment_offset(layers@, k) + layers@[k + 1] * layers@[k],
                        )
                    &&& forall|k: int|
                        0 <= k < n.biases@.len() ==> (#[trigger] n.biases@[k]).data@
                            == init@.subrange(
                            segment_offset(layers@, k) + layers@[k + 1] * layers@[k],
                            segment_offset(layers@, k + 1),
                        )
                },
                Err(e) => {
                    ||| (e == NetworkError::InvalidTopology && layers@.len() < 2)
                    ||| (e == NetworkError::InitSizeMismatch && layers@.len() >= 2 && init@.len()
                        != init_len(layers@))
                },
            },
    {
        if layers.len() < 2 {
            return Err(NetworkError::InvalidTopology);
        }
        let count = layers.len() - 1;
        let mut weights: Vec<Matrix<T>> = Vec::new();
        let mut biases: Vec<Matrix<T>> = Vec::new();
        let mut pos: usize = 0;
        let mut i: usize = 0;
        while i < count
            invariant
                layers@.len() >= 2,
                count == layers@.len() - 1,
                i <= count,
                pos == segment_offset(layers@, i as int),
                pos <= init.len(),
                weights@.len() == i,
                biases@.len() == i,
                forall|k: int|
                    0 <= k < i ==> {
                        &&& (#[trigger] weights@[k]).wf()
                        &&& weights@[k].rows == layers@[k + 1]
                        &&& weights@[k].cols == layers@[k]
                        &&& weights@[k].data@ == init@.subrange(
                            segment_offset(layers@, k),
                            segment_offset(layers@, k) + layers@[k + 1] * layers@[k],
                        )
                    },
                forall|k: int|
                    0 <= k < i ==> {
                        &&& (#[trigger] biases@[k]).wf()
                        &&& biases@[k].rows == layers@[k + 1]
                        &&& biases@[k].cols == 1
                        &&& biases@[k].data@ == init@.subrange(
                            segment_offset(layers@, k) + layers@[k + 1] * layers@[k],
                            segment_offset(layers@, k + 1),
                        )
                    },
            decreases count - i,
        {
            let rows = layers[i + 1];
            let cols = layers[i];
            let ghost seg = segment_len(layers@, i as int);
            proof {
                lemma_segment_offset_mono(layers@, i as int + 1, count as int);
                assert(segment_offset(layers@, i as int + 1) == pos + seg);
                assert(seg == rows * cols + rows);
                assert(rows * cols >= 0) by (nonlinear_arith);
            }
            let wcount = match rows.checked_mul(cols) {
                Some(c) => c,
                None => {
                    proof {
                        assert(init.len() <= usize::MAX);
                        assert(init_len(layers@) >= pos + seg);
                    }
                    return Err(NetworkError::InitSizeMismatch);
                },
            };
            if wcount > init.len() - pos {
                proof {
                    assert(init_len(layers@) >= pos + seg);
                }
                return Err(NetworkError::InitSizeMismatch);
            }
            let mut wdata: Vec<T> = Vec::new();
            proof {
                assert(wdata@ =~= init@.subrange(pos as int, pos as int));
            }
            let mut t: usize = 0;
            while t < wcount
                invariant
                    t <= wcount,
                    pos + wcount <= init.len(),
                    wdata@.len() == t,
                    wdata@ == init@.subrange(pos as int, pos + t as int),
                decreases wcount - t,
            {
                wdata.push(init[pos + t]);
                proof {
                    assert(init@.subrange(pos as int, pos + t as int).push(init@[pos + t])
                        =~= init@.subrange(pos as int, pos + (t + 1) as int));
                }
                t = t + 1;
            }
            let w = Matrix { rows, cols, data: wdata };
            weights.push(w);
            let wpos = pos + wcount;
            if rows > init.len() - wpos {
                proof {
                    assert(init_len(layers@) >= pos + seg);
                }
                return Err(NetworkError::InitSizeMismatch);
            }
            let mut bdata: Vec<T> = Vec::new();
            proof {
                assert(bdata@ =~= init@.subrange(wpos as int, wpos as int));
            }
            let mut t2: usize = 0;
            while t2 < rows
                invariant
                    t2 <= rows,
                    wpos + rows <= init.len(),
                    bdata@.len() == t2,
                    bdata@ == init@.subrange(wpos as int, wpos + t2 as int),
                decreases rows - t2,
            {
                bdata.push(init[wpos + t2]);
                proof {
                    assert(init@.subrange(wpos as int, wpos + t2 as int).push(init@[wpos + t2])
                        =~= init@.subrange(wpos as int, wpos + (t2 + 1) as int));
                }
                t2 = t2 + 1;
            }
            let b = Matrix { rows, cols: 1, data: bdata };
            biases.push(b);
            pos = wpos + rows;
            proof {
                assert(segment_offset(layers@, i as int + 1) == segment_offset(layers@, i as int)
                    + segment_len(layers@, i as int));
            }
            i = i + 1;
        }
        if pos != init.len() {
            return Err(NetworkError::InitSizeMismatch);
        }
        Ok(
            Network {
                layers,
                weights,
                biases,
                data: Vec::new(),
                activation,
                learning_rate,
                zero,
                plus,
                minus,
                times,
            },
        )
    }

    /// Forward propagation: requires a column whose height is the first layer
    /// size, resets the activation cache to `[input]`, then repeatedly applies
    /// `current = act(weights[i] · current + biases[i])`, caching every layer
    /// output, and returns the last one — a column of height `layers[last]`.
    pub fn feed_forward(&mut self, inputs: Matrix<T>) -> (r: Result<Matrix<T>, NetworkError>)
        requires
            old(self).wf(),
            inputs.wf(),
        ensures
            final(self).wf(),
            final(self).config_eq(*old(self)),
            final(self).weights == old(self).weights,
            final(self).biases == old(self).biases,
            match r {
                Ok(out) => {
                    &&& inputs.rows == old(self).layers@[0]
                    &&& inputs.cols == 1
                    &&& final(self).cache_full()
                    &&& final(self).data@[0] == inputs
                    &&& forall|k: int|
                        0 <= k < final(self).layers@.len() - 1 ==> layer_step(
                            old(self).plus,
                            old(self).times,
                            old(self).activation.function,
                            old(self).zero,
                            old(self).weights@[k],
                            old(self).biases@[k],
                            final(self).data@[k],
                            #[trigger] final(self).data@[k + 1],
                        )
                    &&& out.wf()
                    &&& out.rows == old(self).layers@[old(self).layers@.len() - 1]
                    &&& out.cols == 1
                    &&& out.eqv(final(self).data@[final(self).data@.len() - 1])
                },
                Err(e) => {
                    &&& e == NetworkError::InvalidInputSize
                    &&& !(inputs.rows == old(self).layers@[0] && inputs.cols == 1)
                    &&& *final(self) == *old(self)
                },
            },
    {
        if inputs.rows != self.layers[0] || inputs.cols != 1 {
            return Err(NetworkError::InvalidInputSize);
        }
        self.data = Vec::new();
        self.data.push(inputs);
        let count = self.layers.len() - 1;
        let mut i: usize = 0;
        while i < count
            invariant
                self.wf(),
                self.config_eq(*old(self)),
                self.weights == old(self).weights,
                self.biases == old(self).biases,
                count == self.layers@.len() - 1,
                i <= count,
                self.data@.len() == i + 1,
                self.data@[0] == inputs,
                forall|k: int|
                    0 <= k <= i ==> {
                        &&& (#[trigger] self.data@[k]).wf()
                        &&& self.data@[k].rows == self.layers@[k]
                        &&& self.data@[k].cols == 1
                    },
                forall|k: int|
                    0 <= k < i ==> layer_step(
                        self.plus,
                        self.times,
                        self.activation.function,
                        self.zero,
                        self.weights@[k],
                        self.biases@[k],
                        self.data@[k],
                        #[trigger] self.data@[k + 1],
                    ),
            decreases count - i,
        {
            let z = match self.weights[i].dot_multiply(
                &self.data[i],
                self.zero,
                self.plus,
                self.times,
            ) {
                Ok(m) => m,
                Err(_) => unreached(),
            };
            let s = match z.add(&self.biases[i], self.plus) {
                Ok(m) => m,
                Err(_) => unreached(),
            };
            let next = s.map(self.activation.function);
            proof {
                assert(combined(self.plus, z, self.biases@[i as int], s));
                assert(layer_step(
                    self.plus,
                    self.times,
                    self.activation.function,
                    self.zero,
                    self.weights@[i as int],
                    self.biases@[i as int],
                    self.data@[i as int],
                    next,
                ));
            }
            self.data.push(next);
            i = i + 1;
        }
        let out = self.data[self.data.len() - 1].duplicate();
        Ok(out)
    }

    /// Backward propagation with in-place parameter update. Starting from
    /// `error = target - output` and `gradient = derivative(output)`, walks
    /// the layer pairs from the last to the first; at each one it scales the
    /// elementwise product of gradient and error by the learning rate, adds
    /// `gradient · cache[i]ᵀ` to `weights[i]` and `gradient` to `biases[i]`,
    /// propagates the error through the just-updated `weights[i]ᵀ` (not the
    /// pre-update value), and takes the derivative of `cache[i]` as the next
    /// gradient. Consumes the cache of the immediately preceding forward
    /// pass; every weight and bias matrix keeps its shape.
    pub fn back_propogate(&mut self, outputs: Matrix<T>, targets: Matrix<T>)
        requires
            old(self).wf(),
            old(self).cache_full(),
            outputs.wf(),
            outputs.rows == old(self).layers@[old(self).layers@.len() - 1],
            outputs.cols == 1,
            targets.wf(),
            targets.rows == outputs.rows,
            targets.cols == 1,
        ensures
            final(self).wf(),
            final(self).cache_full(),
            final(self).config_eq(*old(self)),
            final(self).data == old(self).data,
            final(self).weights@.len() == old(self).weights@.len(),
            final(self).biases@.len() == old(self).biases@.len(),
            forall|k: int|
                0 <= k < old(self).weights@.len() ==> {
                    &&& (#[trigger] final(self).weights@[k]).wf()
                    &&& final(self).weights@[k].rows == old(self).weights@[k].rows
                    &&& final(self).weights@[k].cols == old(self).weights@[k].cols
                },
            forall|k: int|
                0 <= k < old(self).biases@.len() ==> {
                    &&& (#[trigger] final(self).biases@[k]).wf()
                    &&& final(self).biases@[k].rows == old(self).biases@[k].rows
                    &&& final(self).biases@[k].cols == old(self).biases@[k].cols
                },
            exists|errors0: Matrix<T>, gradients0: Matrix<T>|
                #![trigger combined(old(self).minus, targets, outputs, errors0), mapped(old(self).activation.derivative, outputs, gradients0)]
                {
                    &&& combined(old(self).minus, targets, outputs, errors0)
                    &&& mapped(old(self).activation.derivative, outputs, gradients0)
                    &&& backward_chain(
                        old(self).plus,
                        old(self).times,
                        old(self).activation.derivative,
                        old(self).zero,
                        old(self).learning_rate,
                        old(self).data@,
                        old(self).weights@,
                        old(self).biases@,
                        errors0,
                        gradients0,
                        old(self).layers@.len() - 1,
                        final(self).weights@,
                        final(self).biases@,
                    )
                },
    {
        let mut errors = match targets.subtract(&outputs, self.minus) {
            Ok(m) => m,
            Err(_) => unreached(),
        };
        let mut gradients = outputs.map(self.activation.derivative);
        let ghost errors0 = errors;
        let ghost gradients0 = gradients;
        let mut idx = self.layers.len() - 1;
        while idx > 0
            invariant
                self.wf(),
                self.cache_full(),
                self.config_eq(*old(self)),
                self.data == old(self).data,
                self.weights@.len() == old(self).weights@.len(),
                self.biases@.len() == old(self).biases@.len(),
                idx <= self.layers@.len() - 1,
                errors.wf(),
                errors.rows == self.layers@[idx as int],
                errors.cols == 1,
                gradients.wf(),
                gradients.rows == self.layers@[idx as int],
                gradients.cols == 1,
                combined(old(self).minus, targets, outputs, errors0),
                mapped(old(self).activation.derivative, outputs, gradients0),
                forall|ws2: Seq<Matrix<T>>, bs2: Seq<Matrix<T>>|
                    #[trigger] backward_chain(
                        old(self).plus,
                        old(self).times,
                        old(self).activation.derivative,
                        old(self).zero,
                        old(self).learning_rate,
                        old(self).data@,
                        self.weights@,
                        self.biases@,
                        errors,
                        gradients,
                        idx as int,
                        ws2,
                        bs2,
                    ) ==> backward_chain(
                        old(self).plus,
                        old(self).times,
                        old(self).activation.derivative,
                        old(self).zero,
                        old(self).learning_rate,
                        old(self).data@,
                        old(self).weights@,
                        old(self).biases@,
                        errors0,
                        gradients0,
                        old(self).layers@.len() - 1,
                        ws2,
                        bs2,
                    ),
            decreases idx,
        {
            let i = idx - 1;
            let ghost pre_ws = self.weights@;
            let ghost pre_bs = self.biases@;
            let ghost pre_errors = errors;
            let ghost pre_gradients = gradients;
            let g1 = match gradients.elementwise_multiply(&errors, self.times) {
                Ok(m) => m,
                Err(_) => unreached(),
            };
            let g2 = g1.scale(self.learning_rate, self.times);
            let cache_t = self.data[i].transpose();
            let delta = match g2.dot_multiply(&cache_t, self.zero, self.plus, self.times) {
                Ok(m) => m,
                Err(_) => unreached(),
            };
            let new_w = match self.weights[i].add(&delta, self.plus) {
                Ok(m) => m,
                Err(_) => unreached(),
            };
            self.weights.set(i, new_w);
            let new_b = match self.biases[i].add(&g2, self.plus) {
                Ok(m) => m,
                Err(_) => unreached(),
            };
            self.biases.set(i, new_b);
            let w_t = self.weights[i].transpose();
            errors = match w_t.dot_multiply(&errors, self.zero, self.plus, self.times) {
                Ok(m) => m,
                Err(_) => unreached(),
            };
            gradients = self.data[i].map(self.activation.derivative);
            proof {
                assert(backward_step(
                    old(self).plus,
                    old(self).times,
                    old(self).activation.derivative,
                    old(self).zero,
                    old(self).learning_rate,
                    old(self).data@[i as int],
                    pre_ws[i as int],
                    pre_bs[i as int],
                    pre_errors,
                    pre_gradients,
                    new_w,
                    new_b,
                    errors,
                    gradients,
                ));
                assert forall|ws2: Seq<Matrix<T>>, bs2: Seq<Matrix<T>>|
                    #[trigger] backward_chain(
                        old(self).plus,
                        old(self).times,
                        old(self).activation.derivative,
                        old(self).zero,
                        old(self).learning_rate,
                        old(self).data@,
                        self.weights@,
                        self.biases@,
                        errors,
                        gradients,
                        i as int,
                        ws2,
                        bs2,
                    ) implies backward_chain(
                    old(self).plus,
                    old(self).times,
                    old(self).activation.derivative,
                    old(self).zero,
                    old(self).learning_rate,
                    old(self).data@,
                    old(self).weights@,
                    old(self).biases@,
                    errors0,
                    gradients0,
                    old(self).layers@.len() - 1,
                    ws2,
                    bs2,
                ) by {
                    assert(self.weights@ == pre_ws.update(i as int, new_w));
                    assert(self.biases@ == pre_bs.update(i as int, new_b));
                    assert(backward_chain(
                        old(self).plus,
                        old(self).times,
                        old(self).activation.derivative,
                        old(self).zero,
                        old(self).learning_rate,
                        old(self).data@,
                        pre_ws,
                        pre_bs,
                        pre_errors,
                        pre_gradients,
                        idx as int,
                        ws2,
                        bs2,
                    ));
                }
            }
            idx = i;
        }
        proof {
            assert(backward_chain(
                old(self).plus,
                old(self).times,
                old(self).activation.derivative,
                old(self).zero,
                old(self).learning_rate,
                old(self).data@,
                self.weights@,
                self.biases@,
                errors,
                gradients,
                0,
                self.weights@,
                self.biases@,
            ));
            assert(combined(old(self).minus, targets, outputs, errors0) && mapped(
                old(self).activation.derivative,
                outputs,
                gradients0,
            ));
        }
    }

    /// Stochastic gradient-descent training: for each of `epochs` epochs, for
    /// each sample index in the given order (no shuffling, no batching), one
    /// forward pass on the input column followed by one backward pass against
    /// the target column. Every input must have the first layer's length and
    /// every target the last layer's.
    pub fn train(&mut self, inputs: Vec<Vec<T>>, targets: Vec<Vec<T>>, epochs: u32)
        requires
            old(self).wf(),
            inputs@.len() == targets@.len(),
            forall|j: int|
                0 <= j < inputs@.len() ==> (#[trigger] inputs@[j])@.len() == old(
                    self,
                ).layers@[0],
            forall|j: int|
                0 <= j < targets@.len() ==> (#[trigger] targets@[j])@.len() == old(
                    self,
                ).layers@[old(self).layers@.len() - 1],
        ensures
            final(self).wf(),
            final(self).config_eq(*old(self)),
            final(self).weights@.len() == old(self).weights@.len(),
            final(self).biases@.len() == old(self).biases@.len(),
            forall|k: int|
                0 <= k < old(self).weights@.len() ==> {
                    &&& (#[trigger] final(self).weights@[k]).wf()
                    &&& final(self).weights@[k].rows == old(self).weights@[k].rows
                    &&& final(self).weights@[k].cols == old(self).weights@[k].cols
                },
            forall|k: int|
                0 <= k < old(self).biases@.len() ==> {
                    &&& (#[trigger] final(self).biases@[k]).wf()
                    &&& final(self).biases@[k].rows == old(self).biases@[k].rows
                    &&& final(self).biases@[k].cols == old(self).biases@[k].cols
                },
            training_chain(
                old(self).plus,
                old(self).minus,
                old(self).times,
                old(self).activation.function,
                old(self).activation.derivative,
                old(self).zero,
                old(self).learning_rate,
                old(self).layers@,
                inputs@,
                targets@,
                old(self).weights@,
                old(self).biases@,
                0,
                0,
                epochs as int,
                final(self).weights@,
                final(self).biases@,
            ),
    {
        let mut e: u32 = 0;
        while e < epochs
            invariant
                self.wf(),
                self.config_eq(*old(self)),
                self.weights@.len() == old(self).weights@.len(),
                self.biases@.len() == old(self).biases@.len(),
                inputs@.len() == targets@.len(),
                e <= epochs,
                forall|j: int|
                    0 <= j < inputs@.len() ==> (#[trigger] inputs@[j])@.len() == old(
                        self,
                    ).layers@[0],
                forall|j: int|
                    0 <= j < targets@.len() ==> (#[trigger] targets@[j])@.len() == old(
                        self,
                    ).layers@[old(self).layers@.len() - 1],
                forall|ws2: Seq<Matrix<T>>, bs2: Seq<Matrix<T>>|
                    #[trigger] training_chain(
                        old(self).plus,
                        old(self).minus,
                        old(self).times,
                        old(self).activation.function,
                        old(self).activation.derivative,
                        old(self).zero,
                        old(self).learning_rate,
                        old(self).layers@,
                        inputs@,
                        targets@,
                        self.weights@,
                        self.biases@,
                        e as int,
                        0,
                        epochs as int,
                        ws2,
                        bs2,
                    ) ==> training_chain(
                        old(self).plus,
                        old(self).minus,
                        old(self).times,
                        old(self).activation.function,
                        old(self).activation.derivative,
                        old(self).zero,
                        old(self).learning_rate,
                        old(self).layers@,
                        inputs@,
                        targets@,
                        old(self).weights@,
                        old(self).biases@,
                        0,
                        0,
                        epochs as int,
                        ws2,
                        bs2,
                    ),
            decreases epochs - e,
        {
            let mut j: usize = 0;
            while j < inputs.len()
                invariant
                    self.wf(),
                    self.config_eq(*old(self)),
                    self.weights@.len() == old(self).weights@.len(),
                    self.biases@.len() == old(self).biases@.len(),
                    inputs@.len() == targets@.len(),
                    j <= inputs@.len(),
                    e < epochs,
                    forall|j2: int|
                        0 <= j2 < inputs@.len() ==> (#[trigger] inputs@[j2])@.len() == old(
                            self,
                        ).layers@[0],
                    forall|j2: int|
                        0 <= j2 < targets@.len() ==> (#[trigger] targets@[j2])@.len() == old(
                            self,
                        ).layers@[old(self).layers@.len() - 1],
                    forall|ws2: Seq<Matrix<T>>, bs2: Seq<Matrix<T>>|
                        #[trigger] training_chain(
                            old(self).plus,
                            old(self).minus,
                            old(self).times,
                            old(self).activation.function,
                            old(self).activation.derivative,
                            old(self).zero,
                            old(self).learning_rate,
                            old(self).layers@,
                            inputs@,
                            targets@,
                            self.weights@,
                            self.biases@,
                            e as int,
                            j as int,
                            epochs as int,
                            ws2,
                            bs2,
                        ) ==> training_chain(
                            old(self).plus,
                            old(self).minus,
                            old(self).times,
                            old(self).activation.function,
                            old(self).activation.derivative,
                            old(self).zero,
                            old(self).learning_rate,
                            old(self).layers@,
                            inputs@,
                            targets@,
                            old(self).weights@,
                            old(self).biases@,
                            0,
                            0,
                            epochs as int,
                            ws2,
                            bs2,
                        ),
                decreases inputs@.len() - j,
            {
                let ghost pre_ws = self.weights@;
                let ghost pre_bs = self.biases@;
                let input = Matrix::from_column(&inputs[j]);
                let out = match self.feed_forward(input) {
                    Ok(o) => o,
                    Err(_) => unreached(),
                };
                let ghost cache = self.data@;
                let target = Matrix::from_column(&targets[j]);
                self.back_propogate(out, target);
                proof {
                    assert(forward_pass(
                        old(self).plus,
                        old(self).times,
                        old(self).activation.function,
                        old(self).zero,
                        old(self).layers@,
                        pre_ws,
                        pre_bs,
                        inputs@[j as int]@,
                        cache,
                    ));
                    assert(sample_step(
                        old(self).plus,
                        old(self).minus,
                        old(self).times,
                        old(self).activation.function,
                        old(self).activation.derivative,
                        old(self).zero,
                        old(self).learning_rate,
                        old(self).layers@,
                        inputs@[j as int]@,
                        targets@[j as int]@,
                        pre_ws,
                        pre_bs,
                        self.weights@,
                        self.biases@,
                        cache,
                    ));
                    assert forall|ws2: Seq<Matrix<T>>, bs2: Seq<Matrix<T>>|
                        #[trigger] training_chain(
                            old(self).plus,
                            old(self).minus,
                            old(self).times,
                            old(self).activation.function,
                            old(self).activation.derivative,
                            old(self).zero,
                            old(self).learning_rate,
                            old(self).layers@,
                            inputs@,
                            targets@,
                            self.weights@,
                            self.biases@,
                            e as int,
                            j as int + 1,
                            epochs as int,
                            ws2,
                            bs2,
                        ) implies training_chain(
                        old(self).plus,
                        old(self).minus,
                        old(self).times,
                        old(self).activation.function,
                        old(self).activation.derivative,
                        old(self).zero,
                        old(self).learning_rate,
                        old(self).layers@,
                        inputs@,
                        targets@,
                        old(self).weights@,
                        old(self).biases@,
                        0,
                        0,
                        epochs as int,
                        ws2,
                        bs2,
                    ) by {
                        assert(training_chain(
                            old(self).plus,
                            old(self).minus,
                            old(self).times,
                            old(self).activation.function,
                            old(self).activation.derivative,
                            old(self).zero,
                            old(self).learning_rate,
                            old(self).layers@,
                            inputs@,
                            targets@,
                            pre_ws,
                            pre_bs,
                            e as int,
                            j as int,
                            epochs as int,
                            ws2,
                            bs2,
                        ));
                    }
                }
                j = j + 1;
            }
            proof {
                assert forall|ws2: Seq<Matrix<T>>, bs2: Seq<Matrix<T>>|
                    #[trigger] training_chain(
                        old(self).plus,
                        old(self).minus,
                        old(self).times,
                        old(self).activation.function,
                        old(self).activation.derivative,
                        old(self).zero,
                        old(self).learning_rate,
                        old(self).layers@,
                        inputs@,
                        targets@,
                        self.weights@,
                        self.biases@,
                        e as int + 1,
                        0,
                        epochs as int,
                        ws2,
                        bs2,
                    ) implies training_chain(
                    old(self).plus,
                    old(self).minus,
                    old(self).times,
                    old(self).activation.function,
                    old(self).activation.derivative,
                    old(self).zero,
                    old(self).learning_rate,
                    old(self).layers@,
                    inputs@,
                    targets@,
                    old(self).weights@,
                    old(self).biases@,
                    0,
                    0,
                    epochs as int,
                    ws2,
                    bs2,
                ) by {
                    assert(training_chain(
                        old(self).plus,
                        old(self).minus,
                        old(self).times,
                        old(self).activation.function,
                        old(self).activation.derivative,
                        old(self).zero,
                        old(self).learning_rate,
                        old(self).layers@,
                        inputs@,
                        targets@,
                        self.weights@,
                        self.biases@,
                        e as int,
                        inputs@.len() as int,
                        epochs as int,
                        ws2,
                        bs2,
                    ));
                }
            }
            e = e + 1;
        }
        proof {
            assert(training_chain(
                old(self).plus,
                old(self).minus,
                old(self).times,
                old(self).activation.function,
                old(self).activation.derivative,
                old(self).zero,
                old(self).learning_rate,
                old(self).layers@,
                inputs@,
                targets@,
                self.weights@,
                self.biases@,
                epochs as int,
                0,
                epochs as int,
                self.weights@,
                self.biases@,
            ));
        }
    }
}

} // verus!
