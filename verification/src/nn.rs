//! The layers, settings and parameters of a feed-forward neural network.

use vstd::prelude::*;

use crate::arith::deterministic;
use crate::matrix::{Matrix, product_of, zipped, column_sums, lemma_product_unique, lemma_zip_unique};
use crate::optimization::{Optimization, zeroed_like, caches_fit, caches_kept, same_settings, layer_update};

verus! {

/// The function applied to the values of a layer.
#[derive(Clone, Copy, Debug, PartialEq, Eq, Structural, Default)]
pub enum Activation {
    /// Linear Unit Function = x
    Lu,
    /// Rectified Linear Unit = max(0, x)
    #[default]
    ReLU,
    /// Leaky Rectified Linear Unit = if x < 0 {x * 0.01} else { x }
    LReLU,
    /// Sigmoid = 1 / (1 + e^(-x))
    Sigmoid,
    /// TANH = 2 / (1 + e^(-2 * x))
    Tanh,
    /// Softplus = log(1 + e^x)
    Softplus,
    /// Softmax = e^x / Σ e^x
    Softmax,
}

/// How far a prediction is from the expected output.
#[derive(Clone, Copy, Debug, PartialEq, Eq, Structural, Default)]
pub enum LossFunction {
    #[default]
    MeanSquaredError,
    MeanAbsoluteError,
}

/// Number of weight matrices of a network with `layers` layers: one between
/// each pair of neighbouring layers.
pub open spec fn weight_count(layers: nat) -> nat {
    if layers == 0 {
        0
    } else {
        (layers - 1) as nat
    }
}

/// The parameters of the layers fit together: there are as many bias rows
/// as weight matrices, at least as many activations, each bias is a
/// `1 x n` row for a weight matrix with `n` columns, and each weight matrix
/// has as many columns as the next one has rows.
pub open spec fn layers_fit<T>(
    weights: Seq<Matrix<T>>,
    biases: Seq<Matrix<T>>,
    activation: Seq<Activation>,
) -> bool {
    &&& weights.len() == biases.len()
    &&& weights.len() <= activation.len()
    &&& forall|i: int|
        0 <= i < weights.len() ==> {
            &&& (#[trigger] weights[i]).wf()
            &&& biases[i].wf()
            &&& biases[i].nrows() == 1
            &&& biases[i].ncols() == weights[i].ncols()
        }
    &&& forall|i: int|
        0 <= i < weights.len() - 1 ==> (#[trigger] weights[i]).ncols() == weights[i + 1].nrows()
}

/// A feed-forward network: for each pair of neighbouring layers a weight
/// matrix and a bias row, one activation per layer, the loss function, the
/// optimization method and the last recorded loss.
pub struct NeuralNetwork<T> {
    weights: Vec<Matrix<T>>,
    biases: Vec<Matrix<T>>,
    activation: Vec<Activation>,
    loss_function: LossFunction,
    optimization: Optimization<T>,
    loss: T,
}

impl<T> NeuralNetwork<T> {
    /// The weight matrices, from the input side on.
    pub closed spec fn weight_seq(&self) -> Seq<Matrix<T>> {
        self.weights@
    }

    /// The bias rows, from the input side on.
    pub closed spec fn bias_seq(&self) -> Seq<Matrix<T>> {
        self.biases@
    }

    /// One activation per layer.
    pub closed spec fn activation_seq(&self) -> Seq<Activation> {
        self.activation@
    }

    /// The loss function used in training.
    pub closed spec fn loss_fn(&self) -> LossFunction {
        self.loss_function
    }

    /// The optimization method used in training.
    pub closed spec fn optimizer(&self) -> Optimization<T> {
        self.optimization
    }

    /// The last recorded average loss.
    pub closed spec fn current_loss(&self) -> T {
        self.loss
    }

    /// The shapes of all parameters fit together.
    pub open spec fn wf(&self) -> bool {
        layers_fit(self.weight_seq(), self.bias_seq(), self.activation_seq())
    }

    /// `other` has the architecture of `self`: as many weight matrices and
    /// bias rows, each of the same shape, the same activations and the same
    /// loss function.
    pub open spec fn same_architecture(&self, other: Self) -> bool {
        &&& other.weight_seq().len() == self.weight_seq().len()
        &&& other.bias_seq().len() == self.bias_seq().len()
        &&& forall|i: int|
            0 <= i < self.weight_seq().len() ==> (#[trigger] other.weight_seq()[i]).same_shape(&self.weight_seq()[i])
        &&& forall|i: int|
            0 <= i < self.bias_seq().len() ==> (#[trigger] other.bias_seq()[i]).same_shape(&self.bias_seq()[i])
        &&& other.activation_seq() == self.activation_seq()
        &&& other.loss_fn() == self.loss_fn()
    }

    /// The weight matrices, from the input side on.
    pub fn weights(&self) -> (w: &Vec<Matrix<T>>)
        ensures
            w@ == self.weight_seq(),
    {
        &self.weights
    }

    /// The bias rows, from the input side on.
    pub fn biases(&self) -> (b: &Vec<Matrix<T>>)
        ensures
            b@ == self.bias_seq(),
    {
        &self.biases
    }

    /// One activation per layer.
    pub fn activation(&self) -> (a: &Vec<Activation>)
        ensures
            a@ == self.activation_seq(),
    {
        &self.activation
    }

    /// The loss function used in training.
    pub fn loss_function(&self) -> (l: LossFunction)
        ensures
            l == self.loss_fn(),
    {
        self.loss_function
    }

    /// The optimization method used in training.
    pub fn optimization(&self) -> (o: &Optimization<T>)
        ensures
            *o == self.optimizer(),
    {
        &self.optimization
    }

    /// The optimization method, to update its caches in place; nothing
    /// else of the network changes.
    pub fn optimization_mut(&mut self) -> (o: &mut Optimization<T>)
        ensures
            *o == old(self).optimizer(),
            final(self).optimizer() == *final(o),
            final(self).weight_seq() == old(self).weight_seq(),
            final(self).bias_seq() == old(self).bias_seq(),
            final(self).activation_seq() == old(self).activation_seq(),
            final(self).loss_fn() == old(self).loss_fn(),
            final(self).current_loss() == old(self).current_loss(),
            old(self).same_architecture(*final(self)),
    {
        &mut self.optimization
    }

    /// The last recorded average loss.
    pub fn loss(&self) -> (l: &T)
        ensures
            *l == self.current_loss(),
    {
        &self.loss
    }

    /// Records a new average loss; nothing else changes.
    pub fn set_loss(&mut self, loss: T)
        ensures
            final(self).current_loss() == loss,
            final(self).optimizer() == old(self).optimizer(),
            final(self).weight_seq() == old(self).weight_seq(),
            final(self).bias_seq() == old(self).bias_seq(),
            final(self).activation_seq() == old(self).activation_seq(),
            final(self).loss_fn() == old(self).loss_fn(),
            old(self).same_architecture(*final(self)),
    {
        self.loss = loss;
    }

    /// A network from its parts, as they are. Whether their shapes fit
    /// together, as every computation on the network needs, is what
    /// `is_wf` tells.
    pub fn from_parts(
        weights: Vec<Matrix<T>>,
        biases: Vec<Matrix<T>>,
        activation: Vec<Activation>,
        loss_function: LossFunction,
        optimization: Optimization<T>,
        loss: T,
    ) -> (nn: Self)
        ensures
            nn.weight_seq() == weights@,
            nn.bias_seq() == biases@,
            nn.activation_seq() == activation@,
            nn.loss_fn() == loss_function,
            nn.optimizer() == optimization,
            nn.current_loss() == loss,
    {
        NeuralNetwork { weights, biases, activation, loss_function, optimization, loss }
    }

    /// Whether the shapes of the parameters fit together (see `wf`).
    pub fn is_wf(&self) -> (b: bool)
        ensures
            b == self.wf(),
    {
        let weights = &self.weights;
        let biases = &self.biases;
        if weights.len() != biases.len() || weights.len() > self.activation.len() {
            return false;
        }
        let mut i: usize = 0;
        while i < weights.len()
            invariant
                i <= weights@.len(),
                weights@ == self.weight_seq(),
                biases@ == self.bias_seq(),
                weights@.len() == biases@.len(),
                weights@.len() <= self.activation_seq().len(),
                forall|j: int|
                    0 <= j < i ==> {
                        &&& (#[trigger] weights@[j]).wf()
                        &&& biases@[j].wf()
                        &&& biases@[j].nrows() == 1
                        &&& biases@[j].ncols() == weights@[j].ncols()
                    },
                forall|j: int|
                    0 <= j < i && j < weights@.len() - 1 ==> (#[trigger] weights@[j]).ncols()
                        == weights@[j + 1].nrows(),
            decreases weights@.len() - i,
        {
            let w = &weights[i];
            let b = &biases[i];
            if !w.is_wf() {
                return false;
            }
            if !b.is_wf() || b.rows() != 1 || b.cols() != w.cols() {
                return false;
            }
            if i + 1 < weights.len() && w.cols() != weights[i + 1].rows() {
                return false;
            }
            i = i + 1;
        }
        proof {
            assert forall|j: int| 0 <= j < weights@.len() implies {
                &&& (#[trigger] weights@[j]).wf()
                &&& biases@[j].wf()
                &&& biases@[j].nrows() == 1
                &&& biases@[j].ncols() == weights@[j].ncols()
            } by {
                assert(weights@[j].wf());
            }
        }
        true
    }
}

impl<T: Copy> NeuralNetwork<T> {
    /// A network with the given layers, from the input layer to the output
    /// layer, each with its activation. Between layers `i` and `i + 1` the
    /// weights form a `layers[i].0 x layers[i + 1].0` matrix and the biases
    /// a `1 x layers[i + 1].0` row; all their elements are drawn from
    /// `sample`, first every weight matrix, then every bias row.
    pub fn new<F: Fn() -> T>(
        layers: &[(usize, Activation)],
        loss_function: LossFunction,
        optimization: Optimization<T>,
        loss: T,
        sample: F,
    ) -> (nn: Self)
        requires
            call_requires(sample, ()),
            forall|i: int| 0 <= i < layers@.len() - 1 ==> #[trigger] layers@[i].0 * layers@[i + 1].0 <= usize::MAX,
        ensures
            nn.wf(),
            nn.activation_seq() == layers@.map_values(|l: (usize, Activation)| l.1),
            nn.weight_seq().len() == weight_count(layers@.len()),
            forall|i: int|
                0 <= i < nn.weight_seq().len() ==> {
                    &&& (#[trigger] nn.weight_seq()[i]).nrows() == layers@[i].0
                    &&& nn.weight_seq()[i].ncols() == layers@[i + 1].0
                    &&& nn.bias_seq()[i].ncols() == layers@[i + 1].0
                    &&& forall|k: int|
                        0 <= k < nn.weight_seq()[i].entries().len() ==> call_ensures(
                            sample,
                            (),
                            #[trigger] nn.weight_seq()[i].entries()[k],
                        )
                    &&& forall|k: int|
                        0 <= k < nn.bias_seq()[i].entries().len() ==> call_ensures(
                            sample,
                            (),
                            #[trigger] nn.bias_seq()[i].entries()[k],
                        )
                },
            nn.loss_fn() == loss_function,
            nn.optimizer() == optimization,
            nn.current_loss() == loss,
    {
        let n = layers.len();
        let count = if n == 0 {
            0
        } else {
            n - 1
        };
        let mut activation: Vec<Activation> = Vec::with_capacity(n);
        let mut i: usize = 0;
        while i < n
            invariant
                i <= n,
                n == layers@.len(),
                activation@ == layers@.take(i as int).map_values(|l: (usize, Activation)| l.1),
            decreases n - i,
        {
            activation.push(layers[i].1);
            i = i + 1;
            proof {
                assert(layers@.take(i as int).drop_last() =~= layers@.take(i - 1));
            }
        }
        proof {
            assert(layers@.take(n as int) =~= layers@);
        }
        let mut weights: Vec<Matrix<T>> = Vec::with_capacity(count);
        let mut j: usize = 0;
        while j < count
            invariant
                j <= count,
                count == weight_count(n as nat),
                n == layers@.len(),
                call_requires(sample, ()),
                forall|i: int| 0 <= i < layers@.len() - 1 ==> #[trigger] layers@[i].0 * layers@[i + 1].0 <= usize::MAX,
                weights@.len() == j,
                forall|i: int|
                    0 <= i < j ==> {
                        &&& (#[trigger] weights@[i]).wf()
                        &&& weights@[i].nrows() == layers@[i].0
                        &&& weights@[i].ncols() == layers@[i + 1].0
                        &&& forall|k: int|
                            0 <= k < weights@[i].entries().len() ==> call_ensures(
                                sample,
                                (),
                                #[trigger] weights@[i].entries()[k],
                            )
                    },
            decreases count - j,
        {
            let w = Matrix::rand(layers[j].0, layers[j + 1].0, &sample);
            weights.push(w);
            j = j + 1;
        }
        let mut biases: Vec<Matrix<T>> = Vec::with_capacity(count);
        let mut j: usize = 0;
        while j < count
            invariant
                j <= count,
                count == weight_count(n as nat),
                n == layers@.len(),
                call_requires(sample, ()),
                biases@.len() == j,
                forall|i: int|
                    0 <= i < j ==> {
                        &&& (#[trigger] biases@[i]).wf()
                        &&& biases@[i].nrows() == 1
                        &&& biases@[i].ncols() == layers@[i + 1].0
                        &&& forall|k: int|
                            0 <= k < biases@[i].entries().len() ==> call_ensures(
                                sample,
                                (),
                                #[trigger] biases@[i].entries()[k],
                            )
                    },
            decreases count - j,
        {
            assert(1 * layers@[j + 1].0 == layers@[j + 1].0);
            let b = Matrix::rand(1, layers[j + 1].0, &sample);
            biases.push(b);
            j = j + 1;
        }
        NeuralNetwork { weights, biases, activation, loss_function, optimization, loss }
    }

    /// Prepares the caches of the optimization method for the current
    /// weights and biases (see `Optimization::init_cache`).
    pub fn init_optimization_cache(&mut self, zero: T)
        requires
            forall|i: int| 0 <= i < old(self).weight_seq().len() ==> (#[trigger] old(self).weight_seq()[i]).wf(),
            forall|i: int| 0 <= i < old(self).bias_seq().len() ==> (#[trigger] old(self).bias_seq()[i]).wf(),
        ensures
            final(self).weight_seq() == old(self).weight_seq(),
            final(self).bias_seq() == old(self).bias_seq(),
            final(self).activation_seq() == old(self).activation_seq(),
            final(self).loss_fn() == old(self).loss_fn(),
            final(self).current_loss() == old(self).current_loss(),
            old(self).optimizer() is RmsProp ==> {
                &&& final(self).optimizer() is RmsProp
                &&& final(self).optimizer()->RmsProp_lr == old(self).optimizer()->RmsProp_lr
                &&& final(self).optimizer()->rho == old(self).optimizer()->rho
                &&& final(self).optimizer()->eps == old(self).optimizer()->eps
                &&& zeroed_like(final(self).optimizer()->wc@, old(self).weight_seq(), zero)
                &&& zeroed_like(final(self).optimizer()->bc@, old(self).bias_seq(), zero)
            },
            !(old(self).optimizer() is RmsProp) ==> final(self).optimizer() == old(self).optimizer(),
            caches_fit(final(self).optimizer(), final(self).weight_seq(), final(self).bias_seq()),
            old(self).same_architecture(*final(self)),
    {
        proof {
            assert forall|i: int| 0 <= i < self.weights@.len() implies (#[trigger] self.weights@[i]).wf() by {
                assert(self.weight_seq()[i].wf());
            }
            assert forall|i: int| 0 <= i < self.biases@.len() implies (#[trigger] self.biases@[i]).wf() by {
                assert(self.bias_seq()[i].wf());
            }
        }
        self.optimization.init_cache(&self.weights, &self.biases, zero);
    }

    /// Subtracts the updates from the parameters of layer `i`:
    /// `weights[i] -= wg` and `biases[i] -= bg`, element by element with
    /// `minus`. Every shape stays as it was.
    pub fn apply_gradients<S: Fn(&T, &T) -> T>(&mut self, i: usize, wg: &Matrix<T>, bg: &Matrix<T>, minus: S)
        requires
            old(self).wf(),
            i < old(self).weight_seq().len(),
            wg.wf(),
            bg.wf(),
            wg.same_shape(&old(self).weight_seq()[i as int]),
            bg.same_shape(&old(self).bias_seq()[i as int]),
            forall|x: T, y: T| call_requires(minus, (&x, &y)),
        ensures
            final(self).wf(),
            final(self).weight_seq().len() == old(self).weight_seq().len(),
            final(self).bias_seq().len() == old(self).bias_seq().len(),
            forall|j: int|
                0 <= j < old(self).weight_seq().len() && j != i ==> #[trigger] final(self).weight_seq()[j]
                    == old(self).weight_seq()[j],
            forall|j: int|
                0 <= j < old(self).bias_seq().len() && j != i ==> #[trigger] final(self).bias_seq()[j]
                    == old(self).bias_seq()[j],
            zipped(final(self).weight_seq()[i as int], old(self).weight_seq()[i as int], *wg, minus),
            zipped(final(self).bias_seq()[i as int], old(self).bias_seq()[i as int], *bg, minus),
            old(self).same_architecture(*final(self)),
            final(self).activation_seq() == old(self).activation_seq(),
            final(self).loss_fn() == old(self).loss_fn(),
            final(self).optimizer() == old(self).optimizer(),
            final(self).current_loss() == old(self).current_loss(),
    {
        let nw = self.weights[i].zip(wg, &minus);
        let nb = self.biases[i].zip(bg, &minus);
        self.weights.set(i, nw);
        self.biases.set(i, nb);
    }
}

/// `s` is `x * w + b`: the matrix product of `x` and `w` (products by
/// `times`, summed from `zero` by `plus`) with `b` added element by element
/// by `plus`.
pub open spec fn affine<T, M: Fn(&T, &T) -> T, A: Fn(&T, &T) -> T>(
    s: Matrix<T>,
    x: Matrix<T>,
    w: Matrix<T>,
    b: Matrix<T>,
    zero: T,
    times: M,
    plus: A,
) -> bool {
    exists|p: Matrix<T>|
        #![trigger product_of(p, x, w, zero, times, plus)]
        product_of(p, x, w, zero, times, plus) && zipped(s, p, b, plus)
}

/// `activate` takes any activation and well-formed matrix and returns a
/// well-formed matrix of the same shape.
pub open spec fn keeps_shape<T, G: Fn(Activation, &Matrix<T>) -> Matrix<T>>(activate: G) -> bool {
    &&& forall|a: Activation, m: Matrix<T>| m.wf() ==> call_requires(activate, (a, &m))
    &&& forall|a: Activation, m: Matrix<T>, r: Matrix<T>|
        m.wf() && #[trigger] call_ensures(activate, (a, &m), r) ==> r.wf() && r.same_shape(&m)
}

impl<T> NeuralNetwork<T> {
    /// `pre` and `post` record a forward pass from `input`: `post[0]` is the
    /// input, and for each layer `i`, `pre[i] = post[i] * weights[i] +
    /// biases[i]` and `post[i + 1]` is what `activate(activation[i],
    /// &pre[i])` returned.
    pub open spec fn forward_chain<M: Fn(&T, &T) -> T, A: Fn(&T, &T) -> T, G: Fn(Activation, &Matrix<T>) -> Matrix<T>>(
        &self,
        input: Matrix<T>,
        pre: Seq<Matrix<T>>,
        post: Seq<Matrix<T>>,
        zero: T,
        times: M,
        plus: A,
        activate: G,
    ) -> bool {
        &&& pre.len() == self.weight_seq().len()
        &&& post.len() == self.weight_seq().len() + 1
        &&& post[0].same_as(&input)
        &&& forall|i: int|
            0 <= i < self.weight_seq().len() ==> {
                &&& affine(#[trigger] pre[i], post[i], self.weight_seq()[i], self.bias_seq()[i], zero, times, plus)
                &&& call_ensures(activate, (self.activation_seq()[i], &pre[i]), post[i + 1])
            }
    }

    /// The shape of the input the network takes: a `1 x n` row with `n` the
    /// size of the input layer. A network without weights passes any input
    /// through as it is.
    pub open spec fn fits_input(&self, input: Matrix<T>) -> bool {
        &&& input.wf()
        &&& self.weight_seq().len() > 0 ==> input.nrows() == 1
        &&& self.weight_seq().len() > 0 ==> input.ncols() == self.weight_seq()[0].nrows()
    }
}

impl<T: Copy> NeuralNetwork<T> {
    /// Runs `input` through the layers, keeping every intermediate result:
    /// for each layer the values before activation (`.0`) and, starting with
    /// the input, the values after activation (`.1`). Products use `times`,
    /// sums start at `zero` and use `plus`, and `activate` applies an
    /// activation to a matrix.
    pub fn forward_propagation<
        M: Fn(&T, &T) -> T + Copy,
        A: Fn(&T, &T) -> T + Copy,
        G: Fn(Activation, &Matrix<T>) -> Matrix<T>,
    >(
        &self,
        input: &Matrix<T>,
        zero: T,
        times: M,
        plus: A,
        activate: G,
    ) -> (res: (Vec<Matrix<T>>, Vec<Matrix<T>>))
        requires
            self.wf(),
            self.fits_input(*input),
            forall|x: T, y: T| call_requires(times, (&x, &y)),
            forall|x: T, y: T| call_requires(plus, (&x, &y)),
            keeps_shape(activate),
        ensures
            self.forward_chain(*input, res.0@, res.1@, zero, times, plus, activate),
            forall|i: int|
                0 <= i < res.1@.len() ==> (#[trigger] res.1@[i]).wf() && (self.weight_seq().len() > 0
                    ==> res.1@[i].nrows() == 1),
            forall|i: int|
                0 <= i < self.weight_seq().len() ==> (#[trigger] res.1@[i + 1]).ncols()
                    == self.weight_seq()[i].ncols(),
            forall|i: int|
                0 <= i < self.weight_seq().len() ==> (#[trigger] res.1@[i]).ncols() == self.weight_seq()[i].nrows(),
            forall|i: int|
                0 <= i < self.weight_seq().len() ==> {
                    &&& (#[trigger] res.0@[i]).wf()
                    &&& res.0@[i].nrows() == 1
                    &&& res.0@[i].ncols() == self.weight_seq()[i].ncols()
                },
    {
        let n = self.weights.len();
        let mut pre: Vec<Matrix<T>> = Vec::with_capacity(n);
        let mut post: Vec<Matrix<T>> = Vec::new();
        post.push(input.clone());
        let mut i: usize = 0;
        while i < n
            invariant
                i <= n,
                n == self.weight_seq().len(),
                self.wf(),
                self.fits_input(*input),
                forall|x: T, y: T| call_requires(times, (&x, &y)),
                forall|x: T, y: T| call_requires(plus, (&x, &y)),
                keeps_shape(activate),
                pre@.len() == i,
                post@.len() == i + 1,
                post@[0].same_as(input),
                forall|j: int| 0 <= j <= i ==> (#[trigger] post@[j]).wf() && (n > 0 ==> post@[j].nrows() == 1),
                forall|j: int| 0 <= j < i ==> (#[trigger] post@[j + 1]).ncols() == self.weight_seq()[j].ncols(),
                i < n ==> post@[i as int].ncols() == self.weight_seq()[i as int].nrows(),
                forall|j: int| 0 <= j < i ==> (#[trigger] post@[j]).ncols() == self.weight_seq()[j].nrows(),
                forall|j: int|
                    0 <= j < i ==> {
                        &&& (#[trigger] pre@[j]).wf()
                        &&& pre@[j].nrows() == 1
                        &&& pre@[j].ncols() == self.weight_seq()[j].ncols()
                    },
                forall|j: int|
                    0 <= j < i ==> {
                        &&& affine(#[trigger] pre@[j], post@[j], self.weight_seq()[j], self.bias_seq()[j], zero, times, plus)
                        &&& call_ensures(activate, (self.activation_seq()[j], &pre@[j]), post@[j + 1])
                    },
            decreases n - i,
        {
            let ghost w = self.weight_seq()[i as int];
            let ghost b = self.bias_seq()[i as int];
            proof {
                w.lemma_dims_bounded();
                assert(1 * w.ncols() == w.ncols());
            }
            let p = post[i].dot_mul(&self.weights[i], zero, times, plus);
            let s = p.zip(&self.biases[i], plus);
            proof {
                assert(product_of(p, post@[i as int], w, zero, times, plus));
            }
            pre.push(s);
            let a = activate(self.activation[i], &pre[i]);
            post.push(a);
            proof {
                if i + 1 < n {
                    assert(self.weight_seq()[i as int].ncols() == self.weight_seq()[i + 1].nrows());
                }
            }
            i = i + 1;
        }
        (pre, post)
    }
}

/// The gradients of one layer in back propagation. With `error` the
/// gradient of the loss with respect to the layer's activated output,
/// `deriv` the activation's derivative at the layer's values before
/// activation, `input` the row the layer received and `w` its weights:
/// `activated = error ∘ deriv` (element by element with `times`),
/// `weights = inputᵀ * activated`, `biases` sums the columns of
/// `activated`, and `next = activated * wᵀ` is the error passed on to the
/// layer before.
pub open spec fn layer_gradients_of<T, M: Fn(&T, &T) -> T, A: Fn(&T, &T) -> T>(
    weights: Matrix<T>,
    biases: Matrix<T>,
    next: Matrix<T>,
    error: Matrix<T>,
    deriv: Matrix<T>,
    input: Matrix<T>,
    w: Matrix<T>,
    zero: T,
    times: M,
    plus: A,
) -> bool {
    exists|activated: Matrix<T>, input_t: Matrix<T>, w_t: Matrix<T>|
        #![trigger zipped(activated, error, deriv, times), input_t.is_transpose_of(&input), w_t.is_transpose_of(&w)]
        {
            &&& zipped(activated, error, deriv, times)
            &&& input_t.wf()
            &&& input_t.is_transpose_of(&input)
            &&& product_of(weights, input_t, activated, zero, times, plus)
            &&& column_sums(biases, activated, zero, plus)
            &&& w_t.wf()
            &&& w_t.is_transpose_of(&w)
            &&& product_of(next, activated, w_t, zero, times, plus)
        }
}

impl<T: Copy> NeuralNetwork<T> {
    /// The output row for `input`: the last result of a forward pass (see
    /// `forward_propagation`).
    pub fn guess<
        M: Fn(&T, &T) -> T + Copy,
        A: Fn(&T, &T) -> T + Copy,
        G: Fn(Activation, &Matrix<T>) -> Matrix<T>,
    >(&self, input: &Matrix<T>, zero: T, times: M, plus: A, activate: G) -> (out: Matrix<T>)
        requires
            self.wf(),
            self.fits_input(*input),
            forall|x: T, y: T| call_requires(times, (&x, &y)),
            forall|x: T, y: T| call_requires(plus, (&x, &y)),
            keeps_shape(activate),
        ensures
            exists|pre: Seq<Matrix<T>>, post: Seq<Matrix<T>>|
                #[trigger] self.forward_chain(*input, pre, post, zero, times, plus, activate) && out == post.last(),
            out.wf(),
            self.weight_seq().len() == 0 ==> out.same_as(input),
            self.weight_seq().len() > 0 ==> out.nrows() == 1,
            self.weight_seq().len() > 0 ==> out.ncols() == self.weight_seq().last().ncols(),
    {
        let (pre, mut post) = self.forward_propagation(input, zero, times, plus, activate);
        let ghost all_post = post@;
        let out = match post.pop() {
            Some(m) => m,
            None => input.clone(),
        };
        proof {
            assert(self.forward_chain(*input, pre@, all_post, zero, times, plus, activate));
            if self.weight_seq().len() > 0 {
                let l = self.weight_seq().len() - 1;
                assert(all_post[l + 1].ncols() == self.weight_seq()[l].ncols());
            }
        }
        out
    }

    /// The gradients of layer `i` (see `layer_gradients_of`): returns the
    /// weight gradient, shaped like the layer's weights, the bias gradient,
    /// shaped like its biases, and the error for layer `i - 1`, a row as
    /// long as the layer's input.
    pub fn layer_gradients<M: Fn(&T, &T) -> T + Copy, A: Fn(&T, &T) -> T + Copy>(
        &self,
        i: usize,
        error: &Matrix<T>,
        deriv: &Matrix<T>,
        input: &Matrix<T>,
        zero: T,
        times: M,
        plus: A,
    ) -> (g: (Matrix<T>, Matrix<T>, Matrix<T>))
        requires
            self.wf(),
            i < self.weight_seq().len(),
            error.wf(),
            error.nrows() == 1,
            error.ncols() == self.weight_seq()[i as int].ncols(),
            deriv.wf(),
            deriv.same_shape(error),
            input.wf(),
            input.nrows() == 1,
            input.ncols() == self.weight_seq()[i as int].nrows(),
            forall|x: T, y: T| call_requires(times, (&x, &y)),
            forall|x: T, y: T| call_requires(plus, (&x, &y)),
        ensures
            layer_gradients_of(g.0, g.1, g.2, *error, *deriv, *input, self.weight_seq()[i as int], zero, times, plus),
            g.0.wf(),
            g.0.same_shape(&self.weight_seq()[i as int]),
            g.1.wf(),
            g.1.same_shape(&self.bias_seq()[i as int]),
            g.2.wf(),
            g.2.nrows() == 1,
            g.2.ncols() == self.weight_seq()[i as int].nrows(),
    {
        let ghost w = self.weight_seq()[i as int];
        proof {
            w.lemma_dims_bounded();
            assert(w.wf());
            assert(w.entries().len() == w.nrows() * w.ncols());
            assert(w.nrows() * 1 == w.nrows());
            assert(1 * w.nrows() == w.nrows());
        }
        let activated = error.zip(deriv, times);
        let input_t = input.transpose();
        let weights = input_t.dot_mul(&activated, zero, times, plus);
        let biases = activated.sum_over_rows(zero, plus);
        let w_t = self.weights[i].transpose();
        let next = activated.dot_mul(&w_t, zero, times, plus);
        proof {
            assert(zipped(activated, *error, *deriv, times));
            assert(input_t.is_transpose_of(input));
            assert(w_t.is_transpose_of(&w));
        }
        (weights, biases, next)
    }
}

impl<T> NeuralNetwork<T> {
    /// Back propagation through layer `i`: with `error_out` the error at
    /// the layer's output, the derivative `deriv` of the layer's activation
    /// at `pre` gives the gradients `wg`, `bg` and the error `error_in`
    /// passed back (see `layer_gradients_of`), with `post` the layer's input.
    pub open spec fn backward_step<M: Fn(&T, &T) -> T, A: Fn(&T, &T) -> T, D: Fn(Activation, &Matrix<T>) -> Matrix<T>>(
        &self,
        i: int,
        pre: Matrix<T>,
        post: Matrix<T>,
        error_out: Matrix<T>,
        error_in: Matrix<T>,
        wg: Matrix<T>,
        bg: Matrix<T>,
        zero: T,
        times: M,
        plus: A,
        deriv: D,
    ) -> bool {
        exists|d: Matrix<T>|
            #![trigger call_ensures(deriv, (self.activation_seq()[i], &pre), d)]
            call_ensures(deriv, (self.activation_seq()[i], &pre), d) && layer_gradients_of(
                wg,
                bg,
                error_in,
                error_out,
                d,
                post,
                self.weight_seq()[i],
                zero,
                times,
                plus,
            )
    }

    /// `pre` and `post` have the shapes a forward pass gives (see
    /// `forward_propagation`) and `error` is a row as long as the output
    /// (any well-formed matrix, with no weights).
    pub open spec fn fits_backward(&self, pre: Seq<Matrix<T>>, post: Seq<Matrix<T>>, error: Matrix<T>) -> bool {
        &&& pre.len() == self.weight_seq().len()
        &&& post.len() == self.weight_seq().len() + 1
        &&& forall|i: int|
            0 <= i < self.weight_seq().len() ==> {
                &&& (#[trigger] post[i]).wf()
                &&& post[i].nrows() == 1
                &&& post[i].ncols() == self.weight_seq()[i].nrows()
                &&& pre[i].wf()
                &&& pre[i].nrows() == 1
                &&& pre[i].ncols() == self.weight_seq()[i].ncols()
            }
        &&& error.wf()
        &&& self.weight_seq().len() > 0 ==> error.nrows() == 1
        &&& self.weight_seq().len() > 0 ==> error.ncols() == self.weight_seq().last().ncols()
    }
}

impl<T: Copy> NeuralNetwork<T> {
    /// Back propagation of `error`, the gradient of the loss at the output,
    /// through all layers, last layer first, given the values `pre` and
    /// `post` of a forward pass. Element `k` of the result holds the weight
    /// and bias gradients of layer `n - 1 - k`, `n` being the number of
    /// weight matrices: the order in which back propagation reaches them.
    /// The error at the output of each layer is the one passed back by the
    /// layer after it; `deriv` gives the derivative of an activation.
    pub fn gradients<
        M: Fn(&T, &T) -> T + Copy,
        A: Fn(&T, &T) -> T + Copy,
        D: Fn(Activation, &Matrix<T>) -> Matrix<T>,
    >(
        &self,
        pre: &Vec<Matrix<T>>,
        post: &Vec<Matrix<T>>,
        error: Matrix<T>,
        zero: T,
        times: M,
        plus: A,
        deriv: D,
    ) -> (g: Vec<(Matrix<T>, Matrix<T>)>)
        requires
            self.wf(),
            self.fits_backward(pre@, post@, error),
            forall|x: T, y: T| call_requires(times, (&x, &y)),
            forall|x: T, y: T| call_requires(plus, (&x, &y)),
            keeps_shape(deriv),
        ensures
            g@.len() == self.weight_seq().len(),
            exists|errors: Seq<Matrix<T>>|
                {
                    &&& errors.len() == self.weight_seq().len() + 1
                    &&& errors.last() == error
                    &&& forall|i: int|
                        0 <= i < self.weight_seq().len() ==> #[trigger] self.backward_step(
                            i,
                            pre@[i],
                            post@[i],
                            errors[i + 1],
                            errors[i],
                            g@[self.weight_seq().len() - 1 - i].0,
                            g@[self.weight_seq().len() - 1 - i].1,
                            zero,
                            times,
                            plus,
                            deriv,
                        )
                },
            forall|k: int|
                0 <= k < g@.len() ==> {
                    &&& (#[trigger] g@[k]).0.wf()
                    &&& g@[k].0.same_shape(&self.weight_seq()[g@.len() - 1 - k])
                    &&& g@[k].1.wf()
                    &&& g@[k].1.same_shape(&self.bias_seq()[g@.len() - 1 - k])
                },
    {
        let n = self.weights.len();
        let mut g: Vec<(Matrix<T>, Matrix<T>)> = Vec::with_capacity(n);
        let ghost mut errors: Seq<Matrix<T>> = Seq::new((n + 1) as nat, |j: int| error);
        let mut err = error;
        let mut k: usize = 0;
        while k < n
            invariant
                k <= n,
                n == self.weight_seq().len(),
                self.wf(),
                self.fits_backward(pre@, post@, error),
                forall|x: T, y: T| call_requires(times, (&x, &y)),
                forall|x: T, y: T| call_requires(plus, (&x, &y)),
                keeps_shape(deriv),
                g@.len() == k,
                errors.len() == n + 1,
                errors.last() == error,
                errors[n - k] == err,
                err.wf(),
                n > 0 ==> err.nrows() == 1,
                k < n ==> err.ncols() == self.weight_seq()[n - 1 - k].ncols(),
                forall|i: int|
                    n - k <= i < n ==> #[trigger] self.backward_step(
                        i,
                        pre@[i],
                        post@[i],
                        errors[i + 1],
                        errors[i],
                        g@[n - 1 - i].0,
                        g@[n - 1 - i].1,
                        zero,
                        times,
                        plus,
                        deriv,
                    ),
                forall|j: int|
                    0 <= j < k ==> {
                        &&& (#[trigger] g@[j]).0.wf()
                        &&& g@[j].0.same_shape(&self.weight_seq()[n - 1 - j])
                        &&& g@[j].1.wf()
                        &&& g@[j].1.same_shape(&self.bias_seq()[n - 1 - j])
                    },
            decreases n - k,
        {
            let i = n - 1 - k;
            proof {
                assert(post@[i as int].wf());
                assert(self.weight_seq()[i as int].wf());
            }
            let d = deriv(self.activation[i], &pre[i]);
            let (wg, bg, next) = self.layer_gradients(i, &err, &d, &post[i], zero, times, plus);
            proof {
                let w = self.weight_seq()[i as int];
                lemma_gradients_fit(wg, bg, next, err, d, post@[i as int], w, zero, times, plus);
                let old_errors = errors;
                errors = errors.update(i as int, next);
                assert(self.backward_step(
                    i as int,
                    pre@[i as int],
                    post@[i as int],
                    errors[i + 1],
                    errors[i as int],
                    wg,
                    bg,
                    zero,
                    times,
                    plus,
                    deriv,
                ));
                if i > 0 {
                    assert(self.weight_seq()[i - 1].ncols() == self.weight_seq()[i as int].nrows());
                }
            }
            g.push((wg, bg));
            err = next;
            k = k + 1;
        }
        g
    }
}

impl<T> NeuralNetwork<T> {
    /// `after` is `self` after one back propagation of `error` through the
    /// forward pass `pre`, `post`: `errors[i + 1]` is the error at the
    /// output of layer `i`, the last one being `error`; `grads[i]` are the
    /// weight and bias gradients of layer `i` (see `backward_step`);
    /// `updates[i]` is what the optimization method made of them (see
    /// `layer_update`); and each weight matrix and bias row of `after` is
    /// the one of `self` minus its update, element by element with `minus`.
    pub open spec fn backward_pass<
        M: Fn(&T, &T) -> T,
        A: Fn(&T, &T) -> T,
        D: Fn(Activation, &Matrix<T>) -> Matrix<T>,
        S: Fn(&T, &T) -> T,
        U: Fn(&T, &T, &T) -> T,
        Q: Fn(&T, &T, &T, &T) -> T,
        R: Fn(&T, &T) -> T,
    >(
        &self,
        after: Self,
        pre: Seq<Matrix<T>>,
        post: Seq<Matrix<T>>,
        error: Matrix<T>,
        errors: Seq<Matrix<T>>,
        grads: Seq<(Matrix<T>, Matrix<T>)>,
        updates: Seq<(Matrix<T>, Matrix<T>)>,
        zero: T,
        times: M,
        plus: A,
        deriv: D,
        scale: S,
        decay: U,
        step: Q,
        minus: R,
    ) -> bool {
        &&& errors.len() == self.weight_seq().len() + 1
        &&& errors.last() == error
        &&& grads.len() == self.weight_seq().len()
        &&& updates.len() == self.weight_seq().len()
        &&& forall|i: int|
            0 <= i < self.weight_seq().len() ==> {
                &&& self.backward_step(
                    i,
                    pre[i],
                    post[i],
                    errors[i + 1],
                    errors[i],
                    (#[trigger] grads[i]).0,
                    grads[i].1,
                    zero,
                    times,
                    plus,
                    deriv,
                )
                &&& layer_update(
                    self.optimizer(),
                    after.optimizer(),
                    i,
                    grads[i].0,
                    grads[i].1,
                    updates[i].0,
                    updates[i].1,
                    scale,
                    decay,
                    step,
                )
                &&& zipped(after.weight_seq()[i], self.weight_seq()[i], updates[i].0, minus)
                &&& zipped(after.bias_seq()[i], self.bias_seq()[i], updates[i].1, minus)
            }
    }
}

impl<T: Copy> NeuralNetwork<T> {
    /// Updates layer `i` with its gradients `wg`, `bg`: the optimization
    /// method turns them into updates (see `Optimization::optimize`), which
    /// are subtracted from the layer's weights and biases with `minus`.
    /// Returns the updates.
    fn update_layer<
        S: Fn(&T, &T) -> T + Copy,
        U: Fn(&T, &T, &T) -> T + Copy,
        Q: Fn(&T, &T, &T, &T) -> T + Copy,
        R: Fn(&T, &T) -> T + Copy,
    >(&mut self, i: usize, wg: &Matrix<T>, bg: &Matrix<T>, scale: S, decay: U, step: Q, minus: R) -> (r: (
        Matrix<T>,
        Matrix<T>,
    ))
        requires
            old(self).wf(),
            i < old(self).weight_seq().len(),
            wg.wf(),
            bg.wf(),
            wg.same_shape(&old(self).weight_seq()[i as int]),
            bg.same_shape(&old(self).bias_seq()[i as int]),
            caches_fit(old(self).optimizer(), old(self).weight_seq(), old(self).bias_seq()),
            forall|x: T, y: T| call_requires(scale, (&x, &y)),
            forall|x: T, y: T, z: T| call_requires(decay, (&x, &y, &z)),
            forall|x: T, y: T, z: T, w: T| call_requires(step, (&x, &y, &z, &w)),
            forall|x: T, y: T| call_requires(minus, (&x, &y)),
        ensures
            final(self).wf(),
            old(self).same_architecture(*final(self)),
            caches_kept(old(self).optimizer(), final(self).optimizer(), i as int),
            caches_fit(final(self).optimizer(), final(self).weight_seq(), final(self).bias_seq()),
            final(self).current_loss() == old(self).current_loss(),
            forall|j: int|
                0 <= j < old(self).weight_seq().len() && j != i ==> #[trigger] final(self).weight_seq()[j]
                    == old(self).weight_seq()[j],
            forall|j: int|
                0 <= j < old(self).bias_seq().len() && j != i ==> #[trigger] final(self).bias_seq()[j]
                    == old(self).bias_seq()[j],
            layer_update(old(self).optimizer(), final(self).optimizer(), i as int, *wg, *bg, r.0, r.1, scale, decay, step),
            zipped(final(self).weight_seq()[i as int], old(self).weight_seq()[i as int], r.0, minus),
            zipped(final(self).bias_seq()[i as int], old(self).bias_seq()[i as int], r.1, minus),
    {
        let (uw, ub) = self.optimization.optimize(i, wg, bg, scale, decay, step);
        self.apply_gradients(i, &uw, &ub, minus);
        (uw, ub)
    }

    /// One training step on the forward pass `pre`, `post` (see
    /// `forward_propagation`), `error` being the gradient of the loss at
    /// the output: the gradients of every layer (see `gradients`), each
    /// turned into updates by the optimization method (see
    /// `Optimization::optimize`) and subtracted from the layer's weights and
    /// biases with `minus`, last layer first. The error passed back through
    /// a layer uses its weights from before the step. The architecture, the
    /// settings of the optimization method and the recorded loss stay as
    /// they were.
    pub fn backward_propagation<
        M: Fn(&T, &T) -> T + Copy,
        A: Fn(&T, &T) -> T + Copy,
        D: Fn(Activation, &Matrix<T>) -> Matrix<T>,
        S: Fn(&T, &T) -> T + Copy,
        U: Fn(&T, &T, &T) -> T + Copy,
        Q: Fn(&T, &T, &T, &T) -> T + Copy,
        R: Fn(&T, &T) -> T + Copy,
    >(
        &mut self,
        pre: &Vec<Matrix<T>>,
        post: &Vec<Matrix<T>>,
        error: Matrix<T>,
        zero: T,
        times: M,
        plus: A,
        deriv: D,
        scale: S,
        decay: U,
        step: Q,
        minus: R,
    )
        requires
            old(self).wf(),
            old(self).fits_backward(pre@, post@, error),
            caches_fit(old(self).optimizer(), old(self).weight_seq(), old(self).bias_seq()),
            forall|x: T, y: T| call_requires(times, (&x, &y)),
            forall|x: T, y: T| call_requires(plus, (&x, &y)),
            keeps_shape(deriv),
            forall|x: T, y: T| call_requires(scale, (&x, &y)),
            forall|x: T, y: T, z: T| call_requires(decay, (&x, &y, &z)),
            forall|x: T, y: T, z: T, w: T| call_requires(step, (&x, &y, &z, &w)),
            forall|x: T, y: T| call_requires(minus, (&x, &y)),
        ensures
            final(self).wf(),
            old(self).same_architecture(*final(self)),
            same_settings(old(self).optimizer(), final(self).optimizer()),
            caches_fit(final(self).optimizer(), final(self).weight_seq(), final(self).bias_seq()),
            final(self).current_loss() == old(self).current_loss(),
            exists|errors: Seq<Matrix<T>>, grads: Seq<(Matrix<T>, Matrix<T>)>, updates: Seq<(Matrix<T>, Matrix<T>)>|
                #[trigger] old(self).backward_pass(
                    *final(self),
                    pre@,
                    post@,
                    error,
                    errors,
                    grads,
                    updates,
                    zero,
                    times,
                    plus,
                    deriv,
                    scale,
                    decay,
                    step,
                    minus,
                ),
    {
        let ghost start = *self;
        let g = self.gradients(pre, post, error, zero, times, plus, deriv);
        let n = self.weights.len();
        let ghost mut updates: Seq<(Matrix<T>, Matrix<T>)> = Seq::new(n as nat, |j: int| (error, error));
        let mut k: usize = 0;
        while k < n
            invariant
                k <= n,
                n == start.weight_seq().len(),
                g@.len() == n,
                forall|j: int|
                    0 <= j < n ==> {
                        &&& (#[trigger] g@[j]).0.wf()
                        &&& g@[j].0.same_shape(&start.weight_seq()[n - 1 - j])
                        &&& g@[j].1.wf()
                        &&& g@[j].1.same_shape(&start.bias_seq()[n - 1 - j])
                    },
                forall|x: T, y: T| call_requires(scale, (&x, &y)),
                forall|x: T, y: T, z: T| call_requires(decay, (&x, &y, &z)),
                forall|x: T, y: T, z: T, w: T| call_requires(step, (&x, &y, &z, &w)),
                forall|x: T, y: T| call_requires(minus, (&x, &y)),
                self.wf(),
                start.same_architecture(*self),
                self.current_loss() == start.current_loss(),
                caches_fit(self.optimizer(), self.weight_seq(), self.bias_seq()),
                same_settings(start.optimizer(), self.optimizer()),
                !(start.optimizer() is RmsProp) ==> self.optimizer() == start.optimizer(),
                updates.len() == n,
                forall|j: int| 0 <= j < n - k ==> #[trigger] self.weight_seq()[j] == start.weight_seq()[j],
                forall|j: int| 0 <= j < n - k ==> #[trigger] self.bias_seq()[j] == start.bias_seq()[j],
                start.optimizer() is RmsProp ==> forall|j: int|
                    0 <= j < n - k ==> #[trigger] self.optimizer()->wc@[j] == start.optimizer()->wc@[j],
                start.optimizer() is RmsProp ==> forall|j: int|
                    0 <= j < n - k ==> #[trigger] self.optimizer()->bc@[j] == start.optimizer()->bc@[j],
                forall|j: int|
                    n - k <= j < n ==> {
                        &&& layer_update(
                            start.optimizer(),
                            self.optimizer(),
                            j,
                            g@[n - 1 - j].0,
                            g@[n - 1 - j].1,
                            (#[trigger] updates[j]).0,
                            updates[j].1,
                            scale,
                            decay,
                            step,
                        )
                        &&& zipped(self.weight_seq()[j], start.weight_seq()[j], updates[j].0, minus)
                        &&& zipped(self.bias_seq()[j], start.bias_seq()[j], updates[j].1, minus)
                    },
            decreases n - k,
        {
            let i = n - 1 - k;
            let ghost before = *self;
            proof {
                assert(self.weight_seq()[i as int] == start.weight_seq()[i as int]);
                assert(self.bias_seq()[i as int] == start.bias_seq()[i as int]);
                assert(g@[k as int].0.wf());
            }
            let (uw, ub) = self.update_layer(i, &g[k].0, &g[k].1, scale, decay, step, minus);
            proof {
                updates = updates.update(i as int, (uw, ub));
                lemma_same_architecture_trans(start, before, *self);
                let m = (n - (k + 1)) as int;
                assert forall|j: int| 0 <= j < m implies #[trigger] self.weight_seq()[j] == start.weight_seq()[j] by {
                    assert(before.weight_seq()[j] == start.weight_seq()[j]);
                }
                assert forall|j: int| 0 <= j < m implies #[trigger] self.bias_seq()[j] == start.bias_seq()[j] by {
                    assert(before.bias_seq()[j] == start.bias_seq()[j]);
                }
                if start.optimizer() is RmsProp {
                    assert forall|j: int| 0 <= j < m implies #[trigger] self.optimizer()->wc@[j]
                        == start.optimizer()->wc@[j] by {
                        assert(before.optimizer()->wc@[j] == start.optimizer()->wc@[j]);
                    }
                    assert forall|j: int| 0 <= j < m implies #[trigger] self.optimizer()->bc@[j]
                        == start.optimizer()->bc@[j] by {
                        assert(before.optimizer()->bc@[j] == start.optimizer()->bc@[j]);
                    }
                }
            }
            k = k + 1;
        }
        proof {
            let errors = choose|errors: Seq<Matrix<T>>|
                {
                    &&& errors.len() == start.weight_seq().len() + 1
                    &&& errors.last() == error
                    &&& forall|i: int|
                        0 <= i < start.weight_seq().len() ==> #[trigger] start.backward_step(
                            i,
                            pre@[i],
                            post@[i],
                            errors[i + 1],
                            errors[i],
                            g@[start.weight_seq().len() - 1 - i].0,
                            g@[start.weight_seq().len() - 1 - i].1,
                            zero,
                            times,
                            plus,
                            deriv,
                        )
                };
            let grads = Seq::new(n as nat, |j: int| g@[n - 1 - j]);
            assert(start.backward_pass(
                *self,
                pre@,
                post@,
                error,
                errors,
                grads,
                updates,
                zero,
                times,
                plus,
                deriv,
                scale,
                decay,
                step,
                minus,
            ));
        }
    }
}

impl<T> NeuralNetwork<T> {
    /// `correct` holds at least as many elements as the network's output
    /// for `input`: a row as long as the output layer, or, with no weights,
    /// the input itself. The loss compares the output with the first of
    /// them.
    pub open spec fn fits_output(&self, input: Matrix<T>, correct: Matrix<T>) -> bool {
        &&& correct.wf()
        &&& correct.entries().len() >= if self.weight_seq().len() > 0 {
            self.weight_seq().last().ncols()
        } else {
            input.entries().len()
        }
    }

    /// `after` is `self` after training on one sample: a forward pass
    /// `pre`, `post` of `input` (see `forward_chain`); `loss` what
    /// `loss_of` gives for the network's loss function, the output and
    /// `correct`; `error` what `loss_grad` gives for the same; and one back
    /// propagation of `error` (see `backward_pass`).
    pub open spec fn trained_on<
        M: Fn(&T, &T) -> T,
        A: Fn(&T, &T) -> T,
        G: Fn(Activation, &Matrix<T>) -> Matrix<T>,
        D: Fn(Activation, &Matrix<T>) -> Matrix<T>,
        L: Fn(LossFunction, &Matrix<T>, &Matrix<T>) -> T,
        E: Fn(LossFunction, &Matrix<T>, &Matrix<T>) -> Matrix<T>,
        S: Fn(&T, &T) -> T,
        U: Fn(&T, &T, &T) -> T,
        Q: Fn(&T, &T, &T, &T) -> T,
        R: Fn(&T, &T) -> T,
    >(
        &self,
        after: Self,
        input: Matrix<T>,
        correct: Matrix<T>,
        loss: T,
        zero: T,
        times: M,
        plus: A,
        activate: G,
        deriv: D,
        loss_of: L,
        loss_grad: E,
        scale: S,
        decay: U,
        step: Q,
        minus: R,
    ) -> bool {
        exists|
            pre: Seq<Matrix<T>>,
            post: Seq<Matrix<T>>,
            error: Matrix<T>,
            errors: Seq<Matrix<T>>,
            grads: Seq<(Matrix<T>, Matrix<T>)>,
            updates: Seq<(Matrix<T>, Matrix<T>)>,
        |
            #![trigger self.backward_pass(after, pre, post, error, errors, grads, updates, zero, times, plus, deriv, scale, decay, step, minus)]
            {
                &&& self.forward_chain(input, pre, post, zero, times, plus, activate)
                &&& call_ensures(loss_of, (self.loss_fn(), &post.last(), &correct), loss)
                &&& call_ensures(loss_grad, (self.loss_fn(), &post.last(), &correct), error)
                &&& self.backward_pass(
                    after,
                    pre,
                    post,
                    error,
                    errors,
                    grads,
                    updates,
                    zero,
                    times,
                    plus,
                    deriv,
                    scale,
                    decay,
                    step,
                    minus,
                )
            }
    }
}

/// `loss_of` and `loss_grad` take any loss function, a well-formed output
/// and a well-formed matrix of expected values with at least as many
/// elements, and `loss_grad` returns a well-formed matrix shaped like the
/// output.
pub open spec fn loss_fits<
    T,
    L: Fn(LossFunction, &Matrix<T>, &Matrix<T>) -> T,
    E: Fn(LossFunction, &Matrix<T>, &Matrix<T>) -> Matrix<T>,
>(loss_of: L, loss_grad: E) -> bool {
    &&& forall|f: LossFunction, o: Matrix<T>, c: Matrix<T>|
        o.wf() && c.wf() && o.entries().len() <= c.entries().len() ==> {
            &&& call_requires(loss_of, (f, &o, &c))
            &&& call_requires(loss_grad, (f, &o, &c))
        }
    &&& forall|f: LossFunction, o: Matrix<T>, c: Matrix<T>, e: Matrix<T>|
        o.wf() && c.wf() && o.entries().len() <= c.entries().len() && #[trigger] call_ensures(
            loss_grad,
            (f, &o, &c),
            e,
        ) ==> e.wf() && e.same_shape(&o)
}

impl<T: Copy> NeuralNetwork<T> {
    /// One epoch of training: for each input in turn, a forward pass (see
    /// `forward_propagation`), the loss of its output against the matching
    /// row of `correct` and the gradient of that loss (as `loss_of` and
    /// `loss_grad` give them for the network's loss function), and one back
    /// propagation (see `backward_propagation`). Returns the loss of each
    /// sample, in order. The architecture, the settings of the optimization
    /// method and the recorded loss stay as they were.
    pub fn train_epoch<
        M: Fn(&T, &T) -> T + Copy,
        A: Fn(&T, &T) -> T + Copy,
        G: Fn(Activation, &Matrix<T>) -> Matrix<T> + Copy,
        D: Fn(Activation, &Matrix<T>) -> Matrix<T> + Copy,
        L: Fn(LossFunction, &Matrix<T>, &Matrix<T>) -> T,
        E: Fn(LossFunction, &Matrix<T>, &Matrix<T>) -> Matrix<T>,
        S: Fn(&T, &T) -> T + Copy,
        U: Fn(&T, &T, &T) -> T + Copy,
        Q: Fn(&T, &T, &T, &T) -> T + Copy,
        R: Fn(&T, &T) -> T + Copy,
    >(
        &mut self,
        inputs: &[Matrix<T>],
        correct: &[Matrix<T>],
        zero: T,
        times: M,
        plus: A,
        activate: G,
        deriv: D,
        loss_of: L,
        loss_grad: E,
        scale: S,
        decay: U,
        step: Q,
        minus: R,
    ) -> (losses: Vec<T>)
        requires
            old(self).wf(),
            caches_fit(old(self).optimizer(), old(self).weight_seq(), old(self).bias_seq()),
            inputs@.len() <= correct@.len(),
            forall|i: int| 0 <= i < inputs@.len() ==> old(self).fits_input(#[trigger] inputs@[i]),
            forall|i: int| 0 <= i < inputs@.len() ==> old(self).fits_output(inputs@[i], #[trigger] correct@[i]),
            forall|x: T, y: T| call_requires(times, (&x, &y)),
            forall|x: T, y: T| call_requires(plus, (&x, &y)),
            keeps_shape(activate),
            keeps_shape(deriv),
            loss_fits(loss_of, loss_grad),
            forall|x: T, y: T| call_requires(scale, (&x, &y)),
            forall|x: T, y: T, z: T| call_requires(decay, (&x, &y, &z)),
            forall|x: T, y: T, z: T, w: T| call_requires(step, (&x, &y, &z, &w)),
            forall|x: T, y: T| call_requires(minus, (&x, &y)),
        ensures
            final(self).wf(),
            old(self).same_architecture(*final(self)),
            same_settings(old(self).optimizer(), final(self).optimizer()),
            caches_fit(final(self).optimizer(), final(self).weight_seq(), final(self).bias_seq()),
            final(self).current_loss() == old(self).current_loss(),
            losses@.len() == inputs@.len(),
            exists|states: Seq<NeuralNetwork<T>>|
                {
                    &&& states.len() == inputs@.len() + 1
                    &&& states[0] == *old(self)
                    &&& states.last() == *final(self)
                    &&& forall|i: int|
                        0 <= i < inputs@.len() ==> #[trigger] states[i].trained_on(
                            states[i + 1],
                            inputs@[i],
                            correct@[i],
                            losses@[i],
                            zero,
                            times,
                            plus,
                            activate,
                            deriv,
                            loss_of,
                            loss_grad,
                            scale,
                            decay,
                            step,
                            minus,
                        )
                },
    {
        let ghost start = *self;
        let ghost mut states: Seq<NeuralNetwork<T>> = seq![*self];
        let mut losses: Vec<T> = Vec::with_capacity(inputs.len());
        let mut i: usize = 0;
        while i < inputs.len()
            invariant
                i <= inputs@.len(),
                inputs@.len() <= correct@.len(),
                start.wf(),
                forall|j: int| 0 <= j < inputs@.len() ==> start.fits_input(#[trigger] inputs@[j]),
                forall|j: int| 0 <= j < inputs@.len() ==> start.fits_output(inputs@[j], #[trigger] correct@[j]),
                forall|x: T, y: T| call_requires(times, (&x, &y)),
                forall|x: T, y: T| call_requires(plus, (&x, &y)),
                keeps_shape(activate),
                keeps_shape(deriv),
                loss_fits(loss_of, loss_grad),
                forall|x: T, y: T| call_requires(scale, (&x, &y)),
                forall|x: T, y: T, z: T| call_requires(decay, (&x, &y, &z)),
                forall|x: T, y: T, z: T, w: T| call_requires(step, (&x, &y, &z, &w)),
                forall|x: T, y: T| call_requires(minus, (&x, &y)),
                self.wf(),
                start.same_architecture(*self),
                same_settings(start.optimizer(), self.optimizer()),
                caches_fit(self.optimizer(), self.weight_seq(), self.bias_seq()),
                self.current_loss() == start.current_loss(),
                losses@.len() == i,
                states.len() == i + 1,
                states[0] == start,
                states.last() == *self,
                forall|j: int|
                    0 <= j < i ==> #[trigger] states[j].trained_on(
                        states[j + 1],
                        inputs@[j],
                        correct@[j],
                        losses@[j],
                        zero,
                        times,
                        plus,
                        activate,
                        deriv,
                        loss_of,
                        loss_grad,
                        scale,
                        decay,
                        step,
                        minus,
                    ),
            decreases inputs@.len() - i,
        {
            let ghost before = *self;
            let ghost n = self.weight_seq().len();
            proof {
                if n > 0 {
                    assert(self.weight_seq()[0].same_shape(&start.weight_seq()[0]));
                    assert(self.weight_seq()[n - 1].same_shape(&start.weight_seq()[n - 1]));
                }
            }
            let (pre, post) = self.forward_propagation(&inputs[i], zero, times, plus, activate);
            let lf = self.loss_function;
            let last = post.len() - 1;
            proof {
                if n > 0 {
                    let m = n - 1;
                    assert(post@[m + 1].ncols() == self.weight_seq()[m].ncols());
                }
            }
            let loss = loss_of(lf, &post[last], &correct[i]);
            let error = loss_grad(lf, &post[last], &correct[i]);
            self.backward_propagation(&pre, &post, error, zero, times, plus, deriv, scale, decay, step, minus);
            losses.push(loss);
            proof {
                let (errors, grads, updates) = choose|
                    errors: Seq<Matrix<T>>,
                    grads: Seq<(Matrix<T>, Matrix<T>)>,
                    updates: Seq<(Matrix<T>, Matrix<T>)>,
                |
                    #[trigger] before.backward_pass(
                        *self,
                        pre@,
                        post@,
                        error,
                        errors,
                        grads,
                        updates,
                        zero,
                        times,
                        plus,
                        deriv,
                        scale,
                        decay,
                        step,
                        minus,
                    );
                assert(post@.last() == post@[last as int]);
                assert(before.trained_on(
                    *self,
                    inputs@[i as int],
                    correct@[i as int],
                    loss,
                    zero,
                    times,
                    plus,
                    activate,
                    deriv,
                    loss_of,
                    loss_grad,
                    scale,
                    decay,
                    step,
                    minus,
                ));
                states = states.push(*self);
                lemma_same_architecture_trans(start, before, *self);
            }
            i = i + 1;
        }
        losses
    }
}

/// Keeping the architecture is transitive: a network shaped like one that
/// is shaped like a third is shaped like the third.
pub proof fn lemma_same_architecture_trans<T>(a: NeuralNetwork<T>, b: NeuralNetwork<T>, c: NeuralNetwork<T>)
    requires
        a.same_architecture(b),
        b.same_architecture(c),
    ensures
        a.same_architecture(c),
{
    assert forall|i: int| 0 <= i < a.weight_seq().len() implies (#[trigger] c.weight_seq()[i]).same_shape(
        &a.weight_seq()[i],
    ) by {
        assert(b.weight_seq()[i].same_shape(&a.weight_seq()[i]));
    }
    assert forall|i: int| 0 <= i < a.bias_seq().len() implies (#[trigger] c.bias_seq()[i]).same_shape(
        &a.bias_seq()[i],
    ) by {
        assert(b.bias_seq()[i].same_shape(&a.bias_seq()[i]));
    }
}

/// A whole training run keeps the architecture: when each network of
/// `states` has the architecture of the one before it (as each training
/// step ensures), the last one has the architecture of the first, with as
/// many weight matrices and bias rows of the same shapes, the same
/// activations and the same loss function.
pub proof fn lemma_training_keeps_architecture<T>(states: Seq<NeuralNetwork<T>>)
    requires
        states.len() > 0,
        forall|i: int| 0 <= i < states.len() - 1 ==> (#[trigger] states[i]).same_architecture(states[i + 1]),
    ensures
        states[0].same_architecture(states.last()),
    decreases states.len(),
{
    if states.len() == 1 {
        let a = states[0];
        assert forall|i: int| 0 <= i < a.weight_seq().len() implies (#[trigger] a.weight_seq()[i]).same_shape(
            &a.weight_seq()[i],
        ) by {}
        assert forall|i: int| 0 <= i < a.bias_seq().len() implies (#[trigger] a.bias_seq()[i]).same_shape(
            &a.bias_seq()[i],
        ) by {}
    } else {
        let init = states.drop_last();
        assert forall|i: int| 0 <= i < init.len() - 1 implies (#[trigger] init[i]).same_architecture(init[i + 1]) by {
            assert(states[i].same_architecture(states[i + 1]));
        }
        lemma_training_keeps_architecture(init);
        assert(states[states.len() - 2].same_architecture(states.last()));
        lemma_same_architecture_trans(states[0], init.last(), states.last());
    }
}

/// `activate` gives matrices with the same elements for an activation and
/// matrices with the same elements.
pub open spec fn deterministic_activation<T, G: Fn(Activation, &Matrix<T>) -> Matrix<T>>(activate: G) -> bool {
    forall|a: Activation, m: Matrix<T>, n: Matrix<T>, r: Matrix<T>, s: Matrix<T>|
        m.same_as(&n) && #[trigger] call_ensures(activate, (a, &m), r) && #[trigger] call_ensures(
            activate,
            (a, &n),
            s,
        ) ==> r.same_as(&s)
}

/// With deterministic closures, `x * w + b` has one value.
proof fn lemma_affine_unique<T, M: Fn(&T, &T) -> T, A: Fn(&T, &T) -> T>(
    s1: Matrix<T>,
    x1: Matrix<T>,
    s2: Matrix<T>,
    x2: Matrix<T>,
    w: Matrix<T>,
    b: Matrix<T>,
    zero: T,
    times: M,
    plus: A,
)
    requires
        deterministic(times),
        deterministic(plus),
        x1.same_as(&x2),
        affine(s1, x1, w, b, zero, times, plus),
        affine(s2, x2, w, b, zero, times, plus),
    ensures
        s1.same_as(&s2),
{
    let p1 = choose|p: Matrix<T>| product_of(p, x1, w, zero, times, plus) && zipped(s1, p, b, plus);
    let p2 = choose|p: Matrix<T>| product_of(p, x2, w, zero, times, plus) && zipped(s2, p, b, plus);
    lemma_product_unique(p1, x1, w, p2, x2, w, zero, times, plus);
    lemma_zip_unique(s1, p1, b, s2, p2, b, plus);
}

/// Two forward passes agree up to layer `i`.
proof fn lemma_chains_agree<
    T,
    M: Fn(&T, &T) -> T,
    A: Fn(&T, &T) -> T,
    G: Fn(Activation, &Matrix<T>) -> Matrix<T>,
>(
    nn: NeuralNetwork<T>,
    input: Matrix<T>,
    pre1: Seq<Matrix<T>>,
    post1: Seq<Matrix<T>>,
    pre2: Seq<Matrix<T>>,
    post2: Seq<Matrix<T>>,
    zero: T,
    times: M,
    plus: A,
    activate: G,
    i: int,
)
    requires
        deterministic(times),
        deterministic(plus),
        deterministic_activation(activate),
        nn.forward_chain(input, pre1, post1, zero, times, plus, activate),
        nn.forward_chain(input, pre2, post2, zero, times, plus, activate),
        0 <= i <= nn.weight_seq().len(),
    ensures
        post1[i].same_as(&post2[i]),
    decreases i,
{
    if i > 0 {
        let j = i - 1;
        lemma_chains_agree(nn, input, pre1, post1, pre2, post2, zero, times, plus, activate, j);
        assert(affine(pre1[j], post1[j], nn.weight_seq()[j], nn.bias_seq()[j], zero, times, plus));
        assert(affine(pre2[j], post2[j], nn.weight_seq()[j], nn.bias_seq()[j], zero, times, plus));
        lemma_affine_unique(
            pre1[j],
            post1[j],
            pre2[j],
            post2[j],
            nn.weight_seq()[j],
            nn.bias_seq()[j],
            zero,
            times,
            plus,
        );
        assert(call_ensures(activate, (nn.activation_seq()[j], &pre1[j]), post1[j + 1]));
        assert(call_ensures(activate, (nn.activation_seq()[j], &pre2[j]), post2[j + 1]));
    }
}

/// With deterministic closures a forward pass has one outcome: two
/// forward passes of the same input through the same network hold the
/// same matrices, before and after each activation.
pub proof fn lemma_forward_unique<
    T,
    M: Fn(&T, &T) -> T,
    A: Fn(&T, &T) -> T,
    G: Fn(Activation, &Matrix<T>) -> Matrix<T>,
>(
    nn: NeuralNetwork<T>,
    input: Matrix<T>,
    pre1: Seq<Matrix<T>>,
    post1: Seq<Matrix<T>>,
    pre2: Seq<Matrix<T>>,
    post2: Seq<Matrix<T>>,
    zero: T,
    times: M,
    plus: A,
    activate: G,
)
    requires
        deterministic(times),
        deterministic(plus),
        deterministic_activation(activate),
        nn.forward_chain(input, pre1, post1, zero, times, plus, activate),
        nn.forward_chain(input, pre2, post2, zero, times, plus, activate),
    ensures
        forall|i: int| 0 <= i <= nn.weight_seq().len() ==> (#[trigger] post1[i]).same_as(&post2[i]),
        forall|i: int| 0 <= i < nn.weight_seq().len() ==> (#[trigger] pre1[i]).same_as(&pre2[i]),
{
    assert forall|i: int| 0 <= i <= nn.weight_seq().len() implies (#[trigger] post1[i]).same_as(&post2[i]) by {
        lemma_chains_agree(nn, input, pre1, post1, pre2, post2, zero, times, plus, activate, i);
    }
    assert forall|i: int| 0 <= i < nn.weight_seq().len() implies (#[trigger] pre1[i]).same_as(&pre2[i]) by {
        lemma_chains_agree(nn, input, pre1, post1, pre2, post2, zero, times, plus, activate, i);
        lemma_affine_unique(
            pre1[i],
            post1[i],
            pre2[i],
            post2[i],
            nn.weight_seq()[i],
            nn.bias_seq()[i],
            zero,
            times,
            plus,
        );
    }
}

/// With deterministic closures, `guess` returns the last matrix of a
/// forward pass of the same input: `out` as `guess` gives it (the last
/// matrix of some forward pass) holds the same elements, in the same
/// shape, as the last matrix of the forward pass `pre`, `post`.
pub proof fn lemma_guess_is_last_forward<
    T,
    M: Fn(&T, &T) -> T,
    A: Fn(&T, &T) -> T,
    G: Fn(Activation, &Matrix<T>) -> Matrix<T>,
>(
    nn: NeuralNetwork<T>,
    input: Matrix<T>,
    out: Matrix<T>,
    pre: Seq<Matrix<T>>,
    post: Seq<Matrix<T>>,
    zero: T,
    times: M,
    plus: A,
    activate: G,
)
    requires
        deterministic(times),
        deterministic(plus),
        deterministic_activation(activate),
        exists|pre2: Seq<Matrix<T>>, post2: Seq<Matrix<T>>|
            #[trigger] nn.forward_chain(input, pre2, post2, zero, times, plus, activate) && out == post2.last(),
        nn.forward_chain(input, pre, post, zero, times, plus, activate),
    ensures
        out.same_as(&post.last()),
{
    let (pre2, post2) = choose|pre2: Seq<Matrix<T>>, post2: Seq<Matrix<T>>|
        #[trigger] nn.forward_chain(input, pre2, post2, zero, times, plus, activate) && out == post2.last();
    lemma_forward_unique(nn, input, pre2, post2, pre, post, zero, times, plus, activate);
    assert(post2[nn.weight_seq().len() as int].same_as(&post[nn.weight_seq().len() as int]));
}

/// The gradients of a layer fit the layer: the weight gradient has the
/// shape of the weights, the bias gradient is a row as long as the layer's
/// output, and the error passed back is a row as long as the layer's input.
/// So they can always be applied with `apply_gradients` and passed on to
/// the layer before.
pub proof fn lemma_gradients_fit<T, M: Fn(&T, &T) -> T, A: Fn(&T, &T) -> T>(
    weights: Matrix<T>,
    biases: Matrix<T>,
    next: Matrix<T>,
    error: Matrix<T>,
    deriv: Matrix<T>,
    input: Matrix<T>,
    w: Matrix<T>,
    zero: T,
    times: M,
    plus: A,
)
    requires
        layer_gradients_of(weights, biases, next, error, deriv, input, w, zero, times, plus),
        error.nrows() == 1,
        error.ncols() == w.ncols(),
        input.nrows() == 1,
        input.ncols() == w.nrows(),
    ensures
        weights.wf(),
        weights.same_shape(&w),
        biases.wf(),
        biases.nrows() == 1,
        biases.ncols() == w.ncols(),
        next.wf(),
        next.nrows() == 1,
        next.ncols() == w.nrows(),
{
    let (activated, input_t, w_t) = choose|activated: Matrix<T>, input_t: Matrix<T>, w_t: Matrix<T>|
        {
            &&& zipped(activated, error, deriv, times)
            &&& input_t.wf()
            &&& input_t.is_transpose_of(&input)
            &&& product_of(weights, input_t, activated, zero, times, plus)
            &&& column_sums(biases, activated, zero, plus)
            &&& w_t.wf()
            &&& w_t.is_transpose_of(&w)
            &&& product_of(next, activated, w_t, zero, times, plus)
        };
}

/// Every layer of a forward pass, the last one included, applies the
/// layer's activation to the product of the layer's input with its weights
/// plus its biases: for each layer `i`, `post[i + 1]` is what `activate`
/// returns for `activation[i]` and `pre[i]`, and `pre[i]` is
/// `post[i] * weights[i] + biases[i]`; `post[0]` is the input.
pub proof fn lemma_forward_layers<
    T,
    M: Fn(&T, &T) -> T,
    A: Fn(&T, &T) -> T,
    G: Fn(Activation, &Matrix<T>) -> Matrix<T>,
>(
    nn: NeuralNetwork<T>,
    input: Matrix<T>,
    pre: Seq<Matrix<T>>,
    post: Seq<Matrix<T>>,
    zero: T,
    times: M,
    plus: A,
    activate: G,
)
    requires
        nn.forward_chain(input, pre, post, zero, times, plus, activate),
    ensures
        pre.len() == nn.weight_seq().len(),
        post.len() == nn.weight_seq().len() + 1,
        post[0].same_as(&input),
        forall|i: int|
            #![trigger pre[i]]
            0 <= i < nn.weight_seq().len() ==> {
                &&& call_ensures(activate, (nn.activation_seq()[i], &pre[i]), post[i + 1])
                &&& affine(pre[i], post[i], nn.weight_seq()[i], nn.bias_seq()[i], zero, times, plus)
            },
{
}

/// What `guess` returns for a network with weights is the output of the
/// last layer's activation: `out` is what `activate` returns for the last
/// activation and `s = x * W + b`, with `W`, `b` the last weights and
/// biases and `x` what the layer before gave.
pub proof fn lemma_guess_is_activated<
    T,
    M: Fn(&T, &T) -> T,
    A: Fn(&T, &T) -> T,
    G: Fn(Activation, &Matrix<T>) -> Matrix<T>,
>(
    nn: NeuralNetwork<T>,
    input: Matrix<T>,
    out: Matrix<T>,
    zero: T,
    times: M,
    plus: A,
    activate: G,
)
    requires
        nn.weight_seq().len() > 0,
        exists|pre: Seq<Matrix<T>>, post: Seq<Matrix<T>>|
            #[trigger] nn.forward_chain(input, pre, post, zero, times, plus, activate) && out == post.last(),
    ensures
        exists|s: Matrix<T>, x: Matrix<T>|
            #![trigger call_ensures(activate, (nn.activation_seq()[nn.weight_seq().len() - 1], &s), out), affine(s, x, nn.weight_seq()[nn.weight_seq().len() - 1], nn.bias_seq()[nn.weight_seq().len() - 1], zero, times, plus)]
            {
                &&& call_ensures(activate, (nn.activation_seq()[nn.weight_seq().len() - 1], &s), out)
                &&& affine(s, x, nn.weight_seq()[nn.weight_seq().len() - 1], nn.bias_seq()[nn.weight_seq().len() - 1], zero, times, plus)
            },
{
    let (pre, post) = choose|pre: Seq<Matrix<T>>, post: Seq<Matrix<T>>|
        #[trigger] nn.forward_chain(input, pre, post, zero, times, plus, activate) && out == post.last();
    let l = nn.weight_seq().len() - 1;
    lemma_forward_layers(nn, input, pre, post, zero, times, plus, activate);
    assert(call_ensures(activate, (nn.activation_seq()[l], &pre[l]), post[l + 1]));
    assert(affine(pre[l], post[l], nn.weight_seq()[l], nn.bias_seq()[l], zero, times, plus));
}

/// Back propagation through layer `i` is the chain rule of that layer: the
/// error at the layer's output is multiplied element by element (`times`)
/// by the derivative of the layer's own activation `activation[i]` at its
/// values before activation `pre`; the weight gradient is the layer's
/// input `post` transposed times that, the bias gradient its column sums,
/// and the error passed back is it times the layer's weights transposed.
pub proof fn lemma_backward_chain_rule<
    T,
    M: Fn(&T, &T) -> T,
    A: Fn(&T, &T) -> T,
    D: Fn(Activation, &Matrix<T>) -> Matrix<T>,
>(
    nn: NeuralNetwork<T>,
    i: int,
    pre: Matrix<T>,
    post: Matrix<T>,
    error_out: Matrix<T>,
    error_in: Matrix<T>,
    wg: Matrix<T>,
    bg: Matrix<T>,
    zero: T,
    times: M,
    plus: A,
    deriv: D,
)
    requires
        0 <= i < nn.weight_seq().len(),
        nn.backward_step(i, pre, post, error_out, error_in, wg, bg, zero, times, plus, deriv),
    ensures
        exists|d: Matrix<T>, activated: Matrix<T>, post_t: Matrix<T>, w_t: Matrix<T>|
            #![trigger call_ensures(deriv, (nn.activation_seq()[i], &pre), d), zipped(activated, error_out, d, times), post_t.is_transpose_of(&post), w_t.is_transpose_of(&nn.weight_seq()[i])]
            {
                &&& call_ensures(deriv, (nn.activation_seq()[i], &pre), d)
                &&& zipped(activated, error_out, d, times)
                &&& post_t.is_transpose_of(&post)
                &&& product_of(wg, post_t, activated, zero, times, plus)
                &&& column_sums(bg, activated, zero, plus)
                &&& w_t.is_transpose_of(&nn.weight_seq()[i])
                &&& product_of(error_in, activated, w_t, zero, times, plus)
            },
{
    let d = choose|d: Matrix<T>|
        call_ensures(deriv, (nn.activation_seq()[i], &pre), d) && layer_gradients_of(
            wg,
            bg,
            error_in,
            error_out,
            d,
            post,
            nn.weight_seq()[i],
            zero,
            times,
            plus,
        );
    let (activated, post_t, w_t) = choose|activated: Matrix<T>, input_t: Matrix<T>, w_t: Matrix<T>|
        {
            &&& zipped(activated, error_out, d, times)
            &&& input_t.wf()
            &&& input_t.is_transpose_of(&post)
            &&& product_of(wg, input_t, activated, zero, times, plus)
            &&& column_sums(bg, activated, zero, plus)
            &&& w_t.wf()
            &&& w_t.is_transpose_of(&nn.weight_seq()[i])
            &&& product_of(error_in, activated, w_t, zero, times, plus)
        };
    assert(call_ensures(deriv, (nn.activation_seq()[i], &pre), d));
}

/// Back propagation takes, for each layer, the derivative of the very
/// activation the forward pass applied at that layer, at the same values:
/// for a forward pass `pre`, `post` and a back propagation step through
/// layer `i` at `pre[i]`, one activation `a` gives both
/// `post[i + 1] = activate(a, pre[i])` and the derivative `deriv(a, pre[i])`
/// that multiplies the error at the layer's output.
pub proof fn lemma_backward_matches_forward<
    T,
    M: Fn(&T, &T) -> T,
    A: Fn(&T, &T) -> T,
    G: Fn(Activation, &Matrix<T>) -> Matrix<T>,
    D: Fn(Activation, &Matrix<T>) -> Matrix<T>,
>(
    nn: NeuralNetwork<T>,
    input: Matrix<T>,
    pre: Seq<Matrix<T>>,
    post: Seq<Matrix<T>>,
    i: int,
    error_out: Matrix<T>,
    error_in: Matrix<T>,
    wg: Matrix<T>,
    bg: Matrix<T>,
    zero: T,
    times: M,
    plus: A,
    activate: G,
    deriv: D,
)
    requires
        nn.forward_chain(input, pre, post, zero, times, plus, activate),
        0 <= i < nn.weight_seq().len(),
        nn.backward_step(i, pre[i], post[i], error_out, error_in, wg, bg, zero, times, plus, deriv),
    ensures
        exists|a: Activation, d: Matrix<T>, activated: Matrix<T>|
            #![trigger call_ensures(deriv, (a, &pre[i]), d), zipped(activated, error_out, d, times)]
            {
                &&& call_ensures(activate, (a, &pre[i]), post[i + 1])
                &&& call_ensures(deriv, (a, &pre[i]), d)
                &&& zipped(activated, error_out, d, times)
                &&& column_sums(bg, activated, zero, plus)
            },
{
    lemma_forward_layers(nn, input, pre, post, zero, times, plus, activate);
    lemma_backward_chain_rule(nn, i, pre[i], post[i], error_out, error_in, wg, bg, zero, times, plus, deriv);
    let a = nn.activation_seq()[i];
    assert(call_ensures(activate, (a, &pre[i]), post[i + 1]));
    let (d, activated, post_t, w_t) = choose|d: Matrix<T>, activated: Matrix<T>, post_t: Matrix<T>, w_t: Matrix<T>|
        {
            &&& call_ensures(deriv, (a, &pre[i]), d)
            &&& zipped(activated, error_out, d, times)
            &&& post_t.is_transpose_of(&post[i])
            &&& product_of(wg, post_t, activated, zero, times, plus)
            &&& column_sums(bg, activated, zero, plus)
            &&& w_t.is_transpose_of(&nn.weight_seq()[i])
            &&& product_of(error_in, activated, w_t, zero, times, plus)
        };
    assert(call_ensures(deriv, (a, &pre[i]), d));
}

/// Training on a sample takes the loss, and the error it propagates back,
/// of the network's activated output for that sample: there is a forward
/// pass `pre`, `post` of the input whose final matrix `post[n]` (`n` the
/// number of weight matrices) is what the last activation returns for
/// `pre[n - 1]`, `loss` is what `loss_of` gives for `post[n]` and
/// `correct`, and the error of the back propagation that gives `after` is
/// what `loss_grad` gives for the same.
pub proof fn lemma_trained_on_output<
    T,
    M: Fn(&T, &T) -> T,
    A: Fn(&T, &T) -> T,
    G: Fn(Activation, &Matrix<T>) -> Matrix<T>,
    D: Fn(Activation, &Matrix<T>) -> Matrix<T>,
    L: Fn(LossFunction, &Matrix<T>, &Matrix<T>) -> T,
    E: Fn(LossFunction, &Matrix<T>, &Matrix<T>) -> Matrix<T>,
    S: Fn(&T, &T) -> T,
    U: Fn(&T, &T, &T) -> T,
    Q: Fn(&T, &T, &T, &T) -> T,
    R: Fn(&T, &T) -> T,
>(
    before: NeuralNetwork<T>,
    after: NeuralNetwork<T>,
    input: Matrix<T>,
    correct: Matrix<T>,
    loss: T,
    zero: T,
    times: M,
    plus: A,
    activate: G,
    deriv: D,
    loss_of: L,
    loss_grad: E,
    scale: S,
    decay: U,
    step: Q,
    minus: R,
)
    requires
        before.trained_on(
            after,
            input,
            correct,
            loss,
            zero,
            times,
            plus,
            activate,
            deriv,
            loss_of,
            loss_grad,
            scale,
            decay,
            step,
            minus,
        ),
    ensures
        exists|pre: Seq<Matrix<T>>, post: Seq<Matrix<T>>, error: Matrix<T>|
            #![trigger before.forward_chain(input, pre, post, zero, times, plus, activate), call_ensures(loss_grad, (before.loss_fn(), &post[before.weight_seq().len() as int], &correct), error)]
            {
                &&& before.forward_chain(input, pre, post, zero, times, plus, activate)
                &&& post.len() == before.weight_seq().len() + 1
                &&& before.weight_seq().len() > 0 ==> call_ensures(
                    activate,
                    (
                        before.activation_seq()[before.weight_seq().len() - 1],
                        &pre[before.weight_seq().len() - 1],
                    ),
                    post[before.weight_seq().len() as int],
                )
                &&& call_ensures(loss_of, (before.loss_fn(), &post[before.weight_seq().len() as int], &correct), loss)
                &&& call_ensures(loss_grad, (before.loss_fn(), &post[before.weight_seq().len() as int], &correct), error)
                &&& exists|errors: Seq<Matrix<T>>, grads: Seq<(Matrix<T>, Matrix<T>)>, updates: Seq<(Matrix<T>, Matrix<T>)>|
                    #[trigger] before.backward_pass(
                        after,
                        pre,
                        post,
                        error,
                        errors,
                        grads,
                        updates,
                        zero,
                        times,
                        plus,
                        deriv,
                        scale,
                        decay,
                        step,
                        minus,
                    )
            },
{
    let (pre, post, error, errors, grads, updates) = choose|
        pre: Seq<Matrix<T>>,
        post: Seq<Matrix<T>>,
        error: Matrix<T>,
        errors: Seq<Matrix<T>>,
        grads: Seq<(Matrix<T>, Matrix<T>)>,
        updates: Seq<(Matrix<T>, Matrix<T>)>,
    |
        {
            &&& before.forward_chain(input, pre, post, zero, times, plus, activate)
            &&& call_ensures(loss_of, (before.loss_fn(), &post.last(), &correct), loss)
            &&& call_ensures(loss_grad, (before.loss_fn(), &post.last(), &correct), error)
            &&& before.backward_pass(
                after,
                pre,
                post,
                error,
                errors,
                grads,
                updates,
                zero,
                times,
                plus,
                deriv,
                scale,
                decay,
                step,
                minus,
            )
        };
    let n = before.weight_seq().len() as int;
    lemma_forward_layers(before, input, pre, post, zero, times, plus, activate);
    if n > 0 {
        let l = n - 1;
        assert(call_ensures(activate, (before.activation_seq()[l], &pre[l]), post[l + 1]));
    }
    assert(post.last() == post[n]);
    assert(call_ensures(loss_grad, (before.loss_fn(), &post[n], &correct), error));
}

/// With deterministic closures, the loss recorded when training on a
/// sample is the loss of what `guess` returns for it: `out` as `guess`
/// gives it (the last matrix of a forward pass of `input`) holds the same
/// elements, in the same shape, as a matrix whose loss against `correct`
/// is `loss`.
pub proof fn lemma_trained_loss_of_guess<
    T,
    M: Fn(&T, &T) -> T,
    A: Fn(&T, &T) -> T,
    G: Fn(Activation, &Matrix<T>) -> Matrix<T>,
    D: Fn(Activation, &Matrix<T>) -> Matrix<T>,
    L: Fn(LossFunction, &Matrix<T>, &Matrix<T>) -> T,
    E: Fn(LossFunction, &Matrix<T>, &Matrix<T>) -> Matrix<T>,
    S: Fn(&T, &T) -> T,
    U: Fn(&T, &T, &T) -> T,
    Q: Fn(&T, &T, &T, &T) -> T,
    R: Fn(&T, &T) -> T,
>(
    before: NeuralNetwork<T>,
    after: NeuralNetwork<T>,
    input: Matrix<T>,
    correct: Matrix<T>,
    loss: T,
    zero: T,
    times: M,
    plus: A,
    activate: G,
    deriv: D,
    loss_of: L,
    loss_grad: E,
    scale: S,
    decay: U,
    step: Q,
    minus: R,
    out: Matrix<T>,
)
    requires
        deterministic(times),
        deterministic(plus),
        deterministic_activation(activate),
        before.trained_on(
            after,
            input,
            correct,
            loss,
            zero,
            times,
            plus,
            activate,
            deriv,
            loss_of,
            loss_grad,
            scale,
            decay,
            step,
            minus,
        ),
        exists|pre: Seq<Matrix<T>>, post: Seq<Matrix<T>>|
            #[trigger] before.forward_chain(input, pre, post, zero, times, plus, activate) && out == post.last(),
    ensures
        exists|o: Matrix<T>|
            #![trigger call_ensures(loss_of, (before.loss_fn(), &o, &correct), loss)]
            o.same_as(&out) && call_ensures(loss_of, (before.loss_fn(), &o, &correct), loss),
{
    lemma_trained_on_output(
        before,
        after,
        input,
        correct,
        loss,
        zero,
        times,
        plus,
        activate,
        deriv,
        loss_of,
        loss_grad,
        scale,
        decay,
        step,
        minus,
    );
    let n = before.weight_seq().len() as int;
    let (pre, post, error) = choose|pre: Seq<Matrix<T>>, post: Seq<Matrix<T>>, error: Matrix<T>|
        {
            &&& before.forward_chain(input, pre, post, zero, times, plus, activate)
            &&& post.len() == n + 1
            &&& call_ensures(loss_of, (before.loss_fn(), &post[n], &correct), loss)
            &&& call_ensures(loss_grad, (before.loss_fn(), &post[n], &correct), error)
        };
    let (pre2, post2) = choose|pre2: Seq<Matrix<T>>, post2: Seq<Matrix<T>>|
        #[trigger] before.forward_chain(input, pre2, post2, zero, times, plus, activate) && out == post2.last();
    lemma_forward_unique(before, input, pre, post, pre2, post2, zero, times, plus, activate);
    assert(post[n].same_as(&post2[n]));
    assert(call_ensures(loss_of, (before.loss_fn(), &post[n], &correct), loss));
}

} // verus!
