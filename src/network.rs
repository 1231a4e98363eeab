use vstd::prelude::*;
use core::ops::{Add, Mul, Sub};
use vstd::std_specs::ops::{AddSpec, MulSpec, SubSpec};
use crate::activations::Activation;
use crate::matrix::{
    arithmetic_is_total, dot, grid_has_shape, grid_of, has_shape, obeys_ring_spec, Matrix,
};
use crate::utils::{find_max_index, first_max_index};
use vstd::std_specs::cmp::PartialOrdSpec;
use vstd::string::StringExecFns;

verus! {

/// Why the network refused a call.
#[derive(Debug, Clone, Copy, PartialEq, Eq, Structural)]
pub enum NetworkError {
    /// Fewer than two layers, or a layer of width zero.
    InvalidLayers,
    /// An input's length is not the width of the first layer.
    InputShapeMismatch,
    /// A target's length is not the width of the last layer.
    TargetShapeMismatch,
    /// Backpropagation was asked for before any forward pass.
    NoForwardPass,
    /// The inputs and the targets (or labels) are not equally many.
    ExampleCountMismatch,
    /// Saved weights and biases do not fit the network's layers.
    TopologyMismatch,
}

/// `m` is a well-formed `rows` by `cols` matrix.
pub open spec fn shaped<T>(m: Matrix<T>, rows: nat, cols: nat) -> bool {
    m.wf() && m.rows == rows && m.cols == cols
}

/// At least two layers, each of positive width.
pub open spec fn valid_layers(layers: Seq<usize>) -> bool {
    layers.len() >= 2 && forall|i: int| 0 <= i < layers.len() ==> #[trigger] layers[i] > 0
}

/// One weight matrix (next width by this width) and one bias column (next
/// width by one) for each pair of neighbouring layers.
pub open spec fn fits<T>(layers: Seq<usize>, weights: Seq<Matrix<T>>, biases: Seq<Matrix<T>>) -> bool {
    &&& valid_layers(layers)
    &&& weights.len() == layers.len() - 1
    &&& biases.len() == layers.len() - 1
    &&& forall|i: int|
        0 <= i < layers.len() - 1 ==> shaped(#[trigger] weights[i], layers[i + 1] as nat, layers[i] as nat)
    &&& forall|i: int|
        0 <= i < layers.len() - 1 ==> shaped(#[trigger] biases[i], layers[i + 1] as nat, 1)
}

/// The same as `fits`, for weights and biases held as nested rows.
pub open spec fn grids_fit<T>(
    layers: Seq<usize>,
    weights: Seq<Seq<Seq<T>>>,
    biases: Seq<Seq<Seq<T>>>,
) -> bool {
    &&& valid_layers(layers)
    &&& weights.len() == layers.len() - 1
    &&& biases.len() == layers.len() - 1
    &&& forall|i: int|
        0 <= i < layers.len() - 1 ==> has_shape(#[trigger] weights[i], layers[i + 1] as nat, layers[i] as nat)
    &&& forall|i: int| 0 <= i < layers.len() - 1 ==> has_shape(#[trigger] biases[i], layers[i + 1] as nat, 1)
}

/// The cells of each matrix.
pub open spec fn grids<T>(ms: Seq<Matrix<T>>) -> Seq<Seq<Seq<T>>> {
    ms.map_values(|m: Matrix<T>| m@)
}

/// The cells of each matrix held as nested rows.
pub open spec fn nested_grids<T>(ms: Seq<Vec<Vec<T>>>) -> Seq<Seq<Seq<T>>> {
    ms.map_values(|g: Vec<Vec<T>>| grid_of(g@))
}

/// Every vector in `vs` has length `width`.
pub open spec fn all_of_width<T>(vs: Seq<Vec<T>>, width: usize) -> bool {
    forall|i: int| 0 <= i < vs.len() ==> (#[trigger] vs[i])@.len() == width
}

/// How many of the first `n` predictions equal their expected class.
pub open spec fn count_matches(predicted: Seq<usize>, expected: Seq<usize>, n: nat) -> nat
    decreases n,
{
    if n == 0 {
        0
    } else {
        count_matches(predicted, expected, (n - 1) as nat) + if predicted[n - 1] == expected[n - 1] {
            1nat
        } else {
            0nat
        }
    }
}

/// How many of the first `n` examples of class `class` were predicted as
/// another class.
pub open spec fn count_misses(predicted: Seq<usize>, expected: Seq<usize>, class: nat, n: nat) -> nat
    decreases n,
{
    if n == 0 {
        0
    } else {
        count_misses(predicted, expected, class, (n - 1) as nat) + if predicted[n - 1]
            != expected[n - 1] && expected[n - 1] == class {
            1nat
        } else {
            0nat
        }
    }
}

/// The counts over the first `n` entries depend on those entries alone.
proof fn lemma_matches_prefix(p: Seq<usize>, e: Seq<usize>, q: Seq<usize>, f: Seq<usize>, n: nat)
    requires
        n <= p.len(),
        n <= e.len(),
        n <= q.len(),
        n <= f.len(),
        forall|i: int| 0 <= i < n ==> p[i] == q[i] && e[i] == f[i],
    ensures
        count_matches(p, e, n) == count_matches(q, f, n),
    decreases n,
{
    if n > 0 {
        lemma_matches_prefix(p, e, q, f, (n - 1) as nat);
    }
}

/// The tally of one class over the first `n` entries depends on those
/// entries alone.
proof fn lemma_misses_prefix(
    p: Seq<usize>,
    e: Seq<usize>,
    q: Seq<usize>,
    f: Seq<usize>,
    class: nat,
    n: nat,
)
    requires
        n <= p.len(),
        n <= e.len(),
        n <= q.len(),
        n <= f.len(),
        forall|i: int| 0 <= i < n ==> p[i] == q[i] && e[i] == f[i],
    ensures
        count_misses(p, e, class, n) == count_misses(q, f, class, n),
    decreases n,
{
    if n > 0 {
        lemma_misses_prefix(p, e, q, f, class, (n - 1) as nat);
    }
}

/// The decimal digit `d` (below ten) as a character.
pub open spec fn digit_char(d: nat) -> char {
    seq!['0', '1', '2', '3', '4', '5', '6', '7', '8', '9'][d as int]
}

/// The decimal digits of `n`, most significant first, without leading
/// zeros.
pub open spec fn decimal(n: nat) -> Seq<char>
    decreases n,
{
    if n < 10 {
        seq![digit_char(n)]
    } else {
        decimal(n / 10) + seq![digit_char(n % 10)]
    }
}

/// The first `n` widths of `layers` in decimal, joined by `-`.
pub open spec fn model_name(layers: Seq<usize>, n: nat) -> Seq<char>
    decreases n,
{
    if n == 0 {
        Seq::empty()
    } else if n == 1 {
        decimal(layers[0] as nat)
    } else {
        model_name(layers, (n - 1) as nat) + seq!['-'] + decimal(layers[n - 1] as nat)
    }
}

/// Relies on `usize`'s `ToString` (through `Display`), which writes the
/// decimal digits of the number with no sign, padding or separators.
#[verifier::external_body]
fn decimal_string(n: usize) -> (r: String)
    ensures
        r@ == decimal(n as nat),
{
    n.to_string()
}

/// A copy of `v`.
fn copy_of<T: Copy>(v: &Vec<T>) -> (r: Vec<T>)
    ensures
        r@ == v@,
{
    let mut out: Vec<T> = Vec::new();
    let mut i: usize = 0;
    while i < v.len()
        invariant
            i <= v@.len(),
            out@ == v@.take(i as int),
        decreases v@.len() - i,
    {
        out.push(v[i]);
        i = i + 1;
        assert(out@ =~= v@.take(i as int));
    }
    assert(out@ =~= v@);
    out
}

/// Whether every vector in `vs` has length `width`.
fn check_widths<T>(vs: &Vec<Vec<T>>, width: usize) -> (r: bool)
    ensures
        r == all_of_width(vs@, width),
{
    let mut i: usize = 0;
    while i < vs.len()
        invariant
            i <= vs@.len(),
            forall|a: int| 0 <= a < i ==> (#[trigger] vs@[a])@.len() == width,
        decreases vs@.len() - i,
    {
        if vs[i].len() != width {
            return false;
        }
        i = i + 1;
    }
    true
}

/// The persisted form of a network: its weights and its biases, each as
/// nested rows, one entry per pair of neighbouring layers.
#[derive(Debug, Clone)]
pub struct SaveData<T> {
    pub weights: Vec<Vec<Vec<T>>>,
    pub biases: Vec<Vec<Vec<T>>>,
}

/// The counts that a validation run gathers.
#[derive(Debug, Clone)]
pub struct Validation<T> {
    /// Examples whose predicted class is their label's class.
    pub rights: usize,
    /// Examples whose predicted class is another.
    pub wrongs: usize,
    /// For each class, the examples of that label that were missed.
    pub failed: Vec<usize>,
    /// The class predicted for each example, in order.
    pub predicted: Vec<usize>,
    /// The class of each example's label, in order.
    pub expected: Vec<usize>,
    /// The network's output for each example, in order.
    pub outputs: Vec<Vec<T>>,
}

/// A fully connected network with one activation shared by every layer.
///
/// `data` caches the columns of the most recent forward pass: the input
/// first, then the output of each layer.
pub struct Network<T, F, D, L> {
    pub layers: Vec<usize>,
    pub weights: Vec<Matrix<T>>,
    pub biases: Vec<Matrix<T>>,
    pub data: Vec<Matrix<T>>,
    pub scale_by_learning_rate: L,
    pub activation: Activation<F, D>,
}

impl<T, F, D, L> Network<T, F, D, L> {
    /// The cache holds one column per layer, of that layer's width.
    pub open spec fn cache_ready(&self) -> bool {
        &&& self.data@.len() == self.layers@.len()
        &&& forall|i: int|
            0 <= i < self.layers@.len() ==> shaped(#[trigger] self.data@[i], self.layers@[i] as nat, 1)
    }

    /// Both networks have the same layers, activation and learning-rate
    /// policy.
    pub open spec fn same_setup(&self, other: &Self) -> bool {
        &&& self.layers@ == other.layers@
        &&& self.activation == other.activation
        &&& self.scale_by_learning_rate == other.scale_by_learning_rate
    }

    /// The width of the last layer.
    pub open spec fn output_width(&self) -> usize {
        self.layers@[self.layers@.len() - 1]
    }
}

impl<T, F: Fn(T) -> T, D: Fn(T) -> T, L: Fn(T) -> T> Network<T, F, D, L> {
    /// The parameters fit the layers, the cache is empty or ready, and
    /// every scalar function accepts every value.
    pub open spec fn wf(&self) -> bool {
        &&& fits(self.layers@, self.weights@, self.biases@)
        &&& (self.data@.len() == 0 || self.cache_ready())
        &&& self.activation.is_total()
        &&& forall|x: T| #[trigger] self.scale_by_learning_rate.requires((x,))
    }
}

impl<T: Copy + Add<Output = T> + Mul<Output = T>, F: Fn(T) -> T, D: Fn(T) -> T, L: Fn(T) -> T> Network<
    T,
    F,
    D,
    L,
> {
    /// Cache entry `i + 1` is layer `i`'s activation of its weighted input
    /// `weights[i] * data[i] + biases[i]`, for a cell type whose arithmetic
    /// follows its specification.
    pub open spec fn forward_step(&self, data: Seq<Matrix<T>>, i: int) -> bool {
        let w = self.weights@[i];
        let b = self.biases@[i];
        obeys_ring_spec::<T>() ==> forall|r: int|
            0 <= r < w.rows ==> self.activation.function.ensures(
                (dot(w@[r], data[i].column(0), w.cols as nat).add_spec(b.cell(r, 0)),),
                #[trigger] data[i + 1].cell(r, 0),
            )
    }
}

/// Whether `T`'s `+`, `-` and `*` compute `add_spec`, `sub_spec` and
/// `mul_spec`.
pub open spec fn obeys_arithmetic_spec<T: Add<Output = T> + Sub<Output = T> + Mul<Output = T>>() -> bool {
    T::obeys_add_spec() && T::obeys_sub_spec() && T::obeys_mul_spec()
}

impl<
    T: Copy + Add<Output = T> + Sub<Output = T> + Mul<Output = T>,
    F: Fn(T) -> T,
    D: Fn(T) -> T,
    L: Fn(T) -> T,
> Network<T, F, D, L> {
    /// Backpropagation's step at layer `k`, from this network to `after`,
    /// with `errors[k + 1]` the error at layer `k`'s output: `slopes[k]` is
    /// the activation's derivative at that cached output, `grads[k]` the
    /// learning-rate policy applied to slope times error, the bias gains
    /// `grads[k]`, each weight `(r, c)` gains `grads[k][r]` times input `c`,
    /// and `errors[k]` is the error carried back through the updated weights.
    pub open spec fn back_step(
        &self,
        after: &Self,
        k: int,
        errors: Seq<Seq<T>>,
        slopes: Seq<Seq<T>>,
        grads: Seq<Seq<T>>,
    ) -> bool {
        let l = self.layers@;
        let d = self.data@;
        &&& forall|r: int|
            0 <= r < l[k + 1] ==> self.activation.derivative.ensures(
                (d[k + 1].cell(r, 0),),
                #[trigger] slopes[k][r],
            )
        &&& forall|r: int|
            0 <= r < l[k + 1] ==> self.scale_by_learning_rate.ensures(
                (slopes[k][r].mul_spec(errors[k + 1][r]),),
                #[trigger] grads[k][r],
            )
        &&& forall|r: int|
            0 <= r < l[k + 1] ==> #[trigger] after.biases@[k].cell(r, 0) == self.biases@[k].cell(
                r,
                0,
            ).add_spec(grads[k][r])
        &&& forall|r: int, c: int|
            0 <= r < l[k + 1] && 0 <= c < l[k] ==> #[trigger] after.weights@[k].cell(r, c)
                == self.weights@[k].cell(r, c).add_spec(grads[k][r].mul_spec(d[k].cell(c, 0)))
        &&& forall|c: int|
            0 <= c < l[k] ==> #[trigger] errors[k][c] == dot(
                after.weights@[k].column(c),
                errors[k + 1],
                l[k + 1] as nat,
            )
    }

    /// One call of backpropagation towards `targets` takes this network to
    /// `after`: the output error is `targets` minus the cached output, and
    /// every layer, from the last down, takes its `back_step`.
    pub open spec fn back_trace(
        &self,
        after: &Self,
        targets: Seq<T>,
        errors: Seq<Seq<T>>,
        slopes: Seq<Seq<T>>,
        grads: Seq<Seq<T>>,
    ) -> bool {
        let n = self.layers@.len() - 1;
        &&& errors.len() == n + 1
        &&& slopes.len() == n
        &&& grads.len() == n
        &&& forall|r: int|
            0 <= r < self.layers@[n] ==> #[trigger] errors[n][r] == targets[r].sub_spec(
                self.data@[n].cell(r, 0),
            )
        &&& forall|k: int| 0 <= k < n ==> #[trigger] self.back_step(after, k, errors, slopes, grads)
    }

    /// `after` is this network once a forward pass on `inputs` has returned
    /// `out`: only the cache changed, and it holds the pass's columns.
    pub open spec fn forward_result(&self, after: &Self, inputs: Seq<T>, out: Seq<T>) -> bool {
        &&& after.same_setup(self)
        &&& after.weights@ == self.weights@
        &&& after.biases@ == self.biases@
        &&& after.cache_ready()
        &&& after.data@[0].column(0) == inputs
        &&& forall|i: int|
            0 <= i < after.layers@.len() - 1 ==> #[trigger] after.forward_step(after.data@, i)
        &&& out == after.data@[after.layers@.len() - 1].column(0)
    }

    /// `after` is this network once backpropagation towards `targets` has
    /// succeeded.
    pub open spec fn back_result(&self, after: &Self, targets: Seq<T>) -> bool {
        &&& after.same_setup(self)
        &&& after.data@ == self.data@
        &&& obeys_arithmetic_spec::<T>() ==> exists|
            errors: Seq<Seq<T>>,
            slopes: Seq<Seq<T>>,
            grads: Seq<Seq<T>>,
        | self.back_trace(after, targets, errors, slopes, grads)
    }

    /// `after` is this network once it has trained on one example: a forward
    /// pass on `inputs`, then backpropagation towards `targets`.
    pub open spec fn trained_on(&self, after: &Self, inputs: Seq<T>, targets: Seq<T>) -> bool {
        exists|mid: Self, out: Seq<T>| self.forward_result(&mid, inputs, out) && mid.back_result(after, targets)
    }
}

impl<T, F: Fn(T) -> T, D: Fn(T) -> T, L: Fn(T) -> T> Network<T, F, D, L> {
    /// Whether every layer width is positive and there are at least two.
    fn check_layers(layers: &Vec<usize>) -> (r: bool)
        ensures
            r == valid_layers(layers@),
    {
        if layers.len() < 2 {
            return false;
        }
        let mut i: usize = 0;
        while i < layers.len()
            invariant
                i <= layers@.len(),
                forall|a: int| 0 <= a < i ==> #[trigger] layers@[a] > 0,
            decreases layers@.len() - i,
        {
            if layers[i] == 0 {
                return false;
            }
            i = i + 1;
        }
        true
    }

    /// A network over `layers`, each weight and bias drawn from `sample`,
    /// weights first then biases for each pair of neighbouring layers.
    pub fn new<S: Fn() -> T>(
        layers: Vec<usize>,
        scale_by_learning_rate: L,
        activation: Activation<F, D>,
        sample: &S,
    ) -> (r: Result<Self, NetworkError>) where T: Copy
        requires
            activation.is_total(),
            forall|x: T| #[trigger] scale_by_learning_rate.requires((x,)),
            sample.requires(()),
        ensures
            r is Err <==> !valid_layers(layers@),
            r is Err ==> r == Err::<Self, NetworkError>(NetworkError::InvalidLayers),
            r matches Ok(n) ==> {
                &&& n.wf()
                &&& n.layers@ == layers@
                &&& n.data@.len() == 0
                &&& n.activation == activation
                &&& n.scale_by_learning_rate == scale_by_learning_rate
                &&& forall|i: int, a: int, b: int|
                    0 <= i < layers@.len() - 1 && 0 <= a < layers@[i + 1] && 0 <= b < layers@[i]
                        ==> sample.ensures((), #[trigger] n.weights@[i].cell(a, b))
                &&& forall|i: int, a: int|
                    0 <= i < layers@.len() - 1 && 0 <= a < layers@[i + 1] ==> sample.ensures(
                        (),
                        #[trigger] n.biases@[i].cell(a, 0),
                    )
            },
    {
        if !Self::check_layers(&layers) {
            return Err(NetworkError::InvalidLayers);
        }
        let mut weights: Vec<Matrix<T>> = Vec::new();
        let mut biases: Vec<Matrix<T>> = Vec::new();
        let n = layers.len() - 1;
        let mut i: usize = 0;
        while i < n
            invariant
                valid_layers(layers@),
                n == layers@.len() - 1,
                sample.requires(()),
                i <= n,
                weights@.len() == i,
                biases@.len() == i,
                forall|k: int|
                    0 <= k < i ==> shaped(#[trigger] weights@[k], layers@[k + 1] as nat, layers@[k] as nat),
                forall|k: int| 0 <= k < i ==> shaped(#[trigger] biases@[k], layers@[k + 1] as nat, 1),
                forall|k: int, a: int, b: int|
                    0 <= k < i && 0 <= a < layers@[k + 1] && 0 <= b < layers@[k] ==> sample.ensures(
                        (),
                        #[trigger] weights@[k].cell(a, b),
                    ),
                forall|k: int, a: int|
                    0 <= k < i && 0 <= a < layers@[k + 1] ==> sample.ensures(
                        (),
                        #[trigger] biases@[k].cell(a, 0),
                    ),
            decreases n - i,
        {
            assert(layers@[i as int] > 0 && layers@[i + 1] > 0);
            let w = Matrix::random(layers[i + 1], layers[i], sample);
            let b = Matrix::random(layers[i + 1], 1, sample);
            weights.push(w);
            biases.push(b);
            i = i + 1;
        }
        Ok(Network { layers, weights, biases, data: Vec::new(), scale_by_learning_rate, activation })
    }
}

impl<
    T: Copy + Add<Output = T> + Sub<Output = T> + Mul<Output = T>,
    F: Fn(T) -> T,
    D: Fn(T) -> T,
    L: Fn(T) -> T,
> Network<T, F, D, L> {
    /// Runs `inputs` through every layer and returns the last layer's
    /// output.  The cache is replaced by this pass's columns; the weights and
    /// biases stay as they were.
    pub fn feed_forward(&mut self, inputs: Vec<T>) -> (r: Result<Vec<T>, NetworkError>)
        requires
            old(self).wf(),
            arithmetic_is_total::<T>(),
        ensures
            final(self).wf(),
            final(self).same_setup(old(self)),
            final(self).weights@ == old(self).weights@,
            final(self).biases@ == old(self).biases@,
            r is Err <==> inputs@.len() != old(self).layers@[0],
            r is Err ==> r == Err::<Vec<T>, NetworkError>(NetworkError::InputShapeMismatch)
                && final(self).data@ == old(self).data@,
            r matches Ok(out) ==> old(self).forward_result(final(self), inputs@, out@),
    {
        if inputs.len() != self.layers[0] {
            return Err(NetworkError::InputShapeMismatch);
        }
        let ghost input = inputs@;
        let mut row: Vec<Vec<T>> = Vec::new();
        row.push(inputs);
        let first = Matrix::from(row).transpose();
        assert(first.column(0) =~= input);
        let mut data: Vec<Matrix<T>> = Vec::new();
        data.push(first);
        let n = self.layers.len() - 1;
        let mut i: usize = 0;
        while i < n
            invariant
                self.wf(),
                arithmetic_is_total::<T>(),
                n == self.layers@.len() - 1,
                i <= n,
                data@.len() == i + 1,
                data@[0].column(0) == input,
                forall|k: int| 0 <= k <= i ==> shaped(#[trigger] data@[k], self.layers@[k] as nat, 1),
                forall|k: int| 0 <= k < i ==> #[trigger] self.forward_step(data@, k),
            decreases n - i,
        {
            let ghost w = self.weights@[i as int];
            let ghost b = self.biases@[i as int];
            let ghost x = data@[i as int];
            assert(shaped(w, self.layers@[i + 1] as nat, self.layers@[i as int] as nat));
            assert(shaped(b, self.layers@[i + 1] as nat, 1));
            assert(shaped(x, self.layers@[i as int] as nat, 1));
            let product = self.weights[i].multiply(&data[i]).unwrap();
            let sum = product.add(&self.biases[i]).unwrap();
            let next = sum.map(&self.activation.function);
            let ghost before = data@;
            data.push(next);
            assert forall|k: int| 0 <= k < i + 1 implies #[trigger] self.forward_step(data@, k) by {
                assert(data@[k] == before[k]);
                assert(data@[k + 1] == if k < i { before[k + 1] } else { next });
                if k < i {
                    assert(self.forward_step(before, k));
                } else {
                    if obeys_ring_spec::<T>() {
                        assert forall|r: int| 0 <= r < w.rows implies self.activation.function.ensures(
                            (dot(w@[r], data@[k].column(0), w.cols as nat).add_spec(b.cell(r, 0)),),
                            #[trigger] data@[k + 1].cell(r, 0),
                        ) by {
                            assert(sum.cell(r, 0) == product.cell(r, 0).add_spec(b.cell(r, 0)));
                        }
                    }
                }
            }
            i = i + 1;
        }
        let ghost cache = data@;
        let ghost before = *self;
        assert(forall|k: int| 0 <= k < n ==> #[trigger] before.forward_step(cache, k));
        self.data = data;
        assert forall|k: int| 0 <= k < n implies #[trigger] self.forward_step(self.data@, k) by {
            assert(before.forward_step(cache, k));
        }
        let out = self.data[n].column_values(0);
        Ok(out)
    }

    /// One step of gradient descent on the example of the latest forward
    /// pass, towards `targets`.  From the last layer down to the first, the
    /// error times the activation's slope at the layer's output, scaled by
    /// the learning-rate policy, is added to the biases and, times the
    /// layer's input, to the weights; the error is then carried back through
    /// the updated weights.  The layers, the cache and the scalar functions
    /// stay as they were.
    pub fn back_propogate(&mut self, targets: Vec<T>) -> (r: Result<(), NetworkError>)
        requires
            old(self).wf(),
            arithmetic_is_total::<T>(),
        ensures
            final(self).wf(),
            final(self).same_setup(old(self)),
            final(self).data@ == old(self).data@,
            r is Err <==> !old(self).cache_ready() || targets@.len() != old(self).output_width(),
            !old(self).cache_ready() ==> r == Err::<(), NetworkError>(NetworkError::NoForwardPass),
            old(self).cache_ready() && targets@.len() != old(self).output_width() ==> r == Err::<
                (),
                NetworkError,
            >(NetworkError::TargetShapeMismatch),
            r is Err ==> final(self).weights@ == old(self).weights@ && final(self).biases@ == old(
                self,
            ).biases@,
            r is Ok && obeys_arithmetic_spec::<T>() ==> exists|
                errors: Seq<Seq<T>>,
                slopes: Seq<Seq<T>>,
                grads: Seq<Seq<T>>,
            | old(self).back_trace(final(self), targets@, errors, slopes, grads),
    {
        if self.data.len() != self.layers.len() {
            return Err(NetworkError::NoForwardPass);
        }
        let n = self.layers.len() - 1;
        if targets.len() != self.layers[n] {
            return Err(NetworkError::TargetShapeMismatch);
        }
        let ghost start = *self;
        let ghost goal = targets@;
        let mut row: Vec<Vec<T>> = Vec::new();
        row.push(targets);
        let wrapped = Matrix::from(row);
        assert(wrapped@[0] == goal);
        let target = wrapped.transpose();
        assert(shaped(self.data@[n as int], self.layers@[n as int] as nat, 1));
        let mut errors = target.subtract(&self.data[n]).unwrap();
        let mut gradients = self.data[n].map(&self.activation.derivative);
        let ghost mut ge: Seq<Seq<T>> = Seq::new((n + 1) as nat, |k: int| errors.column(0));
        let ghost mut gs: Seq<Seq<T>> = Seq::new(n as nat, |k: int| gradients.column(0));
        let ghost mut gg: Seq<Seq<T>> = Seq::new(n as nat, |k: int| gradients.column(0));
        proof {
            if obeys_arithmetic_spec::<T>() {
                assert forall|r: int| 0 <= r < self.layers@[n as int] implies #[trigger] ge[n as int][r]
                    == goal[r].sub_spec(self.data@[n as int].cell(r, 0)) by {
                    assert(target.cell(r, 0) == goal[r]);
                    assert(ge[n as int][r] == errors.cell(r, 0));
                }
            }
        }
        let mut i: usize = n;
        while i > 0
            invariant
                self.wf(),
                self.cache_ready(),
                self.same_setup(&start),
                self.data@ == start.data@,
                arithmetic_is_total::<T>(),
                n == self.layers@.len() - 1,
                i <= n,
                shaped(errors, self.layers@[i as int] as nat, 1),
                shaped(gradients, self.layers@[i as int] as nat, 1),
                ge.len() == n + 1,
                gs.len() == n,
                gg.len() == n,
                ge[i as int] == errors.column(0),
                forall|r: int|
                    0 <= r < self.layers@[i as int] ==> self.activation.derivative.ensures(
                        (self.data@[i as int].cell(r, 0),),
                        #[trigger] gradients.cell(r, 0),
                    ),
                forall|k: int| 0 <= k < i ==> self.weights@[k] == start.weights@[k],
                forall|k: int| 0 <= k < i ==> self.biases@[k] == start.biases@[k],
                obeys_arithmetic_spec::<T>() ==> forall|r: int|
                    0 <= r < self.layers@[n as int] ==> #[trigger] ge[n as int][r] == goal[r].sub_spec(
                        self.data@[n as int].cell(r, 0),
                    ),
                obeys_arithmetic_spec::<T>() ==> forall|k: int|
                    i <= k < n ==> #[trigger] start.back_step(self, k, ge, gs, gg),
            decreases i,
        {
            i = i - 1;
            let ghost before = *self;
            let ghost ge0 = ge;
            let ghost gs0 = gs;
            let ghost gg0 = gg;
            assert(shaped(self.weights@[i as int], self.layers@[i + 1] as nat, self.layers@[i as int] as nat));
            assert(shaped(self.biases@[i as int], self.layers@[i + 1] as nat, 1));
            assert(shaped(self.data@[i as int], self.layers@[i as int] as nat, 1));
            let product = gradients.dot_multiply(&errors).unwrap();
            let scaled = product.map(&self.scale_by_learning_rate);
            let input_row = self.data[i].transpose();
            let delta = scaled.multiply(&input_row).unwrap();
            let new_weights = self.weights[i].add(&delta).unwrap();
            let new_biases = self.biases[i].add(&scaled).unwrap();
            self.weights.set(i, new_weights);
            self.biases.set(i, new_biases);
            let transposed_weights = self.weights[i].transpose();
            let carried = transposed_weights.multiply(&errors).unwrap();
            proof {
                gs = gs.update(i as int, gradients.column(0));
                gg = gg.update(i as int, scaled.column(0));
                ge = ge.update(i as int, carried.column(0));
                if obeys_arithmetic_spec::<T>() {
                    let l = self.layers@;
                    let d = self.data@;
                    assert(ge[i + 1] == ge0[i + 1]);
                    assert(start.activation == self.activation);
                    assert(start.scale_by_learning_rate == self.scale_by_learning_rate);
                    assert(before.weights@[i as int] == start.weights@[i as int]);
                    assert(before.biases@[i as int] == start.biases@[i as int]);
                    assert forall|r: int| 0 <= r < l[i + 1] implies #[trigger] gs[i as int][r]
                        == gradients.cell(r, 0) && gg[i as int][r] == scaled.cell(r, 0)
                        && ge[i + 1][r] == errors.cell(r, 0) by {}
                    assert forall|r: int| 0 <= r < l[i + 1] implies self.activation.derivative.ensures(
                        (d[i + 1].cell(r, 0),),
                        #[trigger] gs[i as int][r],
                    ) by {
                        assert(gs[i as int][r] == gradients.cell(r, 0));
                    }
                    assert forall|r: int| 0 <= r < l[i + 1] implies self.scale_by_learning_rate.ensures(
                        (gs[i as int][r].mul_spec(ge[i + 1][r]),),
                        #[trigger] gg[i as int][r],
                    ) by {
                        assert(gs[i as int][r] == gradients.cell(r, 0));
                        assert(ge[i + 1][r] == errors.cell(r, 0));
                        assert(gg[i as int][r] == scaled.cell(r, 0));
                        assert(product.cell(r, 0) == gradients.cell(r, 0).mul_spec(errors.cell(r, 0)));
                    }
                    assert forall|r: int, c: int| 0 <= r < l[i + 1] && 0 <= c < l[i as int]
                        implies #[trigger] delta.cell(r, c) == gg[i as int][r].mul_spec(
                        d[i as int].cell(c, 0),
                    ) by {
                        assert(input_row.column(c)[0] == d[i as int].cell(c, 0));
                    }
                    assert forall|c: int| 0 <= c < l[i as int] implies #[trigger] ge[i as int][c]
                        == dot(self.weights@[i as int].column(c), ge[i + 1], l[i + 1] as nat) by {
                        assert(transposed_weights@[c] =~= self.weights@[i as int].column(c));
                        assert(errors.column(0) == ge[i + 1]);
                        assert(ge[i as int][c] == carried.cell(c, 0));
                    }
                    assert(start.back_step(self, i as int, ge, gs, gg));
                    assert forall|k: int| i < k < n implies #[trigger] start.back_step(
                        self,
                        k,
                        ge,
                        gs,
                        gg,
                    ) by {
                        assert(start.back_step(&before, k, ge0, gs0, gg0));
                        assert(ge[k] == ge0[k] && ge[k + 1] == ge0[k + 1]);
                        assert(gs[k] == gs0[k] && gg[k] == gg0[k]);
                        assert(self.weights@[k] == before.weights@[k]);
                        assert(self.biases@[k] == before.biases@[k]);
                    }
                }
            }
            errors = carried;
            gradients = self.data[i].map(&self.activation.derivative);
        }
        proof {
            if obeys_arithmetic_spec::<T>() {
                assert(start.back_trace(self, goal, ge, gs, gg));
            }
        }
        Ok(())
    }

    /// The examples and their targets are equally many and of the first and
    /// last layers' widths.
    pub open spec fn examples_fit(&self, inputs: Seq<Vec<T>>, targets: Seq<Vec<T>>) -> bool {
        &&& inputs.len() == targets.len()
        &&& all_of_width(inputs, self.layers@[0])
        &&& all_of_width(targets, self.output_width())
    }

    /// The error that `train` and `validate` give for examples that do not
    /// fit: the counts first, then the inputs, then the targets.
    pub open spec fn examples_error(&self, inputs: Seq<Vec<T>>, targets: Seq<Vec<T>>) -> NetworkError {
        if inputs.len() != targets.len() {
            NetworkError::ExampleCountMismatch
        } else if !all_of_width(inputs, self.layers@[0]) {
            NetworkError::InputShapeMismatch
        } else {
            NetworkError::TargetShapeMismatch
        }
    }

    fn check_examples(&self, inputs: &Vec<Vec<T>>, targets: &Vec<Vec<T>>) -> (r: Result<
        (),
        NetworkError,
    >)
        requires
            self.wf(),
        ensures
            r is Ok <==> self.examples_fit(inputs@, targets@),
            r is Err ==> r == Err::<(), NetworkError>(self.examples_error(inputs@, targets@)),
    {
        if inputs.len() != targets.len() {
            return Err(NetworkError::ExampleCountMismatch);
        }
        if !check_widths(inputs, self.layers[0]) {
            return Err(NetworkError::InputShapeMismatch);
        }
        if !check_widths(targets, self.layers[self.layers.len() - 1]) {
            return Err(NetworkError::TargetShapeMismatch);
        }
        Ok(())
    }

    /// Online training: for each example in the order given, one forward
    /// pass and then one step of backpropagation towards its target.
    /// Examples that do not fit are refused before any step is taken.
    pub fn train(&mut self, inputs: &Vec<Vec<T>>, targets: &Vec<Vec<T>>) -> (r: Result<
        (),
        NetworkError,
    >)
        requires
            old(self).wf(),
            arithmetic_is_total::<T>(),
        ensures
            final(self).wf(),
            final(self).same_setup(old(self)),
            r is Ok <==> old(self).examples_fit(inputs@, targets@),
            r is Err ==> r == Err::<(), NetworkError>(old(self).examples_error(inputs@, targets@))
                && *final(self) == *old(self),
            r is Ok && inputs@.len() > 0 ==> final(self).cache_ready(),
            r is Ok ==> exists|states: Seq<Self>|
                {
                    &&& states.len() == inputs@.len() + 1
                    &&& states[0] == *old(self)
                    &&& states[inputs@.len() as int] == *final(self)
                    &&& forall|j: int|
                        0 <= j < inputs@.len() ==> #[trigger] states[j].trained_on(
                            &states[j + 1],
                            inputs@[j]@,
                            targets@[j]@,
                        )
                },
    {
        let checked = self.check_examples(inputs, targets);
        if checked.is_err() {
            return checked;
        }
        let ghost start = *self;
        let ghost mut states: Seq<Self> = seq![*self];
        let mut j: usize = 0;
        while j < inputs.len()
            invariant
                self.wf(),
                self.same_setup(&start),
                arithmetic_is_total::<T>(),
                start.examples_fit(inputs@, targets@),
                j <= inputs@.len(),
                j > 0 ==> self.cache_ready(),
                states.len() == j + 1,
                states[0] == start,
                states[j as int] == *self,
                forall|k: int|
                    0 <= k < j ==> #[trigger] states[k].trained_on(
                        &states[k + 1],
                        inputs@[k]@,
                        targets@[k]@,
                    ),
            decreases inputs@.len() - j,
        {
            let x = copy_of(&inputs[j]);
            let t = copy_of(&targets[j]);
            assert(inputs@[j as int]@.len() == self.layers@[0]);
            assert(targets@[j as int]@.len() == self.output_width());
            let ghost before = *self;
            let out = self.feed_forward(x);
            let ghost mid = *self;
            let ghost produced = out.unwrap()@;
            assert(before.forward_result(&mid, inputs@[j as int]@, produced));
            let step = self.back_propogate(t);
            assert(step is Ok);
            assert(mid.back_result(self, targets@[j as int]@));
            assert(before.trained_on(self, inputs@[j as int]@, targets@[j as int]@));
            let ghost old_states = states;
            proof {
                states = states.push(*self);
                assert forall|k: int| 0 <= k < j + 1 implies #[trigger] states[k].trained_on(
                    &states[k + 1],
                    inputs@[k]@,
                    targets@[k]@,
                ) by {
                    if k < j {
                        assert(old_states[k].trained_on(&old_states[k + 1], inputs@[k]@, targets@[k]@));
                    }
                }
            }
            j = j + 1;
        }
        Ok(())
    }
}

impl<
    T: Copy + Add<Output = T> + Sub<Output = T> + Mul<Output = T> + PartialOrd,
    F: Fn(T) -> T,
    D: Fn(T) -> T,
    L: Fn(T) -> T,
> Network<T, F, D, L> {
    /// Scores the network on labelled examples: each example runs forward,
    /// its class is the first maximum of the output, and it counts as right
    /// when that is the first maximum of its label.  Misses are tallied by
    /// the label's class.  The weights and biases are not touched; examples
    /// that do not fit are refused before any pass.
    pub fn validate(&mut self, examples: &Vec<Vec<T>>, labels: &Vec<Vec<T>>) -> (r: Result<
        Validation<T>,
        NetworkError,
    >)
        requires
            old(self).wf(),
            arithmetic_is_total::<T>(),
        ensures
            final(self).wf(),
            final(self).same_setup(old(self)),
            final(self).weights@ == old(self).weights@,
            final(self).biases@ == old(self).biases@,
            r is Ok <==> old(self).examples_fit(examples@, labels@),
            r is Err ==> r == Err::<Validation<T>, NetworkError>(
                old(self).examples_error(examples@, labels@),
            ) && *final(self) == *old(self),
            r matches Ok(v) ==> {
                let n = examples@.len();
                let width = old(self).output_width();
                &&& v.predicted@.len() == n
                &&& exists|states: Seq<Self>|
                    {
                        &&& states.len() == n + 1
                        &&& states[0] == *old(self)
                        &&& states[n as int] == *final(self)
                        &&& forall|j: int|
                            0 <= j < n ==> #[trigger] states[j].forward_result(
                                &states[j + 1],
                                examples@[j]@,
                                v.outputs@[j]@,
                            )
                    }
                &&& v.expected@.len() == n
                &&& v.outputs@.len() == n
                &&& forall|i: int| 0 <= i < n ==> #[trigger] v.predicted@[i] < width
                &&& forall|i: int| 0 <= i < n ==> #[trigger] v.expected@[i] < width
                &&& forall|i: int| 0 <= i < n ==> (#[trigger] v.outputs@[i])@.len() == width
                &&& T::obeys_partial_cmp_spec() ==> forall|i: int|
                    0 <= i < n ==> #[trigger] v.predicted@[i] == first_max_index(v.outputs@[i]@, width as nat)
                &&& T::obeys_partial_cmp_spec() ==> forall|i: int|
                    0 <= i < n ==> #[trigger] v.expected@[i] == first_max_index(labels@[i]@, width as nat)
                &&& v.rights == count_matches(v.predicted@, v.expected@, n)
                &&& v.wrongs == n - v.rights
                &&& v.failed@.len() == width
                &&& forall|c: int|
                    0 <= c < width ==> #[trigger] v.failed@[c] == count_misses(
                        v.predicted@,
                        v.expected@,
                        c as nat,
                        n,
                    )
            },
    {
        match self.check_examples(examples, labels) {
            Err(e) => {
                return Err(e);
            },
            Ok(()) => {},
        }
        let ghost start = *self;
        let width = self.layers[self.layers.len() - 1];
        let mut failed: Vec<usize> = Vec::new();
        let mut c: usize = 0;
        while c < width
            invariant
                c <= width,
                failed@ == Seq::new(c as nat, |k: int| 0usize),
            decreases width - c,
        {
            failed.push(0);
            c = c + 1;
            assert(failed@ =~= Seq::new(c as nat, |k: int| 0usize));
        }
        let mut rights: usize = 0;
        let mut wrongs: usize = 0;
        let mut predicted: Vec<usize> = Vec::new();
        let mut expected: Vec<usize> = Vec::new();
        let mut outputs: Vec<Vec<T>> = Vec::new();
        let ghost mut states: Seq<Self> = seq![*self];
        let mut j: usize = 0;
        while j < examples.len()
            invariant
                self.wf(),
                self.same_setup(&start),
                states.len() == j + 1,
                states[0] == start,
                states[j as int] == *self,
                forall|k: int|
                    0 <= k < j ==> #[trigger] states[k].forward_result(
                        &states[k + 1],
                        examples@[k]@,
                        outputs@[k]@,
                    ),
                self.weights@ == start.weights@,
                self.biases@ == start.biases@,
                arithmetic_is_total::<T>(),
                start.examples_fit(examples@, labels@),
                width == start.output_width(),
                j <= examples@.len(),
                predicted@.len() == j,
                expected@.len() == j,
                outputs@.len() == j,
                forall|i: int| 0 <= i < j ==> #[trigger] predicted@[i] < width,
                forall|i: int| 0 <= i < j ==> #[trigger] expected@[i] < width,
                forall|i: int| 0 <= i < j ==> (#[trigger] outputs@[i])@.len() == width,
                T::obeys_partial_cmp_spec() ==> forall|i: int|
                    0 <= i < j ==> #[trigger] predicted@[i] == first_max_index(outputs@[i]@, width as nat),
                T::obeys_partial_cmp_spec() ==> forall|i: int|
                    0 <= i < j ==> #[trigger] expected@[i] == first_max_index(labels@[i]@, width as nat),
                rights == count_matches(predicted@, expected@, j as nat),
                rights <= j,
                wrongs == j - rights,
                failed@.len() == width,
                forall|k: int|
                    0 <= k < width ==> #[trigger] failed@[k] == count_misses(
                        predicted@,
                        expected@,
                        k as nat,
                        j as nat,
                    ),
                forall|k: int| 0 <= k < width ==> #[trigger] failed@[k] <= j,
            decreases examples@.len() - j,
        {
            assert(examples@[j as int]@.len() == self.layers@[0]);
            assert(labels@[j as int]@.len() == width);
            let x = copy_of(&examples[j]);
            let ghost before = *self;
            let result = self.feed_forward(x);
            let out = result.unwrap();
            assert(before.forward_result(self, examples@[j as int]@, out@));
            let label = copy_of(&labels[j]);
            let guess = find_max_index(copy_of(&out)).unwrap();
            let truth = find_max_index(label).unwrap();
            let ghost p0 = predicted@;
            let ghost e0 = expected@;
            predicted.push(guess);
            expected.push(truth);
            let ghost o0 = outputs@;
            outputs.push(out);
            let ghost old_states = states;
            proof {
                states = states.push(*self);
                assert forall|k: int| 0 <= k < j + 1 implies #[trigger] states[k].forward_result(
                    &states[k + 1],
                    examples@[k]@,
                    outputs@[k]@,
                ) by {
                    if k < j {
                        assert(outputs@[k] == o0[k]);
                        assert(old_states[k].forward_result(&old_states[k + 1], examples@[k]@, o0[k]@));
                    }
                }
            }
            assert(predicted@.take(j as int) == p0);
            assert(expected@.take(j as int) == e0);
            proof {
                lemma_matches_prefix(p0, e0, predicted@, expected@, j as nat);
                assert forall|k: int| 0 <= k < width implies #[trigger] count_misses(
                    predicted@,
                    expected@,
                    k as nat,
                    j as nat,
                ) == count_misses(p0, e0, k as nat, j as nat) by {
                    lemma_misses_prefix(p0, e0, predicted@, expected@, k as nat, j as nat);
                }
            }
            let ghost f0 = failed@;
            if guess == truth {
                rights = rights + 1;
            } else {
                wrongs = wrongs + 1;
                let missed = failed[truth] + 1;
                failed.set(truth, missed);
            }
            assert forall|k: int| 0 <= k < width implies #[trigger] failed@[k] == count_misses(
                predicted@,
                expected@,
                k as nat,
                (j + 1) as nat,
            ) by {
                assert(count_misses(predicted@, expected@, k as nat, (j + 1) as nat) == count_misses(
                    predicted@,
                    expected@,
                    k as nat,
                    j as nat,
                ) + if guess != truth && truth == k {
                    1nat
                } else {
                    0nat
                });
                assert(f0[k] == count_misses(p0, e0, k as nat, j as nat));
            }
            j = j + 1;
        }
        Ok(Validation { rights, wrongs, failed, predicted, expected, outputs })
    }
}

impl<T: Copy, F: Fn(T) -> T, D: Fn(T) -> T, L: Fn(T) -> T> Network<T, F, D, L> {
    /// A copy of the weights and biases as nested rows, in layer order.
    pub fn save_data(&self) -> (r: SaveData<T>)
        requires
            self.wf(),
        ensures
            nested_grids(r.weights@) == grids(self.weights@),
            nested_grids(r.biases@) == grids(self.biases@),
    {
        let n = self.layers.len() - 1;
        let mut weights: Vec<Vec<Vec<T>>> = Vec::new();
        let mut biases: Vec<Vec<Vec<T>>> = Vec::new();
        let mut i: usize = 0;
        while i < n
            invariant
                self.wf(),
                n == self.layers@.len() - 1,
                i <= n,
                weights@.len() == i,
                biases@.len() == i,
                forall|k: int| 0 <= k < i ==> grid_of((#[trigger] weights@[k])@) == self.weights@[k]@,
                forall|k: int| 0 <= k < i ==> grid_of((#[trigger] biases@[k])@) == self.biases@[k]@,
            decreases n - i,
        {
            assert(shaped(self.weights@[i as int], self.layers@[i + 1] as nat, self.layers@[i as int] as nat));
            assert(shaped(self.biases@[i as int], self.layers@[i + 1] as nat, 1));
            weights.push(self.weights[i].to_rows());
            biases.push(self.biases[i].to_rows());
            i = i + 1;
        }
        let r = SaveData { weights, biases };
        assert(nested_grids(r.weights@) =~= grids(self.weights@));
        assert(nested_grids(r.biases@) =~= grids(self.biases@));
        r
    }

    /// Replaces the weights and biases by those of `save`, once every one of
    /// them is checked to fit the layers; otherwise nothing changes.
    pub fn load(&mut self, save: SaveData<T>) -> (r: Result<(), NetworkError>)
        requires
            old(self).wf(),
        ensures
            final(self).wf(),
            final(self).same_setup(old(self)),
            final(self).data@ == old(self).data@,
            r is Ok <==> grids_fit(
                old(self).layers@,
                nested_grids(save.weights@),
                nested_grids(save.biases@),
            ),
            r is Err ==> r == Err::<(), NetworkError>(NetworkError::TopologyMismatch) && *final(self)
                == *old(self),
            r is Ok ==> grids(final(self).weights@) == nested_grids(save.weights@) && grids(
                final(self).biases@,
            ) == nested_grids(save.biases@),
    {
        let n = self.layers.len() - 1;
        if save.weights.len() != n || save.biases.len() != n {
            return Err(NetworkError::TopologyMismatch);
        }
        let mut i: usize = 0;
        while i < n
            invariant
                self.wf(),
                n == self.layers@.len() - 1,
                save.weights@.len() == n,
                save.biases@.len() == n,
                i <= n,
                forall|k: int|
                    0 <= k < i ==> has_shape(
                        #[trigger] nested_grids(save.weights@)[k],
                        self.layers@[k + 1] as nat,
                        self.layers@[k] as nat,
                    ),
                forall|k: int|
                    0 <= k < i ==> has_shape(
                        #[trigger] nested_grids(save.biases@)[k],
                        self.layers@[k + 1] as nat,
                        1,
                    ),
            decreases n - i,
        {
            assert(nested_grids(save.weights@)[i as int] == grid_of(save.weights@[i as int]@));
            assert(nested_grids(save.biases@)[i as int] == grid_of(save.biases@[i as int]@));
            if !grid_has_shape(&save.weights[i], self.layers[i + 1], self.layers[i]) || !grid_has_shape(
                &save.biases[i],
                self.layers[i + 1],
                1,
            ) {
                return Err(NetworkError::TopologyMismatch);
            }
            i = i + 1;
        }
        let ghost saved_w = nested_grids(save.weights@);
        let ghost saved_b = nested_grids(save.biases@);
        let mut rest_w = save.weights;
        let mut rest_b = save.biases;
        let mut weights: Vec<Matrix<T>> = Vec::new();
        let mut biases: Vec<Matrix<T>> = Vec::new();
        let mut i: usize = 0;
        while i < n
            invariant
                self.wf(),
                n == self.layers@.len() - 1,
                grids_fit(self.layers@, saved_w, saved_b),
                i <= n,
                nested_grids(rest_w@) == saved_w.skip(i as int),
                nested_grids(rest_b@) == saved_b.skip(i as int),
                weights@.len() == i,
                biases@.len() == i,
                forall|k: int|
                    0 <= k < i ==> shaped(#[trigger] weights@[k], self.layers@[k + 1] as nat, self.layers@[k] as nat),
                forall|k: int| 0 <= k < i ==> shaped(#[trigger] biases@[k], self.layers@[k + 1] as nat, 1),
                forall|k: int| 0 <= k < i ==> (#[trigger] weights@[k])@ == saved_w[k],
                forall|k: int| 0 <= k < i ==> (#[trigger] biases@[k])@ == saved_b[k],
            decreases n - i,
        {
            assert(rest_w@.len() == nested_grids(rest_w@).len());
            assert(rest_b@.len() == nested_grids(rest_b@).len());
            let ghost rw = rest_w@;
            let ghost rb = rest_b@;
            assert(nested_grids(rw)[0] == saved_w[i as int]);
            assert(nested_grids(rb)[0] == saved_b[i as int]);
            let gw = rest_w.remove(0);
            let gb = rest_b.remove(0);
            assert forall|k: int| 0 <= k < rest_w@.len() implies #[trigger] nested_grids(rest_w@)[k]
                == saved_w.skip(i + 1)[k] by {
                assert(rest_w@[k] == rw[k + 1]);
                assert(nested_grids(rw)[k + 1] == saved_w.skip(i as int)[k + 1]);
            }
            assert forall|k: int| 0 <= k < rest_b@.len() implies #[trigger] nested_grids(rest_b@)[k]
                == saved_b.skip(i + 1)[k] by {
                assert(rest_b@[k] == rb[k + 1]);
                assert(nested_grids(rb)[k + 1] == saved_b.skip(i as int)[k + 1]);
            }
            assert(nested_grids(rest_w@) =~= saved_w.skip(i + 1));
            assert(nested_grids(rest_b@) =~= saved_b.skip(i + 1));
            assert(grid_of(gw@) == saved_w[i as int]);
            assert(grid_of(gb@) == saved_b[i as int]);
            assert(has_shape(saved_w[i as int], self.layers@[i + 1] as nat, self.layers@[i as int] as nat));
            assert(grid_of(gw@)[0] == gw@[0]@);
            assert(grid_of(gb@)[0] == gb@[0]@);
            let w = Matrix::from(gw);
            let b = Matrix::from(gb);
            assert(w@ == grid_of(gw@));
            assert forall|a: int| 0 <= a < w.rows implies (#[trigger] gw@[a])@.len() == gw@[0]@.len() by {
                assert(grid_of(gw@)[a] == gw@[a]@);
            }
            assert forall|a: int| 0 <= a < b.rows implies (#[trigger] gb@[a])@.len() == gb@[0]@.len() by {
                assert(grid_of(gb@)[a] == gb@[a]@);
            }
            weights.push(w);
            biases.push(b);
            i = i + 1;
        }
        self.weights = weights;
        self.biases = biases;
        assert(grids(self.weights@) =~= saved_w);
        assert(grids(self.biases@) =~= saved_b);
        Ok(())
    }
}

impl<T, F, D, L> Network<T, F, D, L> {
    /// The layer widths in decimal, joined by `-` (for instance `784-800-10`).
    pub fn model(&self) -> (r: String)
        ensures
            r@ == model_name(self.layers@, self.layers@.len()),
    {
        let mut name = String::new();
        let mut i: usize = 0;
        while i < self.layers.len()
            invariant
                i <= self.layers@.len(),
                name@ == model_name(self.layers@, i as nat),
            decreases self.layers@.len() - i,
        {
            let piece = decimal_string(self.layers[i]);
            if i > 0 {
                proof {
                    reveal_strlit("-");
                }
                name.append("-");
            }
            name.append(piece.as_str());
            i = i + 1;
        }
        name
    }
}

/// What `save_data` returns fits the network it came from, so `load` on the
/// unchanged network accepts it and puts back every weight and bias cell as
/// it was.
pub proof fn lemma_save_then_load<T, F: Fn(T) -> T, D: Fn(T) -> T, L: Fn(T) -> T>(
    net: Network<T, F, D, L>,
    saved: SaveData<T>,
)
    requires
        net.wf(),
        nested_grids(saved.weights@) == grids(net.weights@),
        nested_grids(saved.biases@) == grids(net.biases@),
    ensures
        grids_fit(net.layers@, nested_grids(saved.weights@), nested_grids(saved.biases@)),
{
    let l = net.layers@;
    assert forall|i: int| 0 <= i < l.len() - 1 implies has_shape(
        #[trigger] nested_grids(saved.weights@)[i],
        l[i + 1] as nat,
        l[i] as nat,
    ) by {
        assert(shaped(net.weights@[i], l[i + 1] as nat, l[i] as nat));
        assert(grids(net.weights@)[i] == net.weights@[i]@);
    }
    assert forall|i: int| 0 <= i < l.len() - 1 implies has_shape(
        #[trigger] nested_grids(saved.biases@)[i],
        l[i + 1] as nat,
        1,
    ) by {
        assert(shaped(net.biases@[i], l[i + 1] as nat, 1));
        assert(grids(net.biases@)[i] == net.biases@[i]@);
    }
}

} // verus!
