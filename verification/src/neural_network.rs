//! A fixed-topology feed-forward network over an abstract scalar.
//!
//! The network is an ordered stack of `(weight, bias)` transitions together
//! with one single-row activation matrix per layer.  The activations are
//! private mutable scratch reused by every forward pass: `forward`, `cost`
//! and `test` overwrite them, so results read from a prior call are
//! invalidated by the next one.  Training happens by numerical
//! (finite-difference) gradient estimation followed by a gradient-descent
//! update; the estimator perturbs one parameter at a time and restores it
//! exactly before touching the next.

use crate::matrix::{lemma_flat_index, lemma_flat_index_injective, Matrix, MatrixView, dot_prefix, product_cell};
use crate::scalar::Scalar;
use vstd::prelude::*;

verus! {

/// The mathematical value of a network: the weight, bias and activation
/// matrices, layer by layer.
#[verifier::ext_equal]
pub ghost struct NetView<T> {
    pub weight: Seq<MatrixView<T>>,
    pub bias: Seq<MatrixView<T>>,
    pub activation: Seq<MatrixView<T>>,
}

impl<T> NetView<T> {
    /// The number of weight/bias transitions (one less than the number of
    /// activation rows).
    pub open spec fn depth(self) -> nat {
        self.weight.len()
    }

    /// The structural invariant: one bias and one activation column count
    /// per transition, single-row biases and activations, and weight shapes
    /// that chain each activation row to the next.
    pub open spec fn wf(self) -> bool {
        &&& self.bias.len() == self.depth()
        &&& self.activation.len() == self.depth() + 1
        &&& forall|i: int|
            0 <= i <= self.depth() ==> (#[trigger] self.activation[i]).wf()
                && self.activation[i].rows == 1
        &&& forall|i: int| 0 <= i < self.depth() ==> (#[trigger] self.weight[i]).wf()
        &&& forall|i: int|
            0 <= i < self.depth() ==> (#[trigger] self.bias[i]).wf() && self.bias[i].rows == 1
        &&& forall|i: int|
            0 <= i < self.depth() ==> (#[trigger] self.weight[i]).rows == self.activation[i].cols
        &&& forall|i: int|
            0 <= i < self.depth() ==> (#[trigger] self.weight[i]).cols == self.activation[
                i + 1
            ].cols
        &&& forall|i: int|
            0 <= i < self.depth() ==> (#[trigger] self.bias[i]).cols == self.activation[
                i + 1
            ].cols
    }

    /// The weight matrices' cell sequences, layer by layer.
    pub open spec fn wdata(self) -> Seq<Seq<T>> {
        self.weight.map_values(|m: MatrixView<T>| m.data)
    }

    /// The bias matrices' cell sequences, layer by layer.
    pub open spec fn bdata(self) -> Seq<Seq<T>> {
        self.bias.map_values(|m: MatrixView<T>| m.data)
    }

    /// The training matrices fit this network: equal row counts, target
    /// width equal to the final layer's width, input width equal to the
    /// input activation row's width.
    pub open spec fn fits(self, input: MatrixView<T>, target: MatrixView<T>) -> bool {
        &&& input.wf()
        &&& target.wf()
        &&& input.rows == target.rows
        &&& target.cols == self.activation[self.depth() as int].cols
        &&& input.cols == self.activation[0].cols
    }

    /// Layer-by-layer shape agreement; a gradient accumulator must share the
    /// topology of the network whose gradient it receives.
    pub open spec fn same_topology(self, other: NetView<T>) -> bool {
        &&& self.depth() == other.depth()
        &&& forall|i: int|
            0 <= i < self.depth() ==> (#[trigger] self.weight[i]).same_shape(other.weight[i])
        &&& forall|i: int|
            0 <= i < self.depth() ==> (#[trigger] self.bias[i]).same_shape(other.bias[i])
        &&& forall|i: int|
            0 <= i <= self.depth() ==> (#[trigger] self.activation[i]).same_shape(
                other.activation[i],
            )
    }
}

/// The first `n` terms of the dot product of the row vector `x` with column
/// `c` of the row-major weight data `w` (laid out with `wcols` columns),
/// accumulated from zero in strictly increasing index order.
pub open spec fn dot_at<T: Scalar>(x: Seq<T>, w: Seq<T>, wcols: int, c: int, n: int) -> T
    decreases n,
{
    if n <= 0 {
        T::zero_spec()
    } else {
        dot_at(x, w, wcols, c, n - 1).add_spec(x[n - 1].mul_spec(w[(n - 1) * wcols + c]))
    }
}

/// One fully-connected sigmoid layer: column `c` of the output row is
/// `sigmoid(dot(x, column c of w) + b[c])`.
pub open spec fn layer_out<T: Scalar>(x: Seq<T>, w: Seq<T>, b: Seq<T>) -> Seq<T> {
    Seq::new(
        b.len(),
        |c: int| dot_at(x, w, b.len() as int, c, x.len() as int).add_spec(b[c]).sigmoid_spec(),
    )
}

/// The activation row after the first `n` layers of the network with weight
/// data `ws` and bias data `bs`, fed the input row `x`; layer `i + 1`
/// consumes exactly layer `i`'s output.
pub open spec fn net_out<T: Scalar>(x: Seq<T>, ws: Seq<Seq<T>>, bs: Seq<Seq<T>>, n: int) -> Seq<T>
    decreases n,
{
    if n <= 0 {
        x
    } else {
        layer_out(net_out(x, ws, bs, n - 1), ws[n - 1], bs[n - 1])
    }
}

/// For a single-row matrix `a`, the matrix-level dot product agrees with the
/// sequence-level one over `a`'s backing data.
pub proof fn lemma_dot_prefix_row<T: Scalar>(a: MatrixView<T>, b: MatrixView<T>, c: int, n: int)
    requires
        a.rows == 1,
    ensures
        dot_prefix(a, b, 0, c, n) == dot_at(a.data, b.data, b.cols as int, c, n),
    decreases n,
{
    if n > 0 {
        lemma_dot_prefix_row(a, b, c, n - 1);
    }
}

/// `acc` plus the squared differences of the first `n` columns of the model
/// output row `y` and the truth row `t`, accumulated in increasing column
/// order.
pub open spec fn sq_err_acc<T: Scalar>(acc: T, y: Seq<T>, t: Seq<T>, n: int) -> T
    decreases n,
{
    if n <= 0 {
        acc
    } else {
        sq_err_acc(acc, y, t, n - 1).add_spec(
            (y[n - 1].sub_spec(t[n - 1])).mul_spec(y[n - 1].sub_spec(t[n - 1])),
        )
    }
}

/// `acc` plus the squared error of the network (weight data `ws`, bias data
/// `bs`) over the first `t` training rows of `input` against `target`,
/// row by row in order.
pub open spec fn cost_acc<T: Scalar>(
    acc: T,
    ws: Seq<Seq<T>>,
    bs: Seq<Seq<T>>,
    input: MatrixView<T>,
    target: MatrixView<T>,
    t: int,
) -> T
    decreases t,
{
    if t <= 0 {
        acc
    } else {
        sq_err_acc(
            cost_acc(acc, ws, bs, input, target, t - 1),
            net_out(input.row_seq(t - 1), ws, bs, ws.len() as int),
            target.row_seq(t - 1),
            target.cols as int,
        )
    }
}

/// The mean squared error of the network over the whole training set: the
/// accumulated squared error divided by the row count.
pub open spec fn cost_model<T: Scalar>(
    ws: Seq<Seq<T>>,
    bs: Seq<Seq<T>>,
    input: MatrixView<T>,
    target: MatrixView<T>,
) -> T {
    cost_acc(T::zero_spec(), ws, bs, input, target, input.rows as int).div_spec(
        T::from_count_spec(input.rows as int),
    )
}

/// For a single training row with a single output column, the cost is the
/// squared difference of the output cell from its target — accumulated onto
/// the scalar's zero — divided by the row count.  Whether that quantity is
/// non-negative depends on the scalar's arithmetic, so no more is claimed
/// here.
pub proof fn lemma_cost_single_cell<T: Scalar>(
    ws: Seq<Seq<T>>,
    bs: Seq<Seq<T>>,
    input: MatrixView<T>,
    target: MatrixView<T>,
)
    requires
        input.rows == 1,
        target.cols == 1,
    ensures
        cost_model(ws, bs, input, target) == ({
            let d = net_out(input.row_seq(0), ws, bs, ws.len() as int)[0].sub_spec(
                target.row_seq(0)[0],
            );
            T::zero_spec().add_spec(d.mul_spec(d)).div_spec(T::from_count_spec(1))
        }),
{
    reveal_with_fuel(sq_err_acc, 2);
    reveal_with_fuel(cost_acc, 2);
    let y = net_out(input.row_seq(0), ws, bs, ws.len() as int);
    let trow = target.row_seq(0);
    let d = y[0].sub_spec(trow[0]);
    assert(sq_err_acc(T::zero_spec(), y, trow, 1) == T::zero_spec().add_spec(d.mul_spec(d)));
    assert(cost_acc(T::zero_spec(), ws, bs, input, target, 1) == sq_err_acc(
        T::zero_spec(),
        y,
        trow,
        1,
    ));
}

/// The one-sided finite-difference estimate for weight cell `(r, c)` of
/// transition `i` of the network `net`: the cost with that single weight
/// nudged up by `eps` (all other parameters at their original values),
/// minus the baseline cost, divided by `eps`.
pub open spec fn wgrad_cell<T: Scalar>(
    net: NetView<T>,
    input: MatrixView<T>,
    target: MatrixView<T>,
    eps: T,
    i: int,
    r: int,
    c: int,
) -> T {
    let p = r * net.weight[i].cols + c;
    let bumped = net.wdata().update(i, net.wdata()[i].update(p, net.wdata()[i][p].add_spec(eps)));
    cost_model(bumped, net.bdata(), input, target).sub_spec(
        cost_model(net.wdata(), net.bdata(), input, target),
    ).div_spec(eps)
}

/// The one-sided finite-difference estimate for bias cell `(r, c)` of
/// transition `i`, defined like `wgrad_cell` with the bias nudged instead.
pub open spec fn bgrad_cell<T: Scalar>(
    net: NetView<T>,
    input: MatrixView<T>,
    target: MatrixView<T>,
    eps: T,
    i: int,
    r: int,
    c: int,
) -> T {
    let p = r * net.bias[i].cols + c;
    let bumped = net.bdata().update(i, net.bdata()[i].update(p, net.bdata()[i][p].add_spec(eps)));
    cost_model(net.wdata(), bumped, input, target).sub_spec(
        cost_model(net.wdata(), net.bdata(), input, target),
    ).div_spec(eps)
}

/// Every weight-gradient cell lexicographically before `(i, r, c)` (layer
/// first, then row, then column) holds its finite-difference estimate.
pub open spec fn wgrad_upto<T: Scalar>(
    g: NetView<T>,
    net: NetView<T>,
    input: MatrixView<T>,
    target: MatrixView<T>,
    eps: T,
    i: int,
    r: int,
    c: int,
) -> bool {
    forall|i2: int, r2: int, c2: int|
        0 <= i2 < net.depth() && 0 <= r2 < net.weight[i2].rows && 0 <= c2 < net.weight[i2].cols
            && (i2 < i || (i2 == i && (r2 < r || (r2 == r && c2 < c)))) ==> (#[trigger] g.weight[
            i2
        ].cell(r2, c2)) == wgrad_cell(net, input, target, eps, i2, r2, c2)
}

/// Every bias-gradient cell lexicographically before `(i, r, c)` holds its
/// finite-difference estimate.
pub open spec fn bgrad_upto<T: Scalar>(
    g: NetView<T>,
    net: NetView<T>,
    input: MatrixView<T>,
    target: MatrixView<T>,
    eps: T,
    i: int,
    r: int,
    c: int,
) -> bool {
    forall|i2: int, r2: int, c2: int|
        0 <= i2 < net.depth() && 0 <= r2 < net.bias[i2].rows && 0 <= c2 < net.bias[i2].cols && (
        i2 < i || (i2 == i && (r2 < r || (r2 == r && c2 < c)))) ==> (#[trigger] g.bias[i2].cell(
            r2,
            c2,
        )) == bgrad_cell(net, input, target, eps, i2, r2, c2)
}

/// Forward propagation is a function of the weights, biases and input row
/// alone: two networks that agree on those produce the same activation row
/// at every layer.
pub proof fn lemma_forward_deterministic<T: Scalar>(a: NetView<T>, b: NetView<T>, n: int)
    requires
        a.wdata() == b.wdata(),
        a.bdata() == b.bdata(),
        a.activation[0].data == b.activation[0].data,
    ensures
        net_out(a.activation[0].data, a.wdata(), a.bdata(), n) == net_out(
            b.activation[0].data,
            b.wdata(),
            b.bdata(),
            n,
        ),
{
}

/// A feed-forward network of fully-connected sigmoid layers.
#[derive(Clone, Debug)]
pub struct NeuralNetwork<T> {
    size: usize,
    weight: Vec<Matrix<T>>,
    bias: Vec<Matrix<T>>,
    activation: Vec<Matrix<T>>,
}

impl<T> View for NeuralNetwork<T> {
    type V = NetView<T>;

    closed spec fn view(&self) -> NetView<T> {
        NetView {
            weight: self.weight@.map_values(|m: Matrix<T>| m@),
            bias: self.bias@.map_values(|m: Matrix<T>| m@),
            activation: self.activation@.map_values(|m: Matrix<T>| m@),
        }
    }
}

impl<T: Scalar> NeuralNetwork<T> {
    /// The cached transition count agrees with the stored matrices.
    pub closed spec fn size_ok(&self) -> bool {
        self.size == self.weight@.len()
    }

    /// The network's well-formedness: the structural invariant of the view.
    pub open spec fn wf(&self) -> bool {
        self.size_ok() && self@.wf()
    }

    /// Builds a network from the layer widths `layers` (the input width
    /// followed by each layer's width), with every weight, bias and
    /// activation cell zero.
    pub fn new(layers: &Vec<usize>) -> (nn: Self)
        requires
            layers.len() > 0,
            forall|i: int| 0 < i < layers@.len() ==> (#[trigger] layers@[i]) * layers@[i - 1] <= usize::MAX,
        ensures
            nn.wf(),
            nn@.depth() == layers@.len() - 1,
            forall|i: int|
                0 <= i <= nn@.depth() ==> (#[trigger] nn@.activation[i]).cols == layers@[i],
            forall|i: int|
                0 <= i < nn@.depth() ==> (#[trigger] nn@.weight[i]).rows == layers@[i]
                    && nn@.weight[i].cols == layers@[i + 1],
            forall|i: int, j: int|
                0 <= i < nn@.depth() && 0 <= j < nn@.weight[i].data.len()
                    ==> (#[trigger] nn@.weight[i].data[j]) == T::zero_spec(),
            forall|i: int, j: int|
                0 <= i < nn@.depth() && 0 <= j < nn@.bias[i].data.len()
                    ==> (#[trigger] nn@.bias[i].data[j]) == T::zero_spec(),
            forall|i: int, j: int|
                0 <= i <= nn@.depth() && 0 <= j < nn@.activation[i].data.len()
                    ==> (#[trigger] nn@.activation[i].data[j]) == T::zero_spec(),
    {
        let mut weight: Vec<Matrix<T>> = Vec::new();
        let mut bias: Vec<Matrix<T>> = Vec::new();
        let mut activation: Vec<Matrix<T>> = Vec::new();
        assert(1 * layers@[0] <= usize::MAX) by (nonlinear_arith);
        activation.push(Matrix::new(1, layers[0]));
        let mut i: usize = 1;
        while i < layers.len()
            invariant
                1 <= i <= layers@.len(),
                forall|k: int| 0 < k < layers@.len() ==> (#[trigger] layers@[k]) * layers@[k - 1] <= usize::MAX,
                weight@.len() == i - 1,
                bias@.len() == i - 1,
                activation@.len() == i,
                forall|k: int|
                    0 <= k < i ==> (#[trigger] activation@[k]@).wf() && activation@[k]@.rows == 1
                        && activation@[k]@.cols == layers@[k],
                forall|k: int|
                    0 <= k < i - 1 ==> (#[trigger] weight@[k]@).wf() && weight@[k]@.rows
                        == layers@[k] && weight@[k]@.cols == layers@[k + 1],
                forall|k: int|
                    0 <= k < i - 1 ==> (#[trigger] bias@[k]@).wf() && bias@[k]@.rows == 1
                        && bias@[k]@.cols == layers@[k + 1],
                forall|k: int, j: int|
                    0 <= k < i - 1 && 0 <= j < weight@[k]@.data.len()
                        ==> (#[trigger] weight@[k]@.data[j]) == T::zero_spec(),
                forall|k: int, j: int|
                    0 <= k < i - 1 && 0 <= j < bias@[k]@.data.len()
                        ==> (#[trigger] bias@[k]@.data[j]) == T::zero_spec(),
                forall|k: int, j: int|
                    0 <= k < i && 0 <= j < activation@[k]@.data.len()
                        ==> (#[trigger] activation@[k]@.data[j]) == T::zero_spec(),
            decreases layers@.len() - i,
        {
            let r: usize = layers[i - 1];
            let c: usize = layers[i];
            assert(1 * c <= usize::MAX) by (nonlinear_arith);
            weight.push(Matrix::new(r, c));
            bias.push(Matrix::new(1, c));
            activation.push(Matrix::new(1, c));
            i = i + 1;
        }
        let nn = NeuralNetwork { size: layers.len() - 1, weight, bias, activation };
        nn
    }

    /// Builds a network from the layer widths `layers`, seeding every weight
    /// and bias (and every activation row past the input) from the front of
    /// `values`; each matrix reads its own prefix of the same sequence.  The
    /// input activation row starts at zero.
    pub fn from_iter(layers: &Vec<usize>, values: &Vec<T>) -> (nn: Self)
        requires
            layers.len() > 0,
            forall|i: int|
                0 < i < layers@.len() ==> (#[trigger] layers@[i]) * layers@[i - 1]
                    <= values@.len(),
            forall|i: int| 0 < i < layers@.len() ==> (#[trigger] layers@[i]) <= values@.len(),
        ensures
            nn.wf(),
            nn@.depth() == layers@.len() - 1,
            forall|i: int|
                0 <= i <= nn@.depth() ==> (#[trigger] nn@.activation[i]).cols == layers@[i],
            forall|i: int|
                0 <= i < nn@.depth() ==> (#[trigger] nn@.weight[i]).rows == layers@[i]
                    && nn@.weight[i].cols == layers@[i + 1],
            forall|i: int|
                0 <= i < nn@.depth() ==> (#[trigger] nn@.weight[i]).data == values@.take(
                    layers@[i] * layers@[i + 1],
                ),
            forall|i: int|
                0 <= i < nn@.depth() ==> (#[trigger] nn@.bias[i]).data == values@.take(
                    layers@[i + 1] as int,
                ),
            forall|i: int|
                0 < i <= nn@.depth() ==> (#[trigger] nn@.activation[i]).data == values@.take(
                    layers@[i] as int,
                ),
            forall|j: int|
                0 <= j < nn@.activation[0].data.len() ==> (#[trigger] nn@.activation[0].data[j])
                    == T::zero_spec(),
    {
        let mut weight: Vec<Matrix<T>> = Vec::new();
        let mut bias: Vec<Matrix<T>> = Vec::new();
        let mut activation: Vec<Matrix<T>> = Vec::new();
        assert(1 * layers@[0] <= usize::MAX) by (nonlinear_arith);
        activation.push(Matrix::new(1, layers[0]));
        let mut i: usize = 1;
        while i < layers.len()
            invariant
                1 <= i <= layers@.len(),
                forall|k: int|
                    0 < k < layers@.len() ==> (#[trigger] layers@[k]) * layers@[k - 1]
                        <= values@.len(),
                forall|k: int| 0 < k < layers@.len() ==> (#[trigger] layers@[k]) <= values@.len(),
                weight@.len() == i - 1,
                bias@.len() == i - 1,
                activation@.len() == i,
                forall|k: int|
                    0 <= k < i ==> (#[trigger] activation@[k]@).wf() && activation@[k]@.rows == 1
                        && activation@[k]@.cols == layers@[k],
                forall|k: int|
                    0 <= k < i - 1 ==> (#[trigger] weight@[k]@).wf() && weight@[k]@.rows
                        == layers@[k] && weight@[k]@.cols == layers@[k + 1],
                forall|k: int|
                    0 <= k < i - 1 ==> (#[trigger] bias@[k]@).wf() && bias@[k]@.rows == 1
                        && bias@[k]@.cols == layers@[k + 1],
                forall|k: int|
                    0 <= k < i - 1 ==> (#[trigger] weight@[k]@).data == values@.take(
                        layers@[k] * layers@[k + 1],
                    ),
                forall|k: int|
                    0 <= k < i - 1 ==> (#[trigger] bias@[k]@).data == values@.take(
                        layers@[k + 1] as int,
                    ),
                forall|k: int|
                    0 < k < i ==> (#[trigger] activation@[k]@).data == values@.take(
                        layers@[k] as int,
                    ),
                forall|j: int|
                    0 <= j < activation@[0]@.data.len() ==> (#[trigger] activation@[0]@.data[j])
                        == T::zero_spec(),
            decreases layers@.len() - i,
        {
            let r: usize = layers[i - 1];
            let c: usize = layers[i];
            weight.push(Matrix::from_iter(r, c, values));
            bias.push(Matrix::from_iter(1, c, values));
            activation.push(Matrix::from_iter(1, c, values));
            i = i + 1;
        }
        let nn = NeuralNetwork { size: layers.len() - 1, weight, bias, activation };
        nn
    }

    /// The number of weight/bias transitions.
    pub fn depth(&self) -> (r: usize)
        requires
            self.wf(),
        ensures
            r == self@.depth(),
    {
        self.size
    }

    /// The weight matrix of transition `i`.
    pub fn weight(&self, i: usize) -> (r: &Matrix<T>)
        requires
            self.wf(),
            i < self@.depth(),
        ensures
            r@ == self@.weight[i as int],
    {
        &self.weight[i]
    }

    /// The bias matrix of transition `i`.
    pub fn bias(&self, i: usize) -> (r: &Matrix<T>)
        requires
            self.wf(),
            i < self@.depth(),
        ensures
            r@ == self@.bias[i as int],
    {
        &self.bias[i]
    }

    /// The activation row of layer `i` as last written.
    pub fn activation(&self, i: usize) -> (r: &Matrix<T>)
        requires
            self.wf(),
            i <= self@.depth(),
        ensures
            r@ == self@.activation[i as int],
    {
        &self.activation[i]
    }

    /// Replaces the weight matrix of transition `i`; the replacement must
    /// share the existing shape.
    pub fn set_weight(&mut self, i: usize, m: Matrix<T>)
        requires
            old(self).wf(),
            i < old(self)@.depth(),
            m@.wf(),
            m@.same_shape(old(self)@.weight[i as int]),
        ensures
            final(self).wf(),
            final(self)@.weight == old(self)@.weight.update(i as int, m@),
            final(self)@.bias == old(self)@.bias,
            final(self)@.activation == old(self)@.activation,
    {
        self.weight[i] = m;
        proof {
            assert(self@.weight =~= old(self)@.weight.update(i as int, m@));
        }
    }

    /// Replaces the bias matrix of transition `i`; the replacement must
    /// share the existing shape.
    pub fn set_bias(&mut self, i: usize, m: Matrix<T>)
        requires
            old(self).wf(),
            i < old(self)@.depth(),
            m@.wf(),
            m@.same_shape(old(self)@.bias[i as int]),
        ensures
            final(self).wf(),
            final(self)@.bias == old(self)@.bias.update(i as int, m@),
            final(self)@.weight == old(self)@.weight,
            final(self)@.activation == old(self)@.activation,
    {
        self.bias[i] = m;
        proof {
            assert(self@.bias =~= old(self)@.bias.update(i as int, m@));
        }
    }

    /// Overwrites the input activation row by taking ownership of `input`,
    /// which must share its shape.
    pub fn set_input_take(&mut self, input: Matrix<T>)
        requires
            old(self).wf(),
            input@.wf(),
            input@.same_shape(old(self)@.activation[0]),
        ensures
            final(self).wf(),
            final(self)@.weight == old(self)@.weight,
            final(self)@.bias == old(self)@.bias,
            final(self)@.activation == old(self)@.activation.update(0, input@),
    {
        self.activation[0] = input;
        proof {
            assert(self@.activation =~= old(self)@.activation.update(0, input@));
        }
    }

    /// Overwrites the input activation row cell by cell from `input`, which
    /// must share its shape.
    pub fn set_input(&mut self, input: &Matrix<T>)
        requires
            old(self).wf(),
            input@.wf(),
            input@.same_shape(old(self)@.activation[0]),
        ensures
            final(self).wf(),
            final(self)@.weight == old(self)@.weight,
            final(self)@.bias == old(self)@.bias,
            final(self)@.activation == old(self)@.activation.update(0, input@),
    {
        let a0: &mut Matrix<T> = &mut self.activation[0];
        a0.copy_from(input);
        proof {
            assert(self@.activation[0] =~= input@);
            assert(self@.activation =~= old(self)@.activation.update(0, input@));
        }
    }

    /// Runs forward propagation: for each transition `i` strictly in order
    /// (layer `i + 1` consumes layer `i`'s freshly written row),
    /// `activation[i + 1] = sigmoid(activation[i] * weight[i] + bias[i])`,
    /// computed in the existing activation storage via `dot_from`,
    /// `add_from` and in-place `sigmoid`.  The result is exposed through
    /// `get_output`.
    #[verifier::rlimit(30)]
    pub fn forward(&mut self)
        requires
            old(self).wf(),
        ensures
            final(self).wf(),
            final(self)@.weight == old(self)@.weight,
            final(self)@.bias == old(self)@.bias,
            final(self)@.activation.len() == old(self)@.activation.len(),
            forall|l: int|
                0 <= l <= old(self)@.depth() ==> (#[trigger] final(self)@.activation[
                    l
                ]).same_shape(old(self)@.activation[l]),
            forall|l: int|
                0 <= l <= old(self)@.depth() ==> (#[trigger] final(self)@.activation[l]).data
                    == net_out(
                    old(self)@.activation[0].data,
                    old(self)@.wdata(),
                    old(self)@.bdata(),
                    l,
                ),
    {
        let ghost orig = self@;
        let n: usize = self.size;
        let mut i: usize = 0;
        while i < n
            invariant
                self.wf(),
                n == orig.depth(),
                i <= n,
                self@.weight == orig.weight,
                self@.bias == orig.bias,
                self@.activation.len() == orig.activation.len(),
                forall|l: int|
                    0 <= l <= orig.depth() ==> (#[trigger] self@.activation[l]).same_shape(
                        orig.activation[l],
                    ),
                forall|l: int|
                    0 <= l <= i ==> (#[trigger] self@.activation[l]).data == net_out(
                        orig.activation[0].data,
                        orig.wdata(),
                        orig.bdata(),
                        l,
                    ),
            decreases n - i,
        {
            let ghost entry = self@;
            let mut next: Matrix<T> = Matrix::new(0, 0);
            core::mem::swap(&mut next, &mut self.activation[i + 1]);
            proof {
                assert(self@.activation =~= entry.activation.update(i + 1, self@.activation[
                    i + 1
                ]));
                assert(next@ == entry.activation[i + 1]);
                assert(self@.activation[i as int] == entry.activation[i as int]);
                assert(self@.weight[i as int] == entry.weight[i as int]);
            }
            next.dot_from(&self.activation[i], &self.weight[i]);
            let ghost s1 = next@;
            proof {
                assert(self@.bias == entry.bias);
                assert(entry.bias[i as int].wf() && entry.bias[i as int].rows == 1);
            }
            next.add_from(&self.bias[i]);
            let ghost s2 = next@;
            next.sigmoid();
            let ghost s3 = next@;
            core::mem::swap(&mut next, &mut self.activation[i + 1]);
            proof {
                let a_i = entry.activation[i as int];
                let x = a_i.data;
                let w = entry.weight[i as int];
                let b = entry.bias[i as int];
                assert(a_i.wf() && a_i.rows == 1 && w.wf() && b.wf() && b.rows == 1);
                assert(x.len() == a_i.cols);
                assert(b.data.len() == b.cols);
                assert(self@.activation[i + 1] == s3);
                assert forall|c: int| 0 <= c < b.data.len() implies s3.data[c] == layer_out(
                    x,
                    w.data,
                    b.data,
                )[c] by {
                    assert(s1.in_bounds(0, c));
                    assert(s1.cell(0, c) == product_cell(a_i, w, 0, c));
                    assert(s1.cell(0, c) == s1.data[c]);
                    assert(s2.data[c] == s1.data[c].add_spec(b.data[c]));
                    assert(s3.data[c] == s2.data[c].sigmoid_spec());
                    lemma_dot_prefix_row(a_i, w, c, a_i.cols as int);
                    assert(product_cell(a_i, w, 0, c) == dot_at(
                        x,
                        w.data,
                        w.cols as int,
                        c,
                        a_i.cols as int,
                    ));
                }
                assert(s3.data.len() == b.data.len());
                assert(s3.data =~= layer_out(x, w.data, b.data));
                assert(w.data == entry.wdata()[i as int]);
                assert(b.data == entry.bdata()[i as int]);
                assert(entry.wdata() == orig.wdata() && entry.bdata() == orig.bdata()) by {
                    assert(entry.weight == orig.weight && entry.bias == orig.bias);
                }
                assert(self@.activation[i + 1].data == net_out(
                    orig.activation[0].data,
                    orig.wdata(),
                    orig.bdata(),
                    i + 1,
                ));
                assert(self@.activation =~= entry.activation.update(
                    i + 1,
                    self@.activation[i + 1],
                ));
            }
            i = i + 1;
        }
    }

    /// The mean squared error of the network over the training rows of
    /// `input` against `output`: for each row in order, the input activation
    /// is overwritten, a forward pass runs, and the squared differences over
    /// every output column accumulate; the sum is divided by the row count.
    /// The activation buffers are mutated as a side effect.
    pub fn cost(&mut self, input: &Matrix<T>, output: &Matrix<T>) -> (r: T)
        requires
            old(self).wf(),
            input@.wf(),
            output@.wf(),
            input@.rows == output@.rows,
            output@.cols == old(self)@.activation[old(self)@.depth() as int].cols,
            input@.cols == old(self)@.activation[0].cols,
        ensures
            final(self).wf(),
            final(self)@.weight == old(self)@.weight,
            final(self)@.bias == old(self)@.bias,
            final(self)@.activation.len() == old(self)@.activation.len(),
            forall|l: int|
                0 <= l <= old(self)@.depth() ==> (#[trigger] final(self)@.activation[
                    l
                ]).same_shape(old(self)@.activation[l]),
            r == cost_model(old(self)@.wdata(), old(self)@.bdata(), input@, output@),
    {
        let ghost orig = self@;
        let n: usize = input.rows();
        let mut result: T = T::zero();
        let mut t: usize = 0;
        while t < n
            invariant
                self.wf(),
                input@.wf(),
                output@.wf(),
                n == input@.rows,
                input@.rows == output@.rows,
                output@.cols == orig.activation[orig.depth() as int].cols,
                input@.cols == orig.activation[0].cols,
                t <= n,
                self@.weight == orig.weight,
                self@.bias == orig.bias,
                self@.activation.len() == orig.activation.len(),
                forall|l: int|
                    0 <= l <= orig.depth() ==> (#[trigger] self@.activation[l]).same_shape(
                        orig.activation[l],
                    ),
                result == cost_acc(
                    T::zero_spec(),
                    orig.wdata(),
                    orig.bdata(),
                    input@,
                    output@,
                    t as int,
                ),
            decreases n - t,
        {
            let ghost entry = self@;
            let x = input.get_row_matrix(t).unwrap();
            let truth = output.get_row_matrix(t).unwrap();
            proof {
                assert(x@.same_shape(self@.activation[0]));
            }
            self.set_input_take(x);
            self.forward();
            let ghost after = self@;
            let ghost trow = output@.row_seq(t as int);
            let ghost y = net_out(
                input@.row_seq(t as int),
                orig.wdata(),
                orig.bdata(),
                orig.depth() as int,
            );
            proof {
                assert(after.depth() == orig.depth());
                assert(after.wdata() == orig.wdata() && after.bdata() == orig.bdata()) by {
                    assert(after.weight == orig.weight && after.bias == orig.bias);
                }
                assert(after.activation[after.depth() as int].data == y);
                assert(after.activation[after.depth() as int].wf());
                assert(after.activation[after.depth() as int].rows == 1);
                assert(y.len() == after.activation[after.depth() as int].cols);
                assert(y.len() == output@.cols);
            }
            let cols: usize = output.cols();
            let ghost base = result;
            let mut c: usize = 0;
            while c < cols
                invariant
                    self.wf(),
                    self@ == after,
                    output@.wf(),
                    t < input@.rows,
                    input@.rows == output@.rows,
                    cols == output@.cols,
                    c <= cols,
                    after.activation[after.depth() as int].data == y,
                    y.len() == output@.cols,
                    truth@.wf(),
                    truth@.rows == 1,
                    truth@.cols == output@.cols,
                    truth@.data == trow,
                    result == sq_err_acc(base, y, trow, c as int),
                decreases cols - c,
            {
                let model = self.get_output();
                let yv: T = model.get(0, c).unwrap();
                let tv: T = truth.get(0, c).unwrap();
                proof {
                    assert(model@ == after.activation[after.depth() as int]);
                    assert(model@.cell(0, c as int) == y[c as int]);
                    assert(truth@.cell(0, c as int) == trow[c as int]);
                }
                let d: T = yv.sub(tv);
                result = result.add(d.mul(d));
                c = c + 1;
            }
            proof {
                assert(orig.wdata().len() == orig.depth());
                assert(result == cost_acc(
                    T::zero_spec(),
                    orig.wdata(),
                    orig.bdata(),
                    input@,
                    output@,
                    t + 1,
                ));
            }
            t = t + 1;
        }
        result.div(T::from_count(n))
    }

    /// Estimates one weight partial derivative: nudges weight cell
    /// `(row, col)` of transition `i` up by `eps`, re-evaluates the cost,
    /// writes `(perturbed - baseline) / eps` into the gradient accumulator's
    /// matching cell, and restores the original weight before returning.
    fn fd_weight_cell(
        &mut self,
        gradient: &mut Self,
        eps: &T,
        c0: T,
        input: &Matrix<T>,
        output: &Matrix<T>,
        i: usize,
        row: usize,
        col: usize,
        Ghost(net0): Ghost<NetView<T>>,
    )
        requires
            old(self).wf(),
            old(gradient).wf(),
            old(self)@.weight == net0.weight,
            old(self)@.bias == net0.bias,
            old(self)@.activation.len() == net0.activation.len(),
            forall|l: int|
                0 <= l < net0.activation.len() ==> (#[trigger] old(self)@.activation[
                    l
                ]).same_shape(net0.activation[l]),
            net0.wf(),
            net0.fits(input@, output@),
            i < net0.depth(),
            row < net0.weight[i as int].rows,
            col < net0.weight[i as int].cols,
            old(gradient)@.weight.len() == net0.depth(),
            old(gradient)@.weight[i as int].same_shape(net0.weight[i as int]),
            c0 == cost_model(net0.wdata(), net0.bdata(), input@, output@),
        ensures
            final(self).wf(),
            final(self)@.weight == net0.weight,
            final(self)@.bias == net0.bias,
            final(self)@.activation.len() == net0.activation.len(),
            forall|l: int|
                0 <= l < net0.activation.len() ==> (#[trigger] final(self)@.activation[
                    l
                ]).same_shape(net0.activation[l]),
            final(gradient).wf(),
            final(gradient)@.bias == old(gradient)@.bias,
            final(gradient)@.activation == old(gradient)@.activation,
            final(gradient)@.weight.len() == old(gradient)@.weight.len(),
            forall|k: int|
                0 <= k < old(gradient)@.weight.len() && k != i
                    ==> (#[trigger] final(gradient)@.weight[k]) == old(gradient)@.weight[k],
            final(gradient)@.weight[i as int].rows == old(gradient)@.weight[i as int].rows,
            final(gradient)@.weight[i as int].cols == old(gradient)@.weight[i as int].cols,
            final(gradient)@.weight[i as int].data == old(gradient)@.weight[i as int].data.update(
                row * net0.weight[i as int].cols + col,
                wgrad_cell(net0, input@, output@, *eps, i as int, row as int, col as int),
            ),
    {
        let ghost p = row * net0.weight[i as int].cols + col;
        proof {
            lemma_flat_index(
                row as int,
                col as int,
                net0.weight[i as int].rows as int,
                net0.weight[i as int].cols as int,
            );
        }
        let e: T = *eps;
        let wi = &self.weight[i];
        let temp: T = wi.get(row, col).unwrap();
        proof {
            assert(temp == net0.weight[i as int].data[p]);
            assert(temp == net0.wdata()[i as int][p]);
        }
        let bumped: T = temp.add(e);
        let wim = &mut self.weight[i];
        wim.set(row, col, bumped);
        proof {
            assert(self@.weight =~= net0.weight.update(i as int, self@.weight[i as int]));
            assert(self@.weight[i as int].data == net0.weight[i as int].data.update(
                p,
                temp.add_spec(*eps),
            ));
            assert(self.wf());
        }
        let ghost bump_state = self@;
        proof {
            assert(output@.cols == bump_state.activation[bump_state.depth() as int].cols);
            assert(input@.cols == bump_state.activation[0].cols);
        }
        let c1: T = self.cost(input, output);
        let ghost after_cost = self@;
        proof {
            assert(bump_state.wdata() =~= net0.wdata().update(
                i as int,
                net0.wdata()[i as int].update(p, net0.wdata()[i as int][p].add_spec(*eps)),
            ));
            assert(bump_state.bdata() == net0.bdata());
        }
        let g: T = (c1.sub(c0)).div(e);
        proof {
            assert(g == wgrad_cell(net0, input@, output@, *eps, i as int, row as int, col as int));
        }
        let gim = &mut gradient.weight[i];
        gim.set(row, col, g);
        proof {
            assert(gradient@.weight =~= old(gradient)@.weight.update(
                i as int,
                gradient@.weight[i as int],
            ));
            assert(gradient.wf());
        }
        let wim2 = &mut self.weight[i];
        wim2.set(row, col, temp);
        proof {
            assert(self@.weight =~= after_cost.weight.update(i as int, self@.weight[i as int]));
            assert(after_cost.weight == bump_state.weight);
            assert(self@.weight[i as int].data =~= net0.weight[i as int].data);
            assert(self@.weight[i as int] =~= net0.weight[i as int]);
            assert(self@.weight =~= net0.weight);
            assert(self.wf());
        }
    }

    /// Estimates one bias partial derivative, exactly as `fd_weight_cell`
    /// does for a weight: nudge, re-evaluate the cost, record the quotient
    /// in the accumulator, restore.
    fn fd_bias_cell(
        &mut self,
        gradient: &mut Self,
        eps: &T,
        c0: T,
        input: &Matrix<T>,
        output: &Matrix<T>,
        i: usize,
        row: usize,
        col: usize,
        Ghost(net0): Ghost<NetView<T>>,
    )
        requires
            old(self).wf(),
            old(gradient).wf(),
            old(self)@.weight == net0.weight,
            old(self)@.bias == net0.bias,
            old(self)@.activation.len() == net0.activation.len(),
            forall|l: int|
                0 <= l < net0.activation.len() ==> (#[trigger] old(self)@.activation[
                    l
                ]).same_shape(net0.activation[l]),
            net0.wf(),
            net0.fits(input@, output@),
            i < net0.depth(),
            row < net0.bias[i as int].rows,
            col < net0.bias[i as int].cols,
            old(gradient)@.bias.len() == net0.depth(),
            old(gradient)@.bias[i as int].same_shape(net0.bias[i as int]),
            c0 == cost_model(net0.wdata(), net0.bdata(), input@, output@),
        ensures
            final(self).wf(),
            final(self)@.weight == net0.weight,
            final(self)@.bias == net0.bias,
            final(self)@.activation.len() == net0.activation.len(),
            forall|l: int|
                0 <= l < net0.activation.len() ==> (#[trigger] final(self)@.activation[
                    l
                ]).same_shape(net0.activation[l]),
            final(gradient).wf(),
            final(gradient)@.weight == old(gradient)@.weight,
            final(gradient)@.activation == old(gradient)@.activation,
            final(gradient)@.bias.len() == old(gradient)@.bias.len(),
            forall|k: int|
                0 <= k < old(gradient)@.bias.len() && k != i
                    ==> (#[trigger] final(gradient)@.bias[k]) == old(gradient)@.bias[k],
            final(gradient)@.bias[i as int].rows == old(gradient)@.bias[i as int].rows,
            final(gradient)@.bias[i as int].cols == old(gradient)@.bias[i as int].cols,
            final(gradient)@.bias[i as int].data == old(gradient)@.bias[i as int].data.update(
                row * net0.bias[i as int].cols + col,
                bgrad_cell(net0, input@, output@, *eps, i as int, row as int, col as int),
            ),
    {
        let ghost p = row * net0.bias[i as int].cols + col;
        proof {
            lemma_flat_index(
                row as int,
                col as int,
                net0.bias[i as int].rows as int,
                net0.bias[i as int].cols as int,
            );
        }
        let e: T = *eps;
        let bi = &self.bias[i];
        let temp: T = bi.get(row, col).unwrap();
        proof {
            assert(temp == net0.bias[i as int].data[p]);
            assert(temp == net0.bdata()[i as int][p]);
        }
        let bumped: T = temp.add(e);
        let bim = &mut self.bias[i];
        bim.set(row, col, bumped);
        proof {
            assert(self@.bias =~= net0.bias.update(i as int, self@.bias[i as int]));
            assert(self@.bias[i as int].data == net0.bias[i as int].data.update(
                p,
                temp.add_spec(*eps),
            ));
            assert(self.wf());
        }
        let ghost bump_state = self@;
        proof {
            assert(output@.cols == bump_state.activation[bump_state.depth() as int].cols);
            assert(input@.cols == bump_state.activation[0].cols);
        }
        let c1: T = self.cost(input, output);
        let ghost after_cost = self@;
        proof {
            assert(bump_state.bdata() =~= net0.bdata().update(
                i as int,
                net0.bdata()[i as int].update(p, net0.bdata()[i as int][p].add_spec(*eps)),
            ));
            assert(bump_state.wdata() == net0.wdata());
        }
        let g: T = (c1.sub(c0)).div(e);
        proof {
            assert(g == bgrad_cell(net0, input@, output@, *eps, i as int, row as int, col as int));
        }
        let gim = &mut gradient.bias[i];
        gim.set(row, col, g);
        proof {
            assert(gradient@.bias =~= old(gradient)@.bias.update(
                i as int,
                gradient@.bias[i as int],
            ));
            assert(gradient.wf());
        }
        let bim2 = &mut self.bias[i];
        bim2.set(row, col, temp);
        proof {
            assert(self@.bias =~= after_cost.bias.update(i as int, self@.bias[i as int]));
            assert(after_cost.bias == bump_state.bias);
            assert(self@.bias[i as int].data =~= net0.bias[i as int].data);
            assert(self@.bias[i as int] =~= net0.bias[i as int]);
            assert(self@.bias =~= net0.bias);
            assert(self.wf());
        }
    }

    /// Estimates the gradient of `cost` with respect to every weight and
    /// bias cell by one-sided finite differences, writing the estimates into
    /// `gradient`, whose topology must match.  The baseline cost is computed
    /// once; then, strictly in order — weight cells first, then bias cells,
    /// row-major within each layer — each parameter is perturbed by `eps`,
    /// the cost is re-evaluated against the whole network state, and the
    /// parameter is restored before the next one is touched.  On return
    /// every weight and bias cell of `self` is unchanged; only `gradient`'s
    /// weight and bias cells (and `self`'s activation scratch) have changed.
    pub fn finite_diff(
        &mut self,
        gradient: &mut Self,
        eps: &T,
        input: &Matrix<T>,
        output: &Matrix<T>,
    )
        requires
            old(self).wf(),
            old(gradient).wf(),
            old(self)@.same_topology(old(gradient)@),
            old(self)@.fits(input@, output@),
            *eps != T::zero_spec(),
        ensures
            final(self).wf(),
            final(gradient).wf(),
            final(self)@.weight == old(self)@.weight,
            final(self)@.bias == old(self)@.bias,
            final(self)@.activation.len() == old(self)@.activation.len(),
            forall|l: int|
                0 <= l < old(self)@.activation.len() ==> (#[trigger] final(self)@.activation[
                    l
                ]).same_shape(old(self)@.activation[l]),
            final(gradient)@.activation == old(gradient)@.activation,
            final(gradient)@.weight.len() == old(gradient)@.weight.len(),
            final(gradient)@.bias.len() == old(gradient)@.bias.len(),
            forall|k: int|
                0 <= k < old(gradient)@.weight.len() ==> (#[trigger] final(gradient)@.weight[
                    k
                ]).same_shape(old(gradient)@.weight[k]),
            forall|k: int|
                0 <= k < old(gradient)@.bias.len() ==> (#[trigger] final(gradient)@.bias[
                    k
                ]).same_shape(old(gradient)@.bias[k]),
            forall|i: int, r: int, c: int|
                0 <= i < old(self)@.depth() && 0 <= r < old(self)@.weight[i].rows && 0 <= c < old(
                    self,
                )@.weight[i].cols ==> (#[trigger] final(gradient)@.weight[i].cell(r, c))
                    == wgrad_cell(old(self)@, input@, output@, *eps, i, r, c),
            forall|i: int, r: int, c: int|
                0 <= i < old(self)@.depth() && 0 <= r < old(self)@.bias[i].rows && 0 <= c < old(
                    self,
                )@.bias[i].cols ==> (#[trigger] final(gradient)@.bias[i].cell(r, c)) == bgrad_cell(
                    old(self)@,
                    input@,
                    output@,
                    *eps,
                    i,
                    r,
                    c,
                ),
    {
        let ghost net0 = self@;
        let ghost g0 = gradient@;
        let c0: T = self.cost(input, output);
        let dpt: usize = self.size;
        let mut i: usize = 0;
        while i < dpt
            invariant
                self.wf(),
                gradient.wf(),
                dpt == net0.depth(),
                i <= dpt,
                self@.weight == net0.weight,
                self@.bias == net0.bias,
                self@.activation.len() == net0.activation.len(),
                forall|l: int|
                    0 <= l < net0.activation.len() ==> (#[trigger] self@.activation[
                        l
                    ]).same_shape(net0.activation[l]),
                net0.wf(),
                net0.fits(input@, output@),
                net0.same_topology(g0),
                c0 == cost_model(net0.wdata(), net0.bdata(), input@, output@),
                gradient@.bias == g0.bias,
                gradient@.activation == g0.activation,
                gradient@.weight.len() == g0.weight.len(),
                forall|k: int|
                    0 <= k < g0.weight.len() ==> (#[trigger] gradient@.weight[k]).same_shape(
                        g0.weight[k],
                    ),
                wgrad_upto(gradient@, net0, input@, output@, *eps, i as int, 0, 0),
            decreases dpt - i,
        {
            let w_ref = &self.weight[i];
            let wi_rows: usize = w_ref.rows();
            let wi_cols: usize = w_ref.cols();
            let mut row: usize = 0;
            while row < wi_rows
                invariant
                    self.wf(),
                    gradient.wf(),
                    dpt == net0.depth(),
                    i < dpt,
                    wi_rows == net0.weight[i as int].rows,
                    wi_cols == net0.weight[i as int].cols,
                    row <= wi_rows,
                    self@.weight == net0.weight,
                    self@.bias == net0.bias,
                    self@.activation.len() == net0.activation.len(),
                    forall|l: int|
                        0 <= l < net0.activation.len() ==> (#[trigger] self@.activation[
                            l
                        ]).same_shape(net0.activation[l]),
                    net0.wf(),
                    net0.fits(input@, output@),
                    net0.same_topology(g0),
                    c0 == cost_model(net0.wdata(), net0.bdata(), input@, output@),
                    gradient@.bias == g0.bias,
                    gradient@.activation == g0.activation,
                    gradient@.weight.len() == g0.weight.len(),
                    forall|k: int|
                        0 <= k < g0.weight.len() ==> (#[trigger] gradient@.weight[k]).same_shape(
                            g0.weight[k],
                        ),
                    wgrad_upto(gradient@, net0, input@, output@, *eps, i as int, row as int, 0),
                decreases wi_rows - row,
            {
                let mut col: usize = 0;
                while col < wi_cols
                    invariant
                        self.wf(),
                        gradient.wf(),
                        dpt == net0.depth(),
                        i < dpt,
                        wi_rows == net0.weight[i as int].rows,
                        wi_cols == net0.weight[i as int].cols,
                        row < wi_rows,
                        col <= wi_cols,
                        self@.weight == net0.weight,
                        self@.bias == net0.bias,
                        self@.activation.len() == net0.activation.len(),
                        forall|l: int|
                            0 <= l < net0.activation.len() ==> (#[trigger] self@.activation[
                                l
                            ]).same_shape(net0.activation[l]),
                        net0.wf(),
                        net0.fits(input@, output@),
                        net0.same_topology(g0),
                        c0 == cost_model(net0.wdata(), net0.bdata(), input@, output@),
                        gradient@.bias == g0.bias,
                        gradient@.activation == g0.activation,
                        gradient@.weight.len() == g0.weight.len(),
                        forall|k: int|
                            0 <= k < g0.weight.len() ==> (#[trigger] gradient@.weight[
                                k
                            ]).same_shape(g0.weight[k]),
                        wgrad_upto(
                            gradient@,
                            net0,
                            input@,
                            output@,
                            *eps,
                            i as int,
                            row as int,
                            col as int,
                        ),
                    decreases wi_cols - col,
                {
                    let ghost gpre = gradient@;
                    self.fd_weight_cell(gradient, eps, c0, input, output, i, row, col, Ghost(net0));
                    proof {
                        lemma_flat_index(
                            row as int,
                            col as int,
                            net0.weight[i as int].rows as int,
                            net0.weight[i as int].cols as int,
                        );
                        assert forall|i2: int, r2: int, c2: int|
                            0 <= i2 < net0.depth() && 0 <= r2 < net0.weight[i2].rows && 0 <= c2
                                < net0.weight[i2].cols && (i2 < i || (i2 == i as int && (r2 < row
                                || (r2 == row as int && c2 < col + 1)))) implies (
                        #[trigger] gradient@.weight[i2].cell(r2, c2)) == wgrad_cell(
                            net0,
                            input@,
                            output@,
                            *eps,
                            i2,
                            r2,
                            c2,
                        ) by {
                            if i2 == i as int && r2 == row as int && c2 == col as int {
                                assert(gradient@.weight[i2].cell(r2, c2) == wgrad_cell(
                                    net0,
                                    input@,
                                    output@,
                                    *eps,
                                    i2,
                                    r2,
                                    c2,
                                ));
                            } else {
                                assert(gpre.weight[i2].cell(r2, c2) == wgrad_cell(
                                    net0,
                                    input@,
                                    output@,
                                    *eps,
                                    i2,
                                    r2,
                                    c2,
                                ));
                                if i2 == i as int {
                                    lemma_flat_index(
                                        r2,
                                        c2,
                                        net0.weight[i2].rows as int,
                                        net0.weight[i2].cols as int,
                                    );
                                    if r2 * net0.weight[i2].cols + c2 == row * net0.weight[
                                        i2
                                    ].cols + col {
                                        lemma_flat_index_injective(
                                            r2,
                                            c2,
                                            row as int,
                                            col as int,
                                            net0.weight[i2].cols as int,
                                        );
                                    }
                                    assert(gradient@.weight[i2].cell(r2, c2) == gpre.weight[
                                        i2
                                    ].cell(r2, c2));
                                } else {
                                    assert(gradient@.weight[i2] == gpre.weight[i2]);
                                }
                            }
                        }
                        assert(wgrad_upto(
                            gradient@,
                            net0,
                            input@,
                            output@,
                            *eps,
                            i as int,
                            row as int,
                            col + 1,
                        ));
                    }
                    col = col + 1;
                }
                proof {
                    assert(wgrad_upto(
                        gradient@,
                        net0,
                        input@,
                        output@,
                        *eps,
                        i as int,
                        row + 1,
                        0,
                    )) by {
                        assert(wgrad_upto(
                            gradient@,
                            net0,
                            input@,
                            output@,
                            *eps,
                            i as int,
                            row as int,
                            net0.weight[i as int].cols as int,
                        ));
                    }
                }
                row = row + 1;
            }
            proof {
                assert(wgrad_upto(gradient@, net0, input@, output@, *eps, i + 1, 0, 0)) by {
                    assert(wgrad_upto(
                        gradient@,
                        net0,
                        input@,
                        output@,
                        *eps,
                        i as int,
                        net0.weight[i as int].rows as int,
                        0,
                    ));
                }
            }
            i = i + 1;
        }
        let ghost gmid = gradient@;
        let mut i: usize = 0;
        while i < dpt
            invariant
                self.wf(),
                gradient.wf(),
                dpt == net0.depth(),
                i <= dpt,
                self@.weight == net0.weight,
                self@.bias == net0.bias,
                self@.activation.len() == net0.activation.len(),
                forall|l: int|
                    0 <= l < net0.activation.len() ==> (#[trigger] self@.activation[
                        l
                    ]).same_shape(net0.activation[l]),
                net0.wf(),
                net0.fits(input@, output@),
                net0.same_topology(g0),
                g0.wf(),
                c0 == cost_model(net0.wdata(), net0.bdata(), input@, output@),
                gradient@.weight == gmid.weight,
                gradient@.activation == g0.activation,
                gradient@.bias.len() == g0.bias.len(),
                forall|k: int|
                    0 <= k < g0.bias.len() ==> (#[trigger] gradient@.bias[k]).same_shape(
                        g0.bias[k],
                    ),
                wgrad_upto(gmid, net0, input@, output@, *eps, dpt as int, 0, 0),
                gmid.weight.len() == g0.weight.len(),
                forall|k: int|
                    0 <= k < g0.weight.len() ==> (#[trigger] gmid.weight[k]).same_shape(
                        g0.weight[k],
                    ),
                bgrad_upto(gradient@, net0, input@, output@, *eps, i as int, 0, 0),
            decreases dpt - i,
        {
            let b_ref = &self.bias[i];
            let bi_rows: usize = b_ref.rows();
            let bi_cols: usize = b_ref.cols();
            let mut row: usize = 0;
            while row < bi_rows
                invariant
                    self.wf(),
                    gradient.wf(),
                    dpt == net0.depth(),
                    i < dpt,
                    bi_rows == net0.bias[i as int].rows,
                    bi_cols == net0.bias[i as int].cols,
                    row <= bi_rows,
                    self@.weight == net0.weight,
                    self@.bias == net0.bias,
                    self@.activation.len() == net0.activation.len(),
                    forall|l: int|
                        0 <= l < net0.activation.len() ==> (#[trigger] self@.activation[
                            l
                        ]).same_shape(net0.activation[l]),
                    net0.wf(),
                    net0.fits(input@, output@),
                    net0.same_topology(g0),
                    g0.wf(),
                    c0 == cost_model(net0.wdata(), net0.bdata(), input@, output@),
                    gradient@.weight == gmid.weight,
                    gradient@.activation == g0.activation,
                    gradient@.bias.len() == g0.bias.len(),
                    forall|k: int|
                        0 <= k < g0.bias.len() ==> (#[trigger] gradient@.bias[k]).same_shape(
                            g0.bias[k],
                        ),
                    bgrad_upto(gradient@, net0, input@, output@, *eps, i as int, row as int, 0),
                decreases bi_rows - row,
            {
                let mut col: usize = 0;
                while col < bi_cols
                    invariant
                        self.wf(),
                        gradient.wf(),
                        dpt == net0.depth(),
                        i < dpt,
                        bi_rows == net0.bias[i as int].rows,
                        bi_cols == net0.bias[i as int].cols,
                        row < bi_rows,
                        col <= bi_cols,
                        self@.weight == net0.weight,
                        self@.bias == net0.bias,
                        self@.activation.len() == net0.activation.len(),
                        forall|l: int|
                            0 <= l < net0.activation.len() ==> (#[trigger] self@.activation[
                                l
                            ]).same_shape(net0.activation[l]),
                        net0.wf(),
                        net0.fits(input@, output@),
                        net0.same_topology(g0),
                        g0.wf(),
                        c0 == cost_model(net0.wdata(), net0.bdata(), input@, output@),
                        gradient@.weight == gmid.weight,
                        gradient@.activation == g0.activation,
                        gradient@.bias.len() == g0.bias.len(),
                        forall|k: int|
                            0 <= k < g0.bias.len() ==> (#[trigger] gradient@.bias[k]).same_shape(
                                g0.bias[k],
                            ),
                        bgrad_upto(
                            gradient@,
                            net0,
                            input@,
                            output@,
                            *eps,
                            i as int,
                            row as int,
                            col as int,
                        ),
                    decreases bi_cols - col,
                {
                    let ghost gpre = gradient@;
                    self.fd_bias_cell(gradient, eps, c0, input, output, i, row, col, Ghost(net0));
                    proof {
                        lemma_flat_index(
                            row as int,
                            col as int,
                            net0.bias[i as int].rows as int,
                            net0.bias[i as int].cols as int,
                        );
                        assert forall|i2: int, r2: int, c2: int|
                            0 <= i2 < net0.depth() && 0 <= r2 < net0.bias[i2].rows && 0 <= c2
                                < net0.bias[i2].cols && (i2 < i || (i2 == i as int && (r2 < row
                                || (r2 == row as int && c2 < col + 1)))) implies (
                        #[trigger] gradient@.bias[i2].cell(r2, c2)) == bgrad_cell(
                            net0,
                            input@,
                            output@,
                            *eps,
                            i2,
                            r2,
                            c2,
                        ) by {
                            if i2 == i as int && r2 == row as int && c2 == col as int {
                                assert(gradient@.bias[i2].cell(r2, c2) == bgrad_cell(
                                    net0,
                                    input@,
                                    output@,
                                    *eps,
                                    i2,
                                    r2,
                                    c2,
                                ));
                            } else {
                                assert(gpre.bias[i2].cell(r2, c2) == bgrad_cell(
                                    net0,
                                    input@,
                                    output@,
                                    *eps,
                                    i2,
                                    r2,
                                    c2,
                                ));
                                if i2 == i as int {
                                    lemma_flat_index(
                                        r2,
                                        c2,
                                        net0.bias[i2].rows as int,
                                        net0.bias[i2].cols as int,
                                    );
                                    if r2 * net0.bias[i2].cols + c2 == row * net0.bias[i2].cols
                                        + col {
                                        lemma_flat_index_injective(
                                            r2,
                                            c2,
                                            row as int,
                                            col as int,
                                            net0.bias[i2].cols as int,
                                        );
                                    }
                                    assert(gradient@.bias[i2].cell(r2, c2) == gpre.bias[i2].cell(
                                        r2,
                                        c2,
                                    ));
                                } else {
                                    assert(gradient@.bias[i2] == gpre.bias[i2]);
                                }
                            }
                        }
                        assert(bgrad_upto(
                            gradient@,
                            net0,
                            input@,
                            output@,
                            *eps,
                            i as int,
                            row as int,
                            col + 1,
                        ));
                    }
                    col = col + 1;
                }
                proof {
                    assert(bgrad_upto(
                        gradient@,
                        net0,
                        input@,
                        output@,
                        *eps,
                        i as int,
                        row + 1,
                        0,
                    )) by {
                        assert(bgrad_upto(
                            gradient@,
                            net0,
                            input@,
                            output@,
                            *eps,
                            i as int,
                            row as int,
                            net0.bias[i as int].cols as int,
                        ));
                    }
                }
                row = row + 1;
            }
            proof {
                assert(bgrad_upto(gradient@, net0, input@, output@, *eps, i + 1, 0, 0)) by {
                    assert(bgrad_upto(
                        gradient@,
                        net0,
                        input@,
                        output@,
                        *eps,
                        i as int,
                        net0.bias[i as int].rows as int,
                        0,
                    ));
                }
            }
            i = i + 1;
        }
    }

    /// One gradient-descent update: after `finite_diff` has fully populated
    /// `gradient`, every weight and bias cell moves against its estimated
    /// partial derivative, `value -= rate * gradient_value`; a single global
    /// `rate` scales every cell, and the gradient network is left unchanged.
    pub fn learn(&mut self, gradient: &mut Self, rate: &T)
        requires
            old(self).wf(),
            old(gradient).wf(),
            old(self)@.same_topology(old(gradient)@),
        ensures
            final(self).wf(),
            final(gradient).wf(),
            final(gradient)@ == old(gradient)@,
            final(self)@.activation == old(self)@.activation,
            final(self)@.weight.len() == old(self)@.weight.len(),
            final(self)@.bias.len() == old(self)@.bias.len(),
            forall|k: int|
                0 <= k < old(self)@.weight.len() ==> (#[trigger] final(self)@.weight[
                    k
                ]).same_shape(old(self)@.weight[k]),
            forall|k: int|
                0 <= k < old(self)@.bias.len() ==> (#[trigger] final(self)@.bias[k]).same_shape(
                    old(self)@.bias[k],
                ),
            forall|k: int, j: int|
                0 <= k < old(self)@.weight.len() && 0 <= j < old(self)@.weight[k].data.len()
                    ==> (#[trigger] final(self)@.weight[k].data[j]) == old(self)@.weight[
                    k
                ].data[j].sub_spec((*rate).mul_spec(old(gradient)@.weight[k].data[j])),
            forall|k: int, j: int|
                0 <= k < old(self)@.bias.len() && 0 <= j < old(self)@.bias[k].data.len()
                    ==> (#[trigger] final(self)@.bias[k].data[j]) == old(self)@.bias[
                    k
                ].data[j].sub_spec((*rate).mul_spec(old(gradient)@.bias[k].data[j])),
    {
        let ghost net0 = self@;
        let ghost g0 = gradient@;
        let e: T = *rate;
        let dpt: usize = self.size;
        let mut i: usize = 0;
        while i < dpt
            invariant
                self.wf(),
                gradient.wf(),
                gradient@ == g0,
                net0.wf(),
                g0.wf(),
                net0.same_topology(g0),
                dpt == net0.depth(),
                i <= dpt,
                self@.bias.len() == net0.bias.len(),
                self@.weight.len() == net0.weight.len(),
                self@.activation == net0.activation,
                forall|k: int|
                    i <= k < net0.weight.len() ==> (#[trigger] self@.weight[k]) == net0.weight[k],
                forall|k: int|
                    i <= k < net0.bias.len() ==> (#[trigger] self@.bias[k]) == net0.bias[k],
                forall|k: int|
                    0 <= k < net0.weight.len() ==> (#[trigger] self@.weight[k]).same_shape(
                        net0.weight[k],
                    ),
                forall|k: int|
                    0 <= k < net0.bias.len() ==> (#[trigger] self@.bias[k]).same_shape(
                        net0.bias[k],
                    ),
                forall|k: int, j: int|
                    0 <= k < i && 0 <= j < net0.weight[k].data.len()
                        ==> (#[trigger] self@.weight[k].data[j]) == net0.weight[k].data[
                        j
                    ].sub_spec(e.mul_spec(g0.weight[k].data[j])),
                forall|k: int, j: int|
                    0 <= k < i && 0 <= j < net0.bias[k].data.len()
                        ==> (#[trigger] self@.bias[k].data[j]) == net0.bias[k].data[j].sub_spec(
                        e.mul_spec(g0.bias[k].data[j]),
                    ),
            decreases dpt - i,
        {
            let ghost entry = self@;
            proof {
                assert(self@.weight[i as int].wf());
                assert(g0.weight[i as int].wf());
                assert(self@.weight[i as int].same_shape(g0.weight[i as int]));
            }
            let gw = &gradient.weight[i];
            let wm = &mut self.weight[i];
            wm.sub_scaled_from(e, gw);
            proof {
                assert(self@.weight =~= entry.weight.update(i as int, self@.weight[i as int]));
                assert(self@.bias == entry.bias);
                assert(self.wf());
            }
            let ghost mid = self@;
            proof {
                assert(self@.bias[i as int].wf());
                assert(g0.bias[i as int].wf());
                assert(self@.bias[i as int].same_shape(g0.bias[i as int]));
            }
            let gb = &gradient.bias[i];
            let bm = &mut self.bias[i];
            bm.sub_scaled_from(e, gb);
            proof {
                assert(self@.bias =~= mid.bias.update(i as int, self@.bias[i as int]));
                assert(self@.weight == mid.weight);
                assert(self.wf());
            }
            i = i + 1;
        }
    }

    /// Overwrites the input activation row with `input` (which must share
    /// its shape), runs a forward pass, and returns a fresh copy of the
    /// final activation row — a copy, not a view, so it stays valid across
    /// later training steps that reuse the internal scratch.
    pub fn test(&mut self, input: &Matrix<T>) -> (r: Matrix<T>)
        requires
            old(self).wf(),
            input@.wf(),
            input@.same_shape(old(self)@.activation[0]),
        ensures
            final(self).wf(),
            final(self)@.weight == old(self)@.weight,
            final(self)@.bias == old(self)@.bias,
            final(self)@.activation.len() == old(self)@.activation.len(),
            forall|l: int|
                0 <= l < old(self)@.activation.len() ==> (#[trigger] final(self)@.activation[
                    l
                ]).same_shape(old(self)@.activation[l]),
            r@.wf(),
            r@.rows == 1,
            r@.cols == old(self)@.activation[old(self)@.depth() as int].cols,
            r@.data == net_out(
                input@.data,
                old(self)@.wdata(),
                old(self)@.bdata(),
                old(self)@.depth() as int,
            ),
    {
        self.set_input(input);
        self.forward();
        let out = self.get_output();
        let m = out.get_row_matrix(0).unwrap();
        proof {
            let d = self@.depth() as int;
            assert(self@.activation[d].wf() && self@.activation[d].rows == 1);
            assert(m@.data =~= self@.activation[d].data);
        }
        m
    }

    /// The final layer's activation row: the output of the most recent
    /// forward pass.
    pub fn get_output(&self) -> (r: &Matrix<T>)
        requires
            self.wf(),
        ensures
            r@ == self@.activation[self@.depth() as int],
    {
        &self.activation[self.size]
    }
}

} // verus!
