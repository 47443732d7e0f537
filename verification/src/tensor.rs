//! Tensor reverse-mode automatic differentiation: row-major tensors with elementwise
//! sum (with a row broadcast to every row of a matrix), elementwise product and matrix
//! product, each with its local backward rule.
use vstd::prelude::*;

use crate::arith::{apply, is_operation};
use crate::kernel::{
    broadcast_rows, column_sums, contract, contraction, dot, down_column, filled,
    lemma_column_sums_down_rows, lemma_contraction_element,
    pairwise, reduce_columns, row_broadcast, zip_with,
};
use crate::shape::{
    add_layout, add_rule, matmul_dims, matmul_rule, shape_size, AddLayout, MatmulDims, ShapeError,
};

verus! {

/// A handle to a tensor of a graph: its position in creation order.
#[derive(Clone, Copy, Debug, PartialEq, Eq, Structural)]
pub struct Tensor(pub usize);

/// How a tensor was computed.
#[derive(Clone, Copy, Debug, PartialEq, Eq, Structural)]
pub enum TensorOp {
    /// A tensor made directly from data.
    Leaf,
    /// The sum of two tensors, lined up as the layout says.
    Add(Tensor, Tensor, AddLayout),
    /// The elementwise product of two tensors of one shape.
    Mul(Tensor, Tensor),
    /// The matrix product of two matrices.
    Matmul(Tensor, Tensor, MatmulDims),
}

/// A tensor's data, shape and gradient, and the tensors it was computed from.
pub struct TensorData<T> {
    pub data: Vec<T>,
    pub shape: Vec<usize>,
    pub grad: Vec<T>,
    pub children: Vec<Tensor>,
}

/// The tensors of one computation, in the order in which they were made.
pub struct TensorGraph<T> {
    data: Vec<Vec<T>>,
    grad: Vec<Vec<T>>,
    shape: Vec<Vec<usize>>,
    op: Vec<TensorOp>,
    zero: T,
}

/// The tensors a tensor was computed from, in operand order.
pub open spec fn tensor_children(op: TensorOp) -> Seq<Tensor> {
    match op {
        TensorOp::Leaf => Seq::empty(),
        TensorOp::Add(l, r, _) => seq![l, r],
        TensorOp::Mul(l, r) => seq![l, r],
        TensorOp::Matmul(l, r, _) => seq![l, r],
    }
}

/// The operation of tensor `i` combines earlier tensors whose shapes fit it, and gives
/// tensor `i` the shape that it has.
pub open spec fn op_fits(op: TensorOp, i: int, shapes: Seq<Seq<usize>>) -> bool {
    match op {
        TensorOp::Leaf => true,
        TensorOp::Add(l, r, layout) => {
            &&& l.0 < i
            &&& r.0 < i
            &&& add_rule(shapes[l.0 as int], shapes[r.0 as int]) == Ok::<AddLayout, ShapeError>(layout)
            &&& shapes[i] == shapes[l.0 as int]
        },
        TensorOp::Mul(l, r) => {
            &&& l.0 < i
            &&& r.0 < i
            &&& shapes[l.0 as int] == shapes[r.0 as int]
            &&& shapes[i] == shapes[l.0 as int]
        },
        TensorOp::Matmul(l, r, d) => {
            &&& l.0 < i
            &&& r.0 < i
            &&& matmul_rule(shapes[l.0 as int], shapes[r.0 as int]) == Ok::<MatmulDims, ShapeError>(d)
            &&& shapes[i] == seq![d.rows, d.cols]
        },
    }
}

/// The data of a sum: pairwise, or the row added to every row of the matrix.
pub open spec fn sum_data<T, P: Fn(T, T) -> T>(layout: AddLayout, a: Seq<T>, b: Seq<T>, plus: P) -> Seq<T> {
    match layout {
        AddLayout::Same => pairwise(a, b, plus),
        AddLayout::RowBroadcast(c) => row_broadcast(a, b, c as nat, plus),
    }
}

/// The data of the matrix product `a x b` of dimensions `d`.
pub open spec fn product_data<T, P: Fn(T, T) -> T, M: Fn(T, T) -> T>(
    d: MatmulDims,
    a: Seq<T>,
    b: Seq<T>,
    zero: T,
    plus: P,
    times: M,
) -> Seq<T> {
    contraction(
        a,
        b,
        d.rows as nat,
        d.cols as nat,
        d.inner as nat,
        d.inner as nat,
        1,
        1,
        d.cols as nat,
        zero,
        plus,
        times,
    )
}

/// The gradient of the left operand of a matrix product: `dC x B^T`.
pub open spec fn product_left_delta<T, P: Fn(T, T) -> T, M: Fn(T, T) -> T>(
    d: MatmulDims,
    out_grad: Seq<T>,
    right: Seq<T>,
    zero: T,
    plus: P,
    times: M,
) -> Seq<T> {
    contraction(
        out_grad,
        right,
        d.rows as nat,
        d.inner as nat,
        d.cols as nat,
        d.cols as nat,
        1,
        d.cols as nat,
        1,
        zero,
        plus,
        times,
    )
}

/// The gradient of the right operand of a matrix product: `A^T x dC`.
pub open spec fn product_right_delta<T, P: Fn(T, T) -> T, M: Fn(T, T) -> T>(
    d: MatmulDims,
    left: Seq<T>,
    out_grad: Seq<T>,
    zero: T,
    plus: P,
    times: M,
) -> Seq<T> {
    contraction(
        left,
        out_grad,
        d.inner as nat,
        d.cols as nat,
        d.rows as nat,
        1,
        d.inner as nat,
        1,
        d.cols as nat,
        zero,
        plus,
        times,
    )
}

/// The gradients after adding `left_delta` to the gradient of tensor `l`, then
/// `right_delta` to the gradient of tensor `r`, element by element.
pub open spec fn accumulate_both<T, P: Fn(T, T) -> T>(
    grads: Seq<Seq<T>>,
    l: int,
    left_delta: Seq<T>,
    r: int,
    right_delta: Seq<T>,
    plus: P,
) -> Seq<Seq<T>> {
    let g1 = grads.update(l, pairwise(grads[l], left_delta, plus));
    g1.update(r, pairwise(g1[r], right_delta, plus))
}

/// The gradients after the local backward rule of tensor `n`. A sum passes its gradient
/// to both operands, reduced over the rows for a broadcast row; an elementwise product
/// passes its gradient times the other operand; a matrix product passes `dC x B^T` to
/// the left and `A^T x dC` to the right. The left operand is updated first.
pub open spec fn tensor_step<T, P: Fn(T, T) -> T, M: Fn(T, T) -> T>(
    ops: Seq<TensorOp>,
    values: Seq<Seq<T>>,
    grads: Seq<Seq<T>>,
    zero: T,
    n: int,
    plus: P,
    times: M,
) -> Seq<Seq<T>> {
    let g = grads[n];
    match ops[n] {
        TensorOp::Leaf => grads,
        TensorOp::Add(l, r, layout) => {
            let other_delta = match layout {
                AddLayout::Same => g,
                AddLayout::RowBroadcast(c) => column_sums(g, c as nat, zero, plus),
            };
            accumulate_both(grads, l.0 as int, g, r.0 as int, other_delta, plus)
        },
        TensorOp::Mul(l, r) => accumulate_both(
            grads,
            l.0 as int,
            pairwise(g, values[r.0 as int], times),
            r.0 as int,
            pairwise(g, values[l.0 as int], times),
            plus,
        ),
        TensorOp::Matmul(l, r, d) => accumulate_both(
            grads,
            l.0 as int,
            product_left_delta(d, g, values[r.0 as int], zero, plus, times),
            r.0 as int,
            product_right_delta(d, values[l.0 as int], g, zero, plus, times),
            plus,
        ),
    }
}

/// The number of elements of a matrix is the product of its dimensions.
pub proof fn lemma_matrix_size(rows: usize, cols: usize)
    ensures
        shape_size(seq![rows, cols]) == rows * cols,
        shape_size(seq![cols]) == cols,
{
    let m = seq![rows, cols];
    assert(m.drop_last() =~= seq![rows]);
    assert(seq![rows].drop_last() =~= Seq::<usize>::empty());
    assert(seq![cols].drop_last() =~= Seq::<usize>::empty());
    assert(shape_size(Seq::<usize>::empty()) == 1);
    assert(shape_size(seq![rows]) == 1 * (rows as nat));
    assert(shape_size(seq![cols]) == 1 * (cols as nat));
    assert(shape_size(m) == shape_size(seq![rows]) * (cols as nat));
}

/// The last element of an `m` by `n` matrix is at `(m - 1) * n + (n - 1)`.
proof fn lemma_last_index(m: int, n: int)
    requires
        m > 0,
        n > 0,
    ensures
        (m - 1) * n + (n - 1) < m * n,
        (n - 1) + (m - 1) * n < m * n,
{
    assert((m - 1) * n + (n - 1) == m * n - 1) by (nonlinear_arith);
}

/// Element `(i, j)` of the matrix product `a x b` is the sum over `k` of
/// `a[i, k] * b[k, j]`, taken from zero in order of `k`.
pub proof fn lemma_product_element<T, P: Fn(T, T) -> T, M: Fn(T, T) -> T>(
    d: MatmulDims,
    a: Seq<T>,
    b: Seq<T>,
    zero: T,
    plus: P,
    times: M,
    i: int,
    j: int,
)
    requires
        0 <= i < d.rows,
        0 <= j < d.cols,
    ensures
        i * d.cols + j < d.rows * d.cols,
        product_data(d, a, b, zero, plus, times)[i * d.cols + j] == dot(
            a,
            i * d.inner,
            1,
            b,
            j,
            d.cols as int,
            d.inner as int,
            zero,
            plus,
            times,
        ),
{
    lemma_contraction_element(
        a,
        b,
        d.rows as nat,
        d.cols as nat,
        d.inner as nat,
        d.inner as nat,
        1,
        1,
        d.cols as nat,
        zero,
        plus,
        times,
        i,
        j,
    );
}

/// Element `(i, k)` of the gradient passed to the left operand of a matrix product is
/// the sum over `j` of `dC[i, j] * B[k, j]`: the row of `dC x B^T`.
pub proof fn lemma_left_delta_element<T, P: Fn(T, T) -> T, M: Fn(T, T) -> T>(
    d: MatmulDims,
    out_grad: Seq<T>,
    right: Seq<T>,
    zero: T,
    plus: P,
    times: M,
    i: int,
    k: int,
)
    requires
        0 <= i < d.rows,
        0 <= k < d.inner,
    ensures
        i * d.inner + k < d.rows * d.inner,
        product_left_delta(d, out_grad, right, zero, plus, times)[i * d.inner + k] == dot(
            out_grad,
            i * d.cols,
            1,
            right,
            k * d.cols,
            1,
            d.cols as int,
            zero,
            plus,
            times,
        ),
{
    lemma_contraction_element(
        out_grad,
        right,
        d.rows as nat,
        d.inner as nat,
        d.cols as nat,
        d.cols as nat,
        1,
        d.cols as nat,
        1,
        zero,
        plus,
        times,
        i,
        k,
    );
}

/// Element `(k, j)` of the gradient passed to the right operand of a matrix product is
/// the sum over `i` of `A[i, k] * dC[i, j]`: the element of `A^T x dC`.
pub proof fn lemma_right_delta_element<T, P: Fn(T, T) -> T, M: Fn(T, T) -> T>(
    d: MatmulDims,
    left: Seq<T>,
    out_grad: Seq<T>,
    zero: T,
    plus: P,
    times: M,
    k: int,
    j: int,
)
    requires
        0 <= k < d.inner,
        0 <= j < d.cols,
    ensures
        k * d.cols + j < d.inner * d.cols,
        product_right_delta(d, left, out_grad, zero, plus, times)[k * d.cols + j] == dot(
            left,
            k,
            d.inner as int,
            out_grad,
            j,
            d.cols as int,
            d.rows as int,
            zero,
            plus,
            times,
        ),
{
    lemma_contraction_element(
        left,
        out_grad,
        d.inner as nat,
        d.cols as nat,
        d.rows as nat,
        1,
        d.inner as nat,
        1,
        d.cols as nat,
        zero,
        plus,
        times,
        k,
        j,
    );
}

/// The local backward rule of a tensor changes the gradients of its operands only, and
/// keeps the length of every gradient.
pub proof fn lemma_tensor_step_frame<T: Copy, P: Fn(T, T) -> T, M: Fn(T, T) -> T>(
    graph: &TensorGraph<T>,
    n: int,
    plus: P,
    times: M,
    x: int,
)
    requires
        graph.wf(),
        0 <= n < graph.ops().len(),
        0 <= x < graph.ops().len(),
        !tensor_children(graph.ops()[n]).contains(Tensor(x as usize)),
    ensures
        tensor_step(graph.ops(), graph.values(), graph.grads(), graph.zero(), n, plus, times).len()
            == graph.grads().len(),
        tensor_step(graph.ops(), graph.values(), graph.grads(), graph.zero(), n, plus, times)[x]
            == graph.grads()[x],
{
    graph.lemma_wf(n);
    match graph.ops()[n] {
        TensorOp::Leaf => {},
        TensorOp::Add(l, r, _) => {
            assert(tensor_children(graph.ops()[n])[0] == l);
            assert(tensor_children(graph.ops()[n])[1] == r);
        },
        TensorOp::Mul(l, r) => {
            assert(tensor_children(graph.ops()[n])[0] == l);
            assert(tensor_children(graph.ops()[n])[1] == r);
        },
        TensorOp::Matmul(l, r, _) => {
            assert(tensor_children(graph.ops()[n])[0] == l);
            assert(tensor_children(graph.ops()[n])[1] == r);
        },
    }
}

/// The product rule for tensors: the local rule of an elementwise product adds to each
/// element of an operand's gradient the output's gradient times the other operand's
/// element, keeping what the gradient held; an operand multiplied by itself receives
/// both contributions, the left one first. No other gradient changes.
pub proof fn lemma_tensor_mul_rule<T: Copy, P: Fn(T, T) -> T, M: Fn(T, T) -> T>(
    graph: &TensorGraph<T>,
    n: int,
    l: Tensor,
    r: Tensor,
    plus: P,
    times: M,
)
    requires
        graph.wf(),
        0 <= n < graph.ops().len(),
        graph.ops()[n] == TensorOp::Mul(l, r),
    ensures
        ({
            let grads = graph.grads();
            let vals = graph.values();
            let out = tensor_step(graph.ops(), vals, grads, graph.zero(), n, plus, times);
            let (a, b) = (l.0 as int, r.0 as int);
            &&& out.len() == grads.len()
            &&& out[a].len() == grads[a].len() == grads[n].len()
            &&& out[b].len() == grads[b].len() == grads[n].len()
            &&& forall|x: int| 0 <= x < grads.len() && x != a && x != b ==> out[x] == grads[x]
            &&& a != b ==> forall|i: int|
                0 <= i < grads[n].len() ==> {
                    &&& #[trigger] out[a][i] == apply(plus, grads[a][i], apply(times, grads[n][i], vals[b][i]))
                    &&& out[b][i] == apply(plus, grads[b][i], apply(times, grads[n][i], vals[a][i]))
                }
            &&& a == b ==> forall|i: int|
                0 <= i < grads[n].len() ==> #[trigger] out[a][i] == apply(
                    plus,
                    apply(plus, grads[a][i], apply(times, grads[n][i], vals[a][i])),
                    apply(times, grads[n][i], vals[a][i]),
                )
        }),
{
    graph.lemma_wf(n);
    graph.lemma_wf(l.0 as int);
    graph.lemma_wf(r.0 as int);
}

/// The sum rule for tensors of one shape: the local rule of a sum adds the output's
/// gradient to each operand's gradient, element by element, keeping what it held; an
/// operand added to itself receives it twice. No other gradient changes.
pub proof fn lemma_tensor_add_rule<T: Copy, P: Fn(T, T) -> T, M: Fn(T, T) -> T>(
    graph: &TensorGraph<T>,
    n: int,
    l: Tensor,
    r: Tensor,
    plus: P,
    times: M,
)
    requires
        graph.wf(),
        0 <= n < graph.ops().len(),
        graph.ops()[n] == TensorOp::Add(l, r, AddLayout::Same),
    ensures
        ({
            let grads = graph.grads();
            let out = tensor_step(graph.ops(), graph.values(), grads, graph.zero(), n, plus, times);
            let (a, b) = (l.0 as int, r.0 as int);
            &&& out.len() == grads.len()
            &&& out[a].len() == grads[a].len() == grads[n].len()
            &&& out[b].len() == grads[b].len() == grads[n].len()
            &&& forall|x: int| 0 <= x < grads.len() && x != a && x != b ==> out[x] == grads[x]
            &&& a != b ==> forall|i: int|
                0 <= i < grads[n].len() ==> {
                    &&& #[trigger] out[a][i] == apply(plus, grads[a][i], grads[n][i])
                    &&& out[b][i] == apply(plus, grads[b][i], grads[n][i])
                }
            &&& a == b ==> forall|i: int|
                0 <= i < grads[n].len() ==> #[trigger] out[a][i] == apply(
                    plus,
                    apply(plus, grads[a][i], grads[n][i]),
                    grads[n][i],
                )
        }),
{
    graph.lemma_wf(n);
    graph.lemma_wf(l.0 as int);
    graph.lemma_wf(r.0 as int);
}

/// The rule for a row added to every row of a matrix: the matrix's gradient receives the
/// output's gradient element by element, and each element of the row's gradient receives
/// its column of the output's gradient summed down the rows in order; both keep what they
/// held. No other gradient changes.
pub proof fn lemma_tensor_broadcast_rule<T: Copy, P: Fn(T, T) -> T, M: Fn(T, T) -> T>(
    graph: &TensorGraph<T>,
    n: int,
    l: Tensor,
    r: Tensor,
    c: usize,
    plus: P,
    times: M,
)
    requires
        graph.wf(),
        0 <= n < graph.ops().len(),
        graph.ops()[n] == TensorOp::Add(l, r, AddLayout::RowBroadcast(c)),
    ensures
        ({
            let grads = graph.grads();
            let out = tensor_step(graph.ops(), graph.values(), grads, graph.zero(), n, plus, times);
            let (a, b) = (l.0 as int, r.0 as int);
            let rows = graph.shapes()[a][0];
            &&& a != b
            &&& graph.shapes()[a] == seq![rows, c]
            &&& graph.shapes()[b] == seq![c]
            &&& out.len() == grads.len()
            &&& out[a].len() == grads[a].len() == grads[n].len() == rows * c
            &&& out[b].len() == grads[b].len() == c
            &&& forall|x: int| 0 <= x < grads.len() && x != a && x != b ==> out[x] == grads[x]
            &&& forall|i: int|
                0 <= i < grads[n].len() ==> #[trigger] out[a][i] == apply(plus, grads[a][i], grads[n][i])
            &&& forall|j: int|
                0 <= j < c ==> #[trigger] out[b][j] == apply(
                    plus,
                    grads[b][j],
                    down_column(grads[n], c as nat, j, rows as int, graph.zero(), plus),
                )
        }),
{
    graph.lemma_wf(n);
    graph.lemma_wf(l.0 as int);
    graph.lemma_wf(r.0 as int);
    let left = graph.shapes()[l.0 as int];
    let rows = left[0];
    assert(left =~= seq![rows, c]);
    assert(graph.shapes()[r.0 as int] =~= seq![c]);
    lemma_matrix_size(rows, c);
    lemma_column_sums_down_rows(graph.grads()[n], c as nat, rows as nat, graph.zero(), plus);
}

/// The rule for a matrix product `C = A x B` of dimensions `[rows, inner] x [inner,
/// cols]`: element `(i, k)` of `A`'s gradient receives the sum over `j` of `dC[i, j] *
/// B[k, j]`, element `(k, j)` of `B`'s gradient receives the sum over `i` of `A[i, k] *
/// dC[i, j]`, each sum taken from zero in order, and both gradients keep what they held;
/// a matrix multiplied by itself receives the left contribution, then the right one. No
/// other gradient changes.
pub proof fn lemma_tensor_matmul_rule<T: Copy, P: Fn(T, T) -> T, M: Fn(T, T) -> T>(
    graph: &TensorGraph<T>,
    n: int,
    l: Tensor,
    r: Tensor,
    d: MatmulDims,
    plus: P,
    times: M,
)
    requires
        graph.wf(),
        0 <= n < graph.ops().len(),
        graph.ops()[n] == TensorOp::Matmul(l, r, d),
    ensures
        ({
            let grads = graph.grads();
            let vals = graph.values();
            let z = graph.zero();
            let out = tensor_step(graph.ops(), vals, grads, z, n, plus, times);
            let (a, b) = (l.0 as int, r.0 as int);
            let dc = grads[n];
            &&& out.len() == grads.len()
            &&& out[a].len() == grads[a].len() == d.rows * d.inner
            &&& out[b].len() == grads[b].len() == d.inner * d.cols
            &&& dc.len() == d.rows * d.cols
            &&& forall|x: int| 0 <= x < grads.len() && x != a && x != b ==> out[x] == grads[x]
            &&& a != b ==> forall|i: int, k: int|
                0 <= i < d.rows && 0 <= k < d.inner ==> #[trigger] out[a][i * d.inner + k] == apply(
                    plus,
                    grads[a][i * d.inner + k],
                    dot(dc, i * d.cols, 1, vals[b], k * d.cols, 1, d.cols as int, z, plus, times),
                )
            &&& a != b ==> forall|k: int, j: int|
                0 <= k < d.inner && 0 <= j < d.cols ==> #[trigger] out[b][k * d.cols + j] == apply(
                    plus,
                    grads[b][k * d.cols + j],
                    dot(vals[a], k, d.inner as int, dc, j, d.cols as int, d.rows as int, z, plus, times),
                )
            &&& a == b ==> forall|i: int, k: int|
                0 <= i < d.rows && 0 <= k < d.inner ==> #[trigger] out[a][i * d.inner + k] == apply(
                    plus,
                    apply(
                        plus,
                        grads[a][i * d.inner + k],
                        dot(dc, i * d.cols, 1, vals[a], k * d.cols, 1, d.cols as int, z, plus, times),
                    ),
                    dot(vals[a], i, d.inner as int, dc, k, d.cols as int, d.rows as int, z, plus, times),
                )
        }),
{
    graph.lemma_wf(n);
    graph.lemma_wf(l.0 as int);
    graph.lemma_wf(r.0 as int);
    let (rows, inner, cols) = (d.rows, d.inner, d.cols);
    assert(graph.shapes()[l.0 as int] =~= seq![rows, inner]);
    assert(graph.shapes()[r.0 as int] =~= seq![inner, cols]);
    lemma_matrix_size(rows, inner);
    lemma_matrix_size(inner, cols);
    lemma_matrix_size(rows, cols);
    let grads = graph.grads();
    let vals = graph.values();
    let z = graph.zero();
    let dc = grads[n];
    let out = tensor_step(graph.ops(), vals, grads, z, n, plus, times);
    let (ia, ib) = (l.0 as int, r.0 as int);
    if ia != ib {
        assert forall|i: int, k: int| 0 <= i < rows && 0 <= k < inner implies #[trigger] out[ia][i
            * inner + k] == apply(
            plus,
            grads[ia][i * inner + k],
            dot(dc, i * cols, 1, vals[ib], k * cols, 1, cols as int, z, plus, times),
        ) by {
            lemma_left_delta_element(d, dc, vals[ib], z, plus, times, i, k);
        }
        assert forall|k: int, j: int| 0 <= k < inner && 0 <= j < cols implies #[trigger] out[ib][k
            * cols + j] == apply(
            plus,
            grads[ib][k * cols + j],
            dot(vals[ia], k, inner as int, dc, j, cols as int, rows as int, z, plus, times),
        ) by {
            lemma_right_delta_element(d, vals[ia], dc, z, plus, times, k, j);
        }
    } else {
        assert forall|i: int, k: int| 0 <= i < rows && 0 <= k < inner implies #[trigger] out[ia][i
            * inner + k] == apply(
            plus,
            apply(
                plus,
                grads[ia][i * inner + k],
                dot(dc, i * cols, 1, vals[ia], k * cols, 1, cols as int, z, plus, times),
            ),
            dot(vals[ia], i, inner as int, dc, k, cols as int, rows as int, z, plus, times),
        ) by {
            assert(rows == inner && inner == cols);
            lemma_left_delta_element(d, dc, vals[ib], z, plus, times, i, k);
            lemma_right_delta_element(d, vals[ia], dc, z, plus, times, i, k);
        }
    }
}

/// A copy of a sequence of `Copy` elements.
fn copy_vec<A: Copy>(v: &Vec<A>) -> (r: Vec<A>)
    ensures
        r@ == v@,
{
    let mut r: Vec<A> = Vec::new();
    let mut i: usize = 0;
    while i < v.len()
        invariant
            i <= v.len(),
            r@ == v@.take(i as int),
        decreases v.len() - i,
    {
        r.push(v[i]);
        i += 1;
        assert(r@ =~= v@.take(i as int));
    }
    assert(v@.take(i as int) =~= v@);
    r
}

impl<T: Copy> TensorData<T> {
    /// Data of shape `shape`, with a gradient of zeros of the same length.
    pub fn new(data: Vec<T>, shape: Vec<usize>, zero: T) -> (t: TensorData<T>)
        requires
            shape_size(shape@) == data.len(),
        ensures
            t.data@ == data@,
            t.shape@ == shape@,
            t.grad@ == Seq::new(data.len() as nat, |i: int| zero),
            t.children@ == Seq::<Tensor>::empty(),
    {
        let expected = data.len();
        TensorData { data, shape, grad: filled(zero, expected), children: Vec::new() }
    }
}

impl<T: Copy> TensorGraph<T> {
    /// The data of each tensor.
    pub closed spec fn values(&self) -> Seq<Seq<T>> {
        self.data@.map_values(|v: Vec<T>| v@)
    }

    /// The gradient of each tensor.
    pub closed spec fn grads(&self) -> Seq<Seq<T>> {
        self.grad@.map_values(|v: Vec<T>| v@)
    }

    /// The shape of each tensor.
    pub closed spec fn shapes(&self) -> Seq<Seq<usize>> {
        self.shape@.map_values(|v: Vec<usize>| v@)
    }

    /// How each tensor was computed.
    pub closed spec fn ops(&self) -> Seq<TensorOp> {
        self.op@
    }

    /// The element gradients start with, and sums start from.
    pub closed spec fn zero(&self) -> T {
        self.zero
    }

    /// Every tensor has data and a gradient as long as its shape says, and is computed
    /// from earlier tensors whose shapes fit.
    pub closed spec fn wf(&self) -> bool {
        &&& self.data@.len() == self.op@.len()
        &&& self.grad@.len() == self.op@.len()
        &&& self.shape@.len() == self.op@.len()
        &&& forall|i: int| 0 <= i < self.op@.len() ==> #[trigger] self.tensor_wf(i)
    }

    /// Tensor `i` has data and a gradient as long as its shape says, and its operation
    /// fits the shapes.
    pub closed spec fn tensor_wf(&self, i: int) -> bool {
        &&& self.data@[i]@.len() == shape_size(self.shape@[i]@)
        &&& self.grad@[i]@.len() == shape_size(self.shape@[i]@)
        &&& op_fits(self.op@[i], i, self.shapes())
    }

    /// `t` is a tensor of this graph.
    pub open spec fn holds(&self, t: Tensor) -> bool {
        t.0 < self.ops().len()
    }

    /// What every tensor of a well-formed graph satisfies.
    pub proof fn lemma_wf(&self, i: int)
        requires
            self.wf(),
            0 <= i < self.ops().len(),
        ensures
            self.values().len() == self.ops().len(),
            self.grads().len() == self.ops().len(),
            self.shapes().len() == self.ops().len(),
            self.values()[i].len() == shape_size(self.shapes()[i]),
            self.grads()[i].len() == shape_size(self.shapes()[i]),
            op_fits(self.ops()[i], i, self.shapes()),
    {
        assert(self.tensor_wf(i));
    }

    /// An empty graph whose gradients start at `zero`.
    pub fn new(zero: T) -> (g: Self)
        ensures
            g.wf(),
            g.ops().len() == 0,
            g.values().len() == 0,
            g.grads().len() == 0,
            g.shapes().len() == 0,
            g.zero() == zero,
    {
        TensorGraph { data: Vec::new(), grad: Vec::new(), shape: Vec::new(), op: Vec::new(), zero }
    }

    /// The number of tensors.
    pub fn len(&self) -> (n: usize)
        requires
            self.wf(),
        ensures
            n == self.ops().len(),
    {
        self.op.len()
    }

    /// A snapshot of tensor `t`.
    pub fn node(&self, t: Tensor) -> (n: TensorData<T>)
        requires
            self.wf(),
            self.holds(t),
        ensures
            n.data@ == self.values()[t.0 as int],
            n.shape@ == self.shapes()[t.0 as int],
            n.grad@ == self.grads()[t.0 as int],
            n.children@ == tensor_children(self.ops()[t.0 as int]),
    {
        let children = match self.op[t.0] {
            TensorOp::Leaf => Vec::new(),
            TensorOp::Add(l, r, _) => vec![l, r],
            TensorOp::Mul(l, r) => vec![l, r],
            TensorOp::Matmul(l, r, _) => vec![l, r],
        };
        TensorData {
            data: copy_vec(&self.data[t.0]),
            shape: copy_vec(&self.shape[t.0]),
            grad: copy_vec(&self.grad[t.0]),
            children,
        }
    }

    /// Sets the gradient of tensor `t`.
    pub fn set_grad(&mut self, t: Tensor, grad: Vec<T>)
        requires
            old(self).wf(),
            old(self).holds(t),
            grad.len() == old(self).grads()[t.0 as int].len(),
        ensures
            final(self).wf(),
            final(self).values() == old(self).values(),
            final(self).shapes() == old(self).shapes(),
            final(self).ops() == old(self).ops(),
            final(self).grads() == old(self).grads().update(t.0 as int, grad@),
            final(self).zero() == old(self).zero(),
    {
        proof {
            self.lemma_wf(t.0 as int);
        }
        let ghost g = grad@;
        self.grad.set(t.0, grad);
        assert(self.grads() =~= old(self).grads().update(t.0 as int, g));
        assert(self.shapes() =~= old(self).shapes());
        assert forall|i: int| 0 <= i < self.op@.len() implies #[trigger] self.tensor_wf(i) by {
            assert(old(self).tensor_wf(i));
        }
    }

    /// Appends a tensor computed by `op`.
    fn push(&mut self, data: Vec<T>, shape: Vec<usize>, op: TensorOp) -> (t: Tensor)
        requires
            old(self).wf(),
            data.len() == shape_size(shape@),
            op_fits(op, old(self).ops().len() as int, old(self).shapes().push(shape@)),
            old(self).ops().len() < usize::MAX,
        ensures
            final(self).wf(),
            t.0 == old(self).ops().len(),
            final(self).values() == old(self).values().push(data@),
            final(self).shapes() == old(self).shapes().push(shape@),
            final(self).grads() == old(self).grads().push(Seq::new(data.len() as nat, |i: int| old(self).zero())),
            final(self).ops() == old(self).ops().push(op),
            final(self).zero() == old(self).zero(),
    {
        let t = Tensor(self.op.len());
        let n = data.len();
        let ghost d = data@;
        let ghost s = shape@;
        let zeros = filled(self.zero, n);
        self.data.push(data);
        self.grad.push(zeros);
        self.shape.push(shape);
        self.op.push(op);
        assert(self.values() =~= old(self).values().push(d));
        assert(self.shapes() =~= old(self).shapes().push(s));
        assert(self.grads() =~= old(self).grads().push(Seq::new(n as nat, |i: int| old(self).zero())));
        assert forall|i: int| 0 <= i < self.op@.len() implies #[trigger] self.tensor_wf(i) by {
            if i < old(self).op@.len() {
                assert(old(self).tensor_wf(i));
                let op_i = self.op@[i];
                assert(op_fits(op_i, i, old(self).shapes()));
            }
        }
        t
    }

    /// Adds `delta` to the gradient of tensor `t`, element by element.
    fn accumulate<P: Fn(T, T) -> T>(&mut self, t: Tensor, delta: &Vec<T>, plus: &P)
        requires
            old(self).wf(),
            old(self).holds(t),
            delta.len() == old(self).grads()[t.0 as int].len(),
            is_operation(*plus),
        ensures
            final(self).wf(),
            final(self).values() == old(self).values(),
            final(self).shapes() == old(self).shapes(),
            final(self).ops() == old(self).ops(),
            final(self).grads() == old(self).grads().update(
                t.0 as int,
                pairwise(old(self).grads()[t.0 as int], delta@, *plus),
            ),
            final(self).zero() == old(self).zero(),
    {
        proof {
            self.lemma_wf(t.0 as int);
        }
        let sum = zip_with(&self.grad[t.0], delta, plus);
        self.set_grad(t, sum);
    }
}

/// The layout of a sum of operands of shapes `left` and `right`, where they add.
pub open spec fn layout_of(left: Seq<usize>, right: Seq<usize>) -> AddLayout {
    match add_rule(left, right) {
        Ok(layout) => layout,
        Err(_) => AddLayout::Same,
    }
}

/// The dimensions of a product of operands of shapes `left` and `right`, where they
/// multiply.
pub open spec fn dims_of(left: Seq<usize>, right: Seq<usize>) -> MatmulDims {
    match matmul_rule(left, right) {
        Ok(d) => d,
        Err(_) => MatmulDims { rows: 0, inner: 0, cols: 0 },
    }
}

impl Tensor {
    /// A new tensor of data `data` and shape `shape`, with a zero gradient.
    pub fn new<T: Copy>(graph: &mut TensorGraph<T>, data: Vec<T>, shape: Vec<usize>) -> (t: Tensor)
        requires
            old(graph).wf(),
            shape_size(shape@) == data.len(),
            old(graph).ops().len() < usize::MAX,
        ensures
            final(graph).wf(),
            t.0 == old(graph).ops().len(),
            final(graph).values() == old(graph).values().push(data@),
            final(graph).shapes() == old(graph).shapes().push(shape@),
            final(graph).grads() == old(graph).grads().push(
                Seq::new(data.len() as nat, |i: int| old(graph).zero()),
            ),
            final(graph).ops() == old(graph).ops().push(TensorOp::Leaf),
            final(graph).zero() == old(graph).zero(),
    {
        graph.push(data, shape, TensorOp::Leaf)
    }

    /// A new tensor holding the sum of `self` and `other`: pairwise for equal shapes,
    /// or the row `other` added to every row of the matrix `self`.
    pub fn add<T: Copy, P: Fn(T, T) -> T>(&self, other: &Tensor, graph: &mut TensorGraph<T>, plus: &P) -> (t: Tensor)
        requires
            old(graph).wf(),
            old(graph).holds(*self),
            old(graph).holds(*other),
            old(graph).ops().len() < usize::MAX,
            add_rule(old(graph).shapes()[self.0 as int], old(graph).shapes()[other.0 as int]) is Ok,
            is_operation(*plus),
        ensures
            final(graph).wf(),
            t.0 == old(graph).ops().len(),
            final(graph).values() == old(graph).values().push(
                sum_data(
                    layout_of(old(graph).shapes()[self.0 as int], old(graph).shapes()[other.0 as int]),
                    old(graph).values()[self.0 as int],
                    old(graph).values()[other.0 as int],
                    *plus,
                ),
            ),
            final(graph).shapes() == old(graph).shapes().push(old(graph).shapes()[self.0 as int]),
            final(graph).grads() == old(graph).grads().push(
                Seq::new(
                    old(graph).values()[self.0 as int].len(),
                    |i: int| old(graph).zero(),
                ),
            ),
            final(graph).ops() == old(graph).ops().push(
                TensorOp::Add(
                    *self,
                    *other,
                    layout_of(old(graph).shapes()[self.0 as int], old(graph).shapes()[other.0 as int]),
                ),
            ),
            final(graph).zero() == old(graph).zero(),
    {
        proof {
            graph.lemma_wf(self.0 as int);
            graph.lemma_wf(other.0 as int);
        }
        let layout = match add_layout(&graph.shape[self.0], &graph.shape[other.0]) {
            Ok(layout) => layout,
            Err(_) => {
                proof {
                    assert(false);
                }
                AddLayout::Same
            },
        };
        let data = match layout {
            AddLayout::Same => zip_with(&graph.data[self.0], &graph.data[other.0], plus),
            AddLayout::RowBroadcast(c) => {
                proof {
                    let left = graph.shapes()[self.0 as int];
                    lemma_matrix_size(left[0], c);
                    assert(left =~= seq![left[0], c]);
                    assert(graph.shapes()[other.0 as int] =~= seq![c]);
                    if c == 0 {
                        assert(left[0] * c == 0) by (nonlinear_arith)
                            requires
                                c == 0,
                        ;
                    }
                }
                broadcast_rows(&graph.data[self.0], &graph.data[other.0], c, plus)
            },
        };
        let shape = copy_vec(&graph.shape[self.0]);
        graph.push(data, shape, TensorOp::Add(*self, *other, layout))
    }

    /// A new tensor holding the elementwise product of `self` and `other`, which have
    /// one shape.
    pub fn mul<T: Copy, M: Fn(T, T) -> T>(&self, other: &Tensor, graph: &mut TensorGraph<T>, times: &M) -> (t: Tensor)
        requires
            old(graph).wf(),
            old(graph).holds(*self),
            old(graph).holds(*other),
            old(graph).ops().len() < usize::MAX,
            old(graph).shapes()[self.0 as int] == old(graph).shapes()[other.0 as int],
            is_operation(*times),
        ensures
            final(graph).wf(),
            t.0 == old(graph).ops().len(),
            final(graph).values() == old(graph).values().push(
                pairwise(old(graph).values()[self.0 as int], old(graph).values()[other.0 as int], *times),
            ),
            final(graph).shapes() == old(graph).shapes().push(old(graph).shapes()[self.0 as int]),
            final(graph).grads() == old(graph).grads().push(
                Seq::new(
                    old(graph).values()[self.0 as int].len(),
                    |i: int| old(graph).zero(),
                ),
            ),
            final(graph).ops() == old(graph).ops().push(TensorOp::Mul(*self, *other)),
            final(graph).zero() == old(graph).zero(),
    {
        proof {
            graph.lemma_wf(self.0 as int);
            graph.lemma_wf(other.0 as int);
        }
        let data = zip_with(&graph.data[self.0], &graph.data[other.0], times);
        let shape = copy_vec(&graph.shape[self.0]);
        graph.push(data, shape, TensorOp::Mul(*self, *other))
    }

    /// A new tensor holding the matrix product of `self` and `other`:
    /// `[rows, inner] x [inner, cols]` gives `[rows, cols]`, each element summed from the
    /// graph's zero over the inner dimension in order.
    pub fn matmul<T: Copy, P: Fn(T, T) -> T, M: Fn(T, T) -> T>(
        &self,
        other: &Tensor,
        graph: &mut TensorGraph<T>,
        plus: &P,
        times: &M,
    ) -> (t: Tensor)
        requires
            old(graph).wf(),
            old(graph).holds(*self),
            old(graph).holds(*other),
            old(graph).ops().len() < usize::MAX,
            matmul_rule(old(graph).shapes()[self.0 as int], old(graph).shapes()[other.0 as int]) is Ok,
            dims_of(old(graph).shapes()[self.0 as int], old(graph).shapes()[other.0 as int]).rows
                * dims_of(old(graph).shapes()[self.0 as int], old(graph).shapes()[other.0 as int]).cols
                <= usize::MAX,
            is_operation(*plus),
            is_operation(*times),
        ensures
            ({
                let d = dims_of(old(graph).shapes()[self.0 as int], old(graph).shapes()[other.0 as int]);
                &&& final(graph).wf()
                &&& t.0 == old(graph).ops().len()
                &&& final(graph).values() == old(graph).values().push(
                    product_data(
                        d,
                        old(graph).values()[self.0 as int],
                        old(graph).values()[other.0 as int],
                        old(graph).zero(),
                        *plus,
                        *times,
                    ),
                )
                &&& final(graph).shapes() == old(graph).shapes().push(seq![d.rows, d.cols])
                &&& final(graph).grads() == old(graph).grads().push(
                    Seq::new(d.rows as nat * d.cols as nat, |i: int| old(graph).zero()),
                )
                &&& final(graph).ops() == old(graph).ops().push(TensorOp::Matmul(*self, *other, d))
                &&& final(graph).zero() == old(graph).zero()
            }),
    {
        proof {
            graph.lemma_wf(self.0 as int);
            graph.lemma_wf(other.0 as int);
        }
        let d = match matmul_dims(&graph.shape[self.0], &graph.shape[other.0]) {
            Ok(d) => d,
            Err(_) => {
                proof {
                    assert(false);
                }
                MatmulDims { rows: 0, inner: 0, cols: 0 }
            },
        };
        let rows = d.rows;
        let inner = d.inner;
        let cols = d.cols;
        proof {
            assert(graph.shapes()[self.0 as int] =~= seq![rows, inner]);
            assert(graph.shapes()[other.0 as int] =~= seq![inner, cols]);
            lemma_matrix_size(rows, inner);
            lemma_matrix_size(inner, cols);
            lemma_matrix_size(rows, cols);
            if rows > 0 && inner > 0 {
                lemma_last_index(rows as int, inner as int);
            }
            if inner > 0 && cols > 0 {
                lemma_last_index(inner as int, cols as int);
            }
        }
        let zero = graph.zero;
        let data = contract(
            &graph.data[self.0],
            &graph.data[other.0],
            rows,
            cols,
            inner,
            inner,
            1,
            1,
            cols,
            zero,
            plus,
            times,
        );
        let shape = vec![rows, cols];
        graph.push(data, shape, TensorOp::Matmul(*self, *other, d))
    }
    /// Runs the local backward rule of `self`: passes its gradient on to the tensors it
    /// was computed from. Both deltas are computed before either gradient changes.
    pub fn propagate<T: Copy, P: Fn(T, T) -> T, M: Fn(T, T) -> T>(
        &self,
        graph: &mut TensorGraph<T>,
        plus: &P,
        times: &M,
    )
        requires
            old(graph).wf(),
            old(graph).holds(*self),
            is_operation(*plus),
            is_operation(*times),
        ensures
            final(graph).wf(),
            final(graph).values() == old(graph).values(),
            final(graph).shapes() == old(graph).shapes(),
            final(graph).ops() == old(graph).ops(),
            final(graph).grads() == tensor_step(
                old(graph).ops(),
                old(graph).values(),
                old(graph).grads(),
                old(graph).zero(),
                self.0 as int,
                *plus,
                *times,
            ),
            final(graph).zero() == old(graph).zero(),
    {
        proof {
            graph.lemma_wf(self.0 as int);
        }
        let g = copy_vec(&graph.grad[self.0]);
        let zero = graph.zero;
        match graph.op[self.0] {
            TensorOp::Leaf => {},
            TensorOp::Add(l, r, layout) => {
                proof {
                    graph.lemma_wf(l.0 as int);
                    graph.lemma_wf(r.0 as int);
                }
                let other_delta = match layout {
                    AddLayout::Same => copy_vec(&g),
                    AddLayout::RowBroadcast(c) => {
                        proof {
                            let left = graph.shapes()[l.0 as int];
                            lemma_matrix_size(left[0], c);
                            assert(left =~= seq![left[0], c]);
                            assert(graph.shapes()[r.0 as int] =~= seq![c]);
                            if c == 0 {
                                assert(left[0] * c == 0) by (nonlinear_arith)
                                    requires
                                        c == 0,
                                ;
                            }
                        }
                        reduce_columns(&g, c, zero, plus)
                    },
                };
                graph.accumulate(l, &g, plus);
                graph.accumulate(r, &other_delta, plus);
            },
            TensorOp::Mul(l, r) => {
                proof {
                    graph.lemma_wf(l.0 as int);
                    graph.lemma_wf(r.0 as int);
                }
                let left_delta = zip_with(&g, &graph.data[r.0], times);
                let right_delta = zip_with(&g, &graph.data[l.0], times);
                graph.accumulate(l, &left_delta, plus);
                graph.accumulate(r, &right_delta, plus);
            },
            TensorOp::Matmul(l, r, d) => {
                proof {
                    graph.lemma_wf(l.0 as int);
                    graph.lemma_wf(r.0 as int);
                }
                let rows = d.rows;
                let inner = d.inner;
                let cols = d.cols;
                let left_len = graph.data[l.0].len();
                let right_len = graph.data[r.0].len();
                proof {
                    assert(graph.shapes()[l.0 as int] =~= seq![rows, inner]);
                    assert(graph.shapes()[r.0 as int] =~= seq![inner, cols]);
                    lemma_matrix_size(rows, inner);
                    lemma_matrix_size(inner, cols);
                    lemma_matrix_size(rows, cols);
                    if rows > 0 && inner > 0 {
                        lemma_last_index(rows as int, inner as int);
                    }
                    if inner > 0 && cols > 0 {
                        lemma_last_index(inner as int, cols as int);
                    }
                    if rows > 0 && cols > 0 {
                        lemma_last_index(rows as int, cols as int);
                    }
                }
                let left_delta = contract(
                    &g,
                    &graph.data[r.0],
                    rows,
                    inner,
                    cols,
                    cols,
                    1,
                    cols,
                    1,
                    zero,
                    plus,
                    times,
                );
                let right_delta = contract(
                    &graph.data[l.0],
                    &g,
                    inner,
                    cols,
                    rows,
                    1,
                    inner,
                    1,
                    cols,
                    zero,
                    plus,
                    times,
                );
                graph.accumulate(l, &left_delta, plus);
                graph.accumulate(r, &right_delta, plus);
            },
        }
    }
}


} // verus!
