//! Scalar reverse-mode automatic differentiation.
//!
//! Every scalar lives as a node of a `ValueGraph`, which records its value, its gradient
//! and how it was computed. The arithmetic on scalars is the caller's: `plus` and
//! `times` are the two operations of the scalar type.
use vstd::prelude::*;

use crate::arith::{apply, is_operation, operate};
use crate::graph::{
    all_below, is_operand, lemma_reaches_below, operands_first, operands_in, lemma_reaches_trans, lemma_topo_order, op_children,
    ops_wf, operands_below, reaches, topo_order, visit, Op, Value,
};

verus! {

/// A snapshot of one node: its value, its gradient and the nodes it was computed from.
pub struct ValueData<T> {
    pub data: T,
    pub grad: T,
    pub children: Vec<Value>,
}

/// The scalars of one computation, in the order in which they were made.
pub struct ValueGraph<T> {
    data: Vec<T>,
    grad: Vec<T>,
    op: Vec<Op>,
    zero: T,
    one: T,
}

/// The gradients after the local backward rule of node `n`: an addition passes its
/// gradient to both operands, a product passes its gradient times the other operand's
/// value; the left operand is updated first.
pub open spec fn local_step<T, P: Fn(T, T) -> T, M: Fn(T, T) -> T>(
    ops: Seq<Op>,
    values: Seq<T>,
    grads: Seq<T>,
    n: int,
    plus: P,
    times: M,
) -> Seq<T> {
    let g = grads[n];
    match ops[n] {
        Op::Leaf => grads,
        Op::Add(l, r) => {
            let g1 = grads.update(l.0 as int, apply(plus, grads[l.0 as int], g));
            g1.update(r.0 as int, apply(plus, g1[r.0 as int], g))
        },
        Op::Mul(l, r) => {
            let g1 = grads.update(
                l.0 as int,
                apply(plus, grads[l.0 as int], apply(times, g, values[r.0 as int])),
            );
            g1.update(r.0 as int, apply(plus, g1[r.0 as int], apply(times, g, values[l.0 as int])))
        },
    }
}

/// The gradients after the local rules of the nodes of `order`, from the last to the
/// first.
pub open spec fn sweep<T, P: Fn(T, T) -> T, M: Fn(T, T) -> T>(
    ops: Seq<Op>,
    values: Seq<T>,
    grads: Seq<T>,
    order: Seq<Value>,
    plus: P,
    times: M,
) -> Seq<T>
    decreases order.len(),
{
    if order.len() == 0 {
        grads
    } else {
        sweep(
            ops,
            values,
            local_step(ops, values, grads, order.last().0 as int, plus, times),
            order.drop_last(),
            plus,
            times,
        )
    }
}

impl<T: Copy> ValueGraph<T> {
    /// The value of each node.
    pub closed spec fn values(&self) -> Seq<T> {
        self.data@
    }

    /// The gradient of each node.
    pub closed spec fn grads(&self) -> Seq<T> {
        self.grad@
    }

    /// How each node was computed.
    pub closed spec fn ops(&self) -> Seq<Op> {
        self.op@
    }

    /// The gradient a new node starts with.
    pub closed spec fn zero(&self) -> T {
        self.zero
    }

    /// The gradient a backward pass seeds its output with.
    pub closed spec fn one(&self) -> T {
        self.one
    }

    /// Each node has a value, a gradient and an operation, and is computed from
    /// earlier nodes.
    pub closed spec fn wf(&self) -> bool {
        &&& self.data@.len() == self.op@.len()
        &&& self.grad@.len() == self.op@.len()
        &&& ops_wf(self.op@)
    }

    /// `v` is a node of this graph.
    pub open spec fn holds(&self, v: Value) -> bool {
        v.0 < self.ops().len()
    }

    /// What a well-formed graph satisfies: one value and one gradient per node, and
    /// every node computed from earlier nodes.
    pub proof fn lemma_wf(&self)
        requires
            self.wf(),
        ensures
            self.values().len() == self.ops().len(),
            self.grads().len() == self.ops().len(),
            ops_wf(self.ops()),
    {
    }

    /// An empty graph whose gradients start at `zero` and whose backward passes seed
    /// `one`.
    pub fn new(zero: T, one: T) -> (g: Self)
        ensures
            g.wf(),
            g.ops().len() == 0,
            g.values().len() == 0,
            g.grads().len() == 0,
            g.zero() == zero,
            g.one() == one,
    {
        ValueGraph { data: Vec::new(), grad: Vec::new(), op: Vec::new(), zero, one }
    }

    /// The number of nodes.
    pub fn len(&self) -> (n: usize)
        requires
            self.wf(),
        ensures
            n == self.ops().len(),
    {
        self.op.len()
    }

    /// The value of node `v`.
    pub fn data(&self, v: Value) -> (d: T)
        requires
            self.wf(),
            self.holds(v),
        ensures
            d == self.values()[v.0 as int],
    {
        self.data[v.0]
    }

    /// The gradient of node `v`.
    pub fn grad(&self, v: Value) -> (g: T)
        requires
            self.wf(),
            self.holds(v),
        ensures
            g == self.grads()[v.0 as int],
    {
        self.grad[v.0]
    }

    /// Sets the gradient of node `v`.
    pub fn set_grad(&mut self, v: Value, g: T)
        requires
            old(self).wf(),
            old(self).holds(v),
        ensures
            final(self).wf(),
            final(self).values() == old(self).values(),
            final(self).ops() == old(self).ops(),
            final(self).grads() == old(self).grads().update(v.0 as int, g),
            final(self).zero() == old(self).zero(),
            final(self).one() == old(self).one(),
    {
        self.grad.set(v.0, g);
    }

    /// A snapshot of node `v`.
    pub fn node(&self, v: Value) -> (n: ValueData<T>)
        requires
            self.wf(),
            self.holds(v),
        ensures
            n.data == self.values()[v.0 as int],
            n.grad == self.grads()[v.0 as int],
            n.children@ == op_children(self.ops()[v.0 as int]),
    {
        let children = match self.op[v.0] {
            Op::Leaf => Vec::new(),
            Op::Add(l, r) => vec![l, r],
            Op::Mul(l, r) => vec![l, r],
        };
        ValueData { data: self.data[v.0], grad: self.grad[v.0], children }
    }

    /// Appends a node.
    fn push(&mut self, data: T, op: Op) -> (v: Value)
        requires
            old(self).wf(),
            operands_below(op, old(self).ops().len() as int),
            old(self).ops().len() < usize::MAX,
        ensures
            final(self).wf(),
            v.0 == old(self).ops().len(),
            final(self).values() == old(self).values().push(data),
            final(self).grads() == old(self).grads().push(old(self).zero()),
            final(self).ops() == old(self).ops().push(op),
            final(self).zero() == old(self).zero(),
            final(self).one() == old(self).one(),
    {
        let v = Value(self.op.len());
        self.data.push(data);
        self.grad.push(self.zero);
        self.op.push(op);
        assert forall|i: int| 0 <= i < self.op@.len() implies #[trigger] operands_below(
            self.op@[i],
            i,
        ) by {
            if i < old(self).op@.len() {
                assert(operands_below(old(self).op@[i], i));
            }
        }
        v
    }
}

/// A list of nodes holds `v`.
fn list_holds(list: &Vec<Value>, v: Value) -> (r: bool)
    ensures
        r == list@.contains(v),
{
    let mut i: usize = 0;
    while i < list.len()
        invariant
            i <= list.len(),
            forall|j: int| 0 <= j < i ==> list@[j] != v,
        decreases list.len() - i,
    {
        if list[i].0 == v.0 {
            assert(list@[i as int] == v);
            return true;
        }
        i += 1;
    }
    false
}

/// The local rule of a sum adds the sum's gradient to the gradient of each operand; an
/// operand that is both operands receives it twice.
pub proof fn lemma_add_rule<T, P: Fn(T, T) -> T, M: Fn(T, T) -> T>(
    ops: Seq<Op>,
    values: Seq<T>,
    grads: Seq<T>,
    n: int,
    l: Value,
    r: Value,
    plus: P,
    times: M,
)
    requires
        ops_wf(ops),
        0 <= n < ops.len(),
        grads.len() == ops.len(),
        ops[n] == Op::Add(l, r),
    ensures
        ({
            let g = grads[n];
            let out = local_step(ops, values, grads, n, plus, times);
            &&& l != r ==> out[l.0 as int] == apply(plus, grads[l.0 as int], g)
            &&& l != r ==> out[r.0 as int] == apply(plus, grads[r.0 as int], g)
            &&& l == r ==> out[l.0 as int] == apply(plus, apply(plus, grads[l.0 as int], g), g)
        }),
{
    assert(operands_below(ops[n], n));
}

/// The local rule of a product adds the product's gradient times the other operand's
/// value to the gradient of each operand; a node multiplied by itself receives both
/// contributions.
pub proof fn lemma_mul_rule<T, P: Fn(T, T) -> T, M: Fn(T, T) -> T>(
    ops: Seq<Op>,
    values: Seq<T>,
    grads: Seq<T>,
    n: int,
    l: Value,
    r: Value,
    plus: P,
    times: M,
)
    requires
        ops_wf(ops),
        0 <= n < ops.len(),
        grads.len() == ops.len(),
        ops[n] == Op::Mul(l, r),
    ensures
        ({
            let g = grads[n];
            let out = local_step(ops, values, grads, n, plus, times);
            let dl = apply(times, g, values[r.0 as int]);
            let dr = apply(times, g, values[l.0 as int]);
            &&& l != r ==> out[l.0 as int] == apply(plus, grads[l.0 as int], dl)
            &&& l != r ==> out[r.0 as int] == apply(plus, grads[r.0 as int], dr)
            &&& l == r ==> out[l.0 as int] == apply(plus, apply(plus, grads[l.0 as int], dl), dr)
        }),
{
    assert(operands_below(ops[n], n));
}

/// A local backward rule changes only the gradients of the node's operands.
pub(crate) proof fn lemma_local_step_frame<T, P: Fn(T, T) -> T, M: Fn(T, T) -> T>(
    ops: Seq<Op>,
    values: Seq<T>,
    grads: Seq<T>,
    n: int,
    plus: P,
    times: M,
    x: int,
)
    requires
        ops_wf(ops),
        0 <= n < ops.len(),
        grads.len() == ops.len(),
        !is_operand(ops, n, x),
    ensures
        local_step(ops, values, grads, n, plus, times).len() == grads.len(),
        0 <= x < grads.len() ==> local_step(ops, values, grads, n, plus, times)[x] == grads[x],
{
    assert(operands_below(ops[n], n));
}

/// A sweep leaves alone the gradient of any node that is no operand of the nodes swept.
pub(crate) proof fn lemma_sweep_frame<T, P: Fn(T, T) -> T, M: Fn(T, T) -> T>(
    ops: Seq<Op>,
    values: Seq<T>,
    grads: Seq<T>,
    order: Seq<Value>,
    plus: P,
    times: M,
    x: int,
)
    requires
        ops_wf(ops),
        all_below(order, ops.len() as int),
        grads.len() == ops.len(),
        forall|i: int| 0 <= i < order.len() ==> !is_operand(ops, #[trigger] order[i].0 as int, x),
    ensures
        sweep(ops, values, grads, order, plus, times).len() == grads.len(),
        0 <= x < grads.len() ==> sweep(ops, values, grads, order, plus, times)[x] == grads[x],
    decreases order.len(),
{
    if order.len() > 0 {
        let n = order.last().0 as int;
        assert(order[order.len() - 1].0 < ops.len());
        assert(!is_operand(ops, order[order.len() - 1].0 as int, x));
        lemma_local_step_frame(ops, values, grads, n, plus, times, x);
        let rest = order.drop_last();
        assert forall|i: int| 0 <= i < rest.len() implies !is_operand(
            ops,
            #[trigger] rest[i].0 as int,
            x,
        ) by {
            assert(rest[i] == order[i]);
        }
        assert(all_below(rest, ops.len() as int)) by {
            assert forall|i: int| 0 <= i < rest.len() implies #[trigger] rest[i].0 < ops.len() by {
                assert(rest[i] == order[i]);
            }
        }
        lemma_sweep_frame(
            ops,
            values,
            local_step(ops, values, grads, n, plus, times),
            rest,
            plus,
            times,
            x,
        );
    }
}

/// After back-propagation from `root`, the gradient of `root` is the seed, and every
/// node that `root` was not computed from, directly or not, keeps the gradient it had.
pub proof fn lemma_backward_frame<T, P: Fn(T, T) -> T, M: Fn(T, T) -> T>(
    ops: Seq<Op>,
    values: Seq<T>,
    grads: Seq<T>,
    root: usize,
    one: T,
    plus: P,
    times: M,
)
    requires
        ops_wf(ops),
        root < ops.len(),
        grads.len() == ops.len(),
    ensures
        ({
            let out = sweep(ops, values, grads.update(root as int, one), topo_order(ops, root), plus, times);
            &&& out.len() == grads.len()
            &&& out[root as int] == one
            &&& forall|x: int| 0 <= x < grads.len() && !reaches(ops, root as int, x) ==> out[x] == grads[x]
        }),
{
    lemma_topo_order(ops, root);
    let order = topo_order(ops, root);
    let seeded = grads.update(root as int, one);
    assert forall|i: int| 0 <= i < order.len() implies !is_operand(
        ops,
        #[trigger] order[i].0 as int,
        root as int,
    ) by {
        let y = order[i];
        assert(order.contains(y));
        lemma_reaches_below(ops, root as int, y.0 as int);
        assert(operands_below(ops[y.0 as int], y.0 as int));
    }
    lemma_sweep_frame(ops, values, seeded, order, plus, times, root as int);
    assert forall|x: int| 0 <= x < grads.len() && !reaches(ops, root as int, x) implies sweep(
        ops,
        values,
        seeded,
        order,
        plus,
        times,
    )[x] == grads[x] by {
        assert forall|i: int| 0 <= i < order.len() implies !is_operand(
            ops,
            #[trigger] order[i].0 as int,
            x,
        ) by {
            let y = order[i];
            assert(order.contains(y));
            if is_operand(ops, y.0 as int, x) {
                assert(operands_below(ops[y.0 as int], y.0 as int));
                assert(reaches(ops, x, x));
                assert(reaches(ops, y.0 as int, x));
                lemma_reaches_trans(ops, root as int, y.0 as int, x);
            }
        }
        lemma_sweep_frame(ops, values, seeded, order, plus, times, x);
        assert(x != root) by {
            assert(reaches(ops, root as int, root as int));
        }
    }
}

/// What node `p`, holding gradient `g`, adds to the accumulator `acc` of node `n` when
/// its local rule runs: for each occurrence of `n` among the operands of `p`, left first,
/// `g` for a sum and `g` times the other operand's value for a product.
pub open spec fn contribution<T, P: Fn(T, T) -> T, M: Fn(T, T) -> T>(
    ops: Seq<Op>,
    values: Seq<T>,
    g: T,
    p: int,
    n: int,
    acc: T,
    plus: P,
    times: M,
) -> T {
    match ops[p] {
        Op::Leaf => acc,
        Op::Add(l, r) => {
            let a1 = if l.0 as int == n {
                apply(plus, acc, g)
            } else {
                acc
            };
            if r.0 as int == n {
                apply(plus, a1, g)
            } else {
                a1
            }
        },
        Op::Mul(l, r) => {
            let a1 = if l.0 as int == n {
                apply(plus, acc, apply(times, g, values[r.0 as int]))
            } else {
                acc
            };
            if r.0 as int == n {
                apply(plus, a1, apply(times, g, values[l.0 as int]))
            } else {
                a1
            }
        },
    }
}

/// Starting from `acc`, the contributions to node `n` of every node `p` of `order`,
/// from the last to the first, each with the gradient `fin[p]`.
pub open spec fn user_sum<T, P: Fn(T, T) -> T, M: Fn(T, T) -> T>(
    ops: Seq<Op>,
    values: Seq<T>,
    fin: Seq<T>,
    order: Seq<Value>,
    n: int,
    acc: T,
    plus: P,
    times: M,
) -> T
    decreases order.len(),
{
    if order.len() == 0 {
        acc
    } else {
        let p = order.last().0 as int;
        user_sum(
            ops,
            values,
            fin,
            order.drop_last(),
            n,
            contribution(ops, values, fin[p], p, n, acc, plus, times),
            plus,
            times,
        )
    }
}

/// The local rule of `u` changes the gradient of each node `n` by the contribution of
/// `u`.
proof fn lemma_local_step_contribution<T, P: Fn(T, T) -> T, M: Fn(T, T) -> T>(
    ops: Seq<Op>,
    values: Seq<T>,
    grads: Seq<T>,
    u: int,
    n: int,
    plus: P,
    times: M,
)
    requires
        ops_wf(ops),
        0 <= u < ops.len(),
        0 <= n < ops.len(),
        grads.len() == ops.len(),
    ensures
        local_step(ops, values, grads, u, plus, times)[n] == contribution(
            ops,
            values,
            grads[u],
            u,
            n,
            grads[n],
            plus,
            times,
        ),
{
    assert(operands_below(ops[u], u));
}

/// After a sweep over an order in which operands come first, each node's gradient is its
/// starting gradient plus the contributions of the nodes of the order that use it, taken
/// in the order the sweep runs them, each with its own final gradient.
pub proof fn lemma_sweep_user_sums<T, P: Fn(T, T) -> T, M: Fn(T, T) -> T>(
    ops: Seq<Op>,
    values: Seq<T>,
    grads: Seq<T>,
    order: Seq<Value>,
    n: int,
    plus: P,
    times: M,
)
    requires
        ops_wf(ops),
        grads.len() == ops.len(),
        all_below(order, ops.len() as int),
        operands_first(ops, order),
        order.no_duplicates(),
        0 <= n < ops.len(),
    ensures
        sweep(ops, values, grads, order, plus, times)[n] == user_sum(
            ops,
            values,
            sweep(ops, values, grads, order, plus, times),
            order,
            n,
            grads[n],
            plus,
            times,
        ),
    decreases order.len(),
{
    broadcast use vstd::seq_lib::group_seq_properties;

    if order.len() > 0 {
        let u = order.last();
        let k = u.0 as int;
        let rest = order.drop_last();
        assert(order[order.len() - 1] == u);
        assert(k < ops.len());
        assert(operands_below(ops[k], k));
        let step = local_step(ops, values, grads, k, plus, times);
        let fin = sweep(ops, values, grads, order, plus, times);
        assert(fin == sweep(ops, values, step, rest, plus, times));
        assert(rest.no_duplicates());
        assert(all_below(rest, ops.len() as int)) by {
            assert forall|i: int| 0 <= i < rest.len() implies #[trigger] rest[i].0 < ops.len() by {
                assert(rest[i] == order[i]);
            }
        }
        assert(operands_first(ops, rest)) by {
            assert forall|i: int| 0 <= i < rest.len() implies #[trigger] operands_in(
                ops,
                rest[i],
                rest.take(i),
            ) by {
                assert(rest[i] == order[i]);
                assert(rest.take(i) =~= order.take(i));
                assert(operands_in(ops, order[i], order.take(i)));
            }
        }
        lemma_local_step_frame(ops, values, grads, k, plus, times, k);
        // No node swept after `u` is computed from `u`, so `u` keeps its gradient.
        assert(!rest.contains(u)) by {
            if rest.contains(u) {
                let i = rest.index_of(u);
                assert(order[i] == order[order.len() - 1]);
            }
        }
        assert forall|i: int| 0 <= i < rest.len() implies !is_operand(
            ops,
            #[trigger] rest[i].0 as int,
            k,
        ) by {
            assert(operands_in(ops, rest[i], rest.take(i)));
            if is_operand(ops, rest[i].0 as int, k) {
                assert(rest.take(i).contains(u));
            }
        }
        lemma_sweep_frame(ops, values, step, rest, plus, times, k);
        assert(fin[k] == grads[k]);
        lemma_local_step_contribution(ops, values, grads, k, n, plus, times);
        lemma_sweep_user_sums(ops, values, step, rest, n, plus, times);
    }
}

/// Back-propagation as a sum over users: after `Value::backward` from `root`, every
/// node holds its gradient from before the pass (one for `root`) plus, for each node
/// reachable from `root` that uses it and each time it uses it, the local derivative (one
/// for a sum, the other operand's value for a product) times that node's final gradient,
/// added in the order the pass runs the nodes: the topological order from its end.
pub proof fn lemma_backward_user_sums<T: Copy, P: Fn(T, T) -> T, M: Fn(T, T) -> T>(
    graph: &ValueGraph<T>,
    root: Value,
    plus: P,
    times: M,
)
    requires
        graph.wf(),
        graph.holds(root),
    ensures
        ({
            let seeded = graph.grads().update(root.0 as int, graph.one());
            let order = topo_order(graph.ops(), root.0);
            let fin = sweep(graph.ops(), graph.values(), seeded, order, plus, times);
            &&& fin.len() == graph.grads().len()
            &&& fin[root.0 as int] == graph.one()
            &&& forall|n: int|
                0 <= n < graph.ops().len() ==> #[trigger] fin[n] == user_sum(
                    graph.ops(),
                    graph.values(),
                    fin,
                    order,
                    n,
                    seeded[n],
                    plus,
                    times,
                )
        }),
{
    graph.lemma_wf();
    lemma_topo_order(graph.ops(), root.0);
    lemma_backward_frame(graph.ops(), graph.values(), graph.grads(), root.0, graph.one(), plus, times);
    let seeded = graph.grads().update(root.0 as int, graph.one());
    let order = topo_order(graph.ops(), root.0);
    assert forall|n: int| 0 <= n < graph.ops().len() implies #[trigger] sweep(
        graph.ops(),
        graph.values(),
        seeded,
        order,
        plus,
        times,
    )[n] == user_sum(
        graph.ops(),
        graph.values(),
        sweep(graph.ops(), graph.values(), seeded, order, plus, times),
        order,
        n,
        seeded[n],
        plus,
        times,
    ) by {
        lemma_sweep_user_sums(graph.ops(), graph.values(), seeded, order, n, plus, times);
    }
}

/// Where the caller's addition is commutative, `a + b` and `b + a` hold the same value,
/// though they are distinct nodes whose operands are recorded in opposite order.
pub proof fn lemma_sum_commutes<T: Copy, P: Fn(T, T) -> T>(graph: &ValueGraph<T>, a: Value, b: Value, plus: P)
    requires
        graph.holds(a),
        graph.holds(b),
        forall|x: T, y: T| #[trigger] apply(plus, x, y) == apply(plus, y, x),
    ensures
        apply(plus, graph.values()[a.0 as int], graph.values()[b.0 as int]) == apply(
            plus,
            graph.values()[b.0 as int],
            graph.values()[a.0 as int],
        ),
{
}

impl Value {
    /// A new leaf node holding `data`, with the graph's zero as its gradient.
    pub fn new<T: Copy>(graph: &mut ValueGraph<T>, data: T) -> (v: Value)
        requires
            old(graph).wf(),
            old(graph).ops().len() < usize::MAX,
        ensures
            final(graph).wf(),
            v.0 == old(graph).ops().len(),
            final(graph).values() == old(graph).values().push(data),
            final(graph).grads() == old(graph).grads().push(old(graph).zero()),
            final(graph).ops() == old(graph).ops().push(Op::Leaf),
            final(graph).zero() == old(graph).zero(),
            final(graph).one() == old(graph).one(),
    {
        graph.push(data, Op::Leaf)
    }

    /// A new node holding the sum of `self` and `other`, computed from both.
    pub fn add<T: Copy, P: Fn(T, T) -> T>(&self, other: &Value, graph: &mut ValueGraph<T>, plus: &P) -> (v: Value)
        requires
            old(graph).wf(),
            old(graph).holds(*self),
            old(graph).holds(*other),
            old(graph).ops().len() < usize::MAX,
            is_operation(*plus),
        ensures
            final(graph).wf(),
            v.0 == old(graph).ops().len(),
            final(graph).values() == old(graph).values().push(
                apply(*plus, old(graph).values()[self.0 as int], old(graph).values()[other.0 as int]),
            ),
            final(graph).grads() == old(graph).grads().push(old(graph).zero()),
            final(graph).ops() == old(graph).ops().push(Op::Add(*self, *other)),
            final(graph).zero() == old(graph).zero(),
            final(graph).one() == old(graph).one(),
    {
        let data = operate(plus, graph.data[self.0], graph.data[other.0]);
        graph.push(data, Op::Add(*self, *other))
    }

    /// A new node holding the product of `self` and `other`, computed from both.
    pub fn mul<T: Copy, M: Fn(T, T) -> T>(&self, other: &Value, graph: &mut ValueGraph<T>, times: &M) -> (v: Value)
        requires
            old(graph).wf(),
            old(graph).holds(*self),
            old(graph).holds(*other),
            old(graph).ops().len() < usize::MAX,
            is_operation(*times),
        ensures
            final(graph).wf(),
            v.0 == old(graph).ops().len(),
            final(graph).values() == old(graph).values().push(
                apply(*times, old(graph).values()[self.0 as int], old(graph).values()[other.0 as int]),
            ),
            final(graph).grads() == old(graph).grads().push(old(graph).zero()),
            final(graph).ops() == old(graph).ops().push(Op::Mul(*self, *other)),
            final(graph).zero() == old(graph).zero(),
            final(graph).one() == old(graph).one(),
    {
        let data = operate(times, graph.data[self.0], graph.data[other.0]);
        graph.push(data, Op::Mul(*self, *other))
    }

    /// Whether two handles name the same node, whatever the values they hold.
    pub fn same_node(&self, other: &Value) -> (r: bool)
        ensures
            r == (self.0 == other.0),
    {
        self.0 == other.0
    }

    /// Depth-first search from `self`: marks each node visited on entry, visits its
    /// operands left to right, and appends it to `topo` on exit; nodes already in
    /// `visited` are skipped.
    pub fn build_topo<T: Copy>(&self, graph: &ValueGraph<T>, visited: &mut Vec<Value>, topo: &mut Vec<Value>)
        requires
            graph.wf(),
            graph.holds(*self),
        ensures
            (final(visited)@, final(topo)@) == visit(graph.ops(), self.0, old(visited)@, old(topo)@),
        decreases self.0,
    {
        if list_holds(visited, *self) {
            return;
        }
        visited.push(*self);
        proof {
            assert(operands_below(graph.ops()[self.0 as int], self.0 as int));
        }
        match graph.op[self.0] {
            Op::Leaf => {},
            Op::Add(l, r) => {
                l.build_topo(graph, visited, topo);
                r.build_topo(graph, visited, topo);
            },
            Op::Mul(l, r) => {
                l.build_topo(graph, visited, topo);
                r.build_topo(graph, visited, topo);
            },
        }
        topo.push(*self);
    }

    /// Runs the local backward rule of `self`: passes its gradient on to the nodes it
    /// was computed from.
    pub fn propagate<T: Copy, P: Fn(T, T) -> T, M: Fn(T, T) -> T>(
        &self,
        graph: &mut ValueGraph<T>,
        plus: &P,
        times: &M,
    )
        requires
            old(graph).wf(),
            old(graph).holds(*self),
            is_operation(*plus),
            is_operation(*times),
        ensures
            final(graph).wf(),
            final(graph).values() == old(graph).values(),
            final(graph).ops() == old(graph).ops(),
            final(graph).grads() == local_step(
                old(graph).ops(),
                old(graph).values(),
                old(graph).grads(),
                self.0 as int,
                *plus,
                *times,
            ),
            final(graph).zero() == old(graph).zero(),
            final(graph).one() == old(graph).one(),
    {
        proof {
            assert(operands_below(graph.ops()[self.0 as int], self.0 as int));
        }
        let g = graph.grad[self.0];
        match graph.op[self.0] {
            Op::Leaf => {},
            Op::Add(l, r) => {
                let a = operate(plus, graph.grad[l.0], g);
                graph.grad.set(l.0, a);
                let b = operate(plus, graph.grad[r.0], g);
                graph.grad.set(r.0, b);
            },
            Op::Mul(l, r) => {
                let left_data = graph.data[l.0];
                let right_data = graph.data[r.0];
                let da = operate(times, g, right_data);
                let a = operate(plus, graph.grad[l.0], da);
                graph.grad.set(l.0, a);
                let db = operate(times, g, left_data);
                let b = operate(plus, graph.grad[r.0], db);
                graph.grad.set(r.0, b);
            },
        }
    }

    /// Back-propagation from `self`: seeds its gradient with the graph's one, then runs
    /// the local rule of every node reachable from it, in reverse topological order.
    /// Gradients accumulate onto what the nodes held before.
    pub fn backward<T: Copy, P: Fn(T, T) -> T, M: Fn(T, T) -> T>(
        &self,
        graph: &mut ValueGraph<T>,
        plus: &P,
        times: &M,
    )
        requires
            old(graph).wf(),
            old(graph).holds(*self),
            is_operation(*plus),
            is_operation(*times),
        ensures
            final(graph).wf(),
            final(graph).values() == old(graph).values(),
            final(graph).ops() == old(graph).ops(),
            final(graph).grads() == sweep(
                old(graph).ops(),
                old(graph).values(),
                old(graph).grads().update(self.0 as int, old(graph).one()),
                topo_order(old(graph).ops(), self.0),
                *plus,
                *times,
            ),
            final(graph).zero() == old(graph).zero(),
            final(graph).one() == old(graph).one(),
    {
        let mut visited: Vec<Value> = Vec::new();
        let mut topo: Vec<Value> = Vec::new();
        self.build_topo(graph, &mut visited, &mut topo);
        proof {
            lemma_topo_order(graph.ops(), self.0);
        }
        let one = graph.one;
        graph.grad.set(self.0, one);
        let ghost ops = graph.ops();
        let ghost values = graph.values();
        let ghost start = graph.grads();
        let mut i = topo.len();
        assert(topo@.take(i as int) =~= topo@);
        while i > 0
            invariant
                graph.wf(),
                graph.ops() == ops,
                graph.values() == values,
                graph.zero() == old(graph).zero(),
                graph.one() == old(graph).one(),
                topo@ == topo_order(ops, self.0),
                all_below(topo@, ops.len() as int),
                i <= topo.len(),
                sweep(ops, values, start, topo@, *plus, *times) == sweep(
                    ops,
                    values,
                    graph.grads(),
                    topo@.take(i as int),
                    *plus,
                    *times,
                ),
                is_operation(*plus),
                is_operation(*times),
            decreases i,
        {
            i -= 1;
            let node = topo[i];
            assert(topo@.take(i + 1).drop_last() =~= topo@.take(i as int));
            assert(topo@[i as int].0 < ops.len());
            node.propagate(graph, plus, times);
        }
        assert(topo@.take(0) =~= Seq::<Value>::empty());
    }
}

} // verus!
