//! The chain rule: a backward pass computes derivatives.
//!
//! When the scalar operations form a commutative semiring (exact integers or rationals,
//! wrapping machine integers, and so on), back-propagation from a node leaves on every
//! node the derivative of the output with respect to it.
use vstd::prelude::*;

use crate::arith::apply;
use crate::graph::{
    all_below, is_operand, lemma_order_closed, lemma_topo_order,
    operands_below, operands_first, operands_in, ops_wf, reaches, topo_order, Op, Value,
};
use crate::value::{lemma_backward_frame, local_step, sweep, ValueGraph};

verus! {

/// `plus` and `times` make a commutative semiring with neutral elements `zero` and `one`.
#[verifier::opaque]
pub open spec fn is_semiring<T, P: Fn(T, T) -> T, M: Fn(T, T) -> T>(
    plus: P,
    times: M,
    zero: T,
    one: T,
) -> bool {
    &&& forall|a: T, b: T, c: T| #[trigger]
        apply(plus, apply(plus, a, b), c) == apply(plus, a, apply(plus, b, c))
    &&& forall|a: T, b: T| #[trigger] apply(plus, a, b) == apply(plus, b, a)
    &&& forall|a: T| #[trigger] apply(plus, a, zero) == a
    &&& forall|a: T, b: T, c: T| #[trigger]
        apply(times, apply(times, a, b), c) == apply(times, a, apply(times, b, c))
    &&& forall|a: T, b: T| #[trigger] apply(times, a, b) == apply(times, b, a)
    &&& forall|a: T| #[trigger] apply(times, one, a) == a
    &&& forall|a: T| #[trigger] apply(times, zero, a) == zero
    &&& forall|a: T, b: T, c: T| #[trigger]
        apply(times, a, apply(plus, b, c)) == apply(plus, apply(times, a, b), apply(times, a, c))
}

/// One instance of each semiring law, for the operations named `plus` and `times`.
proof fn sr_plus_assoc<T, P: Fn(T, T) -> T, M: Fn(T, T) -> T>(plus: P, times: M, zero: T, one: T, a: T, b: T, c: T)
    requires
        is_semiring(plus, times, zero, one),
    ensures
        apply(plus, apply(plus, a, b), c) == apply(plus, a, apply(plus, b, c)),
{
    reveal(is_semiring);
}

proof fn sr_plus_comm<T, P: Fn(T, T) -> T, M: Fn(T, T) -> T>(plus: P, times: M, zero: T, one: T, a: T, b: T)
    requires
        is_semiring(plus, times, zero, one),
    ensures
        apply(plus, a, b) == apply(plus, b, a),
{
    reveal(is_semiring);
}

proof fn sr_plus_zero<T, P: Fn(T, T) -> T, M: Fn(T, T) -> T>(plus: P, times: M, zero: T, one: T, a: T)
    requires
        is_semiring(plus, times, zero, one),
    ensures
        apply(plus, a, zero) == a,
        apply(plus, zero, a) == a,
{
    reveal(is_semiring);
    assert(apply(plus, zero, a) == apply(plus, a, zero));
}

proof fn sr_times_assoc<T, P: Fn(T, T) -> T, M: Fn(T, T) -> T>(plus: P, times: M, zero: T, one: T, a: T, b: T, c: T)
    requires
        is_semiring(plus, times, zero, one),
    ensures
        apply(times, apply(times, a, b), c) == apply(times, a, apply(times, b, c)),
{
    reveal(is_semiring);
}

proof fn sr_times_comm<T, P: Fn(T, T) -> T, M: Fn(T, T) -> T>(plus: P, times: M, zero: T, one: T, a: T, b: T)
    requires
        is_semiring(plus, times, zero, one),
    ensures
        apply(times, a, b) == apply(times, b, a),
{
    reveal(is_semiring);
}

proof fn sr_times_one<T, P: Fn(T, T) -> T, M: Fn(T, T) -> T>(plus: P, times: M, zero: T, one: T, a: T)
    requires
        is_semiring(plus, times, zero, one),
    ensures
        apply(times, one, a) == a,
        apply(times, a, one) == a,
{
    reveal(is_semiring);
    assert(apply(times, a, one) == apply(times, one, a));
}

proof fn sr_times_zero<T, P: Fn(T, T) -> T, M: Fn(T, T) -> T>(plus: P, times: M, zero: T, one: T, a: T)
    requires
        is_semiring(plus, times, zero, one),
    ensures
        apply(times, zero, a) == zero,
        apply(times, a, zero) == zero,
{
    reveal(is_semiring);
    assert(apply(times, a, zero) == apply(times, zero, a));
}

proof fn sr_distrib<T, P: Fn(T, T) -> T, M: Fn(T, T) -> T>(plus: P, times: M, zero: T, one: T, a: T, b: T, c: T)
    requires
        is_semiring(plus, times, zero, one),
    ensures
        apply(times, a, apply(plus, b, c)) == apply(plus, apply(times, a, b), apply(times, a, c)),
        apply(times, apply(plus, b, c), a) == apply(plus, apply(times, b, a), apply(times, c, a)),
{
    reveal(is_semiring);
    assert(apply(times, apply(plus, b, c), a) == apply(times, a, apply(plus, b, c)));
    assert(apply(times, b, a) == apply(times, a, b));
    assert(apply(times, c, a) == apply(times, a, c));
}

/// The derivative of node `n` with respect to node `x`, everything `x` is computed from
/// held fixed: one at `x` itself; through a sum, the sum of the operands' derivatives;
/// through a product, the product rule.
pub open spec fn derivative<T, P: Fn(T, T) -> T, M: Fn(T, T) -> T>(
    ops: Seq<Op>,
    values: Seq<T>,
    plus: P,
    times: M,
    zero: T,
    one: T,
    n: int,
    x: int,
) -> T
    decreases n,
{
    if n == x {
        one
    } else if 0 <= n < ops.len() {
        match ops[n] {
            Op::Leaf => zero,
            Op::Add(l, r) => if l.0 < n && r.0 < n {
                apply(
                    plus,
                    derivative(ops, values, plus, times, zero, one, l.0 as int, x),
                    derivative(ops, values, plus, times, zero, one, r.0 as int, x),
                )
            } else {
                zero
            },
            Op::Mul(l, r) => if l.0 < n && r.0 < n {
                apply(
                    plus,
                    apply(
                        times,
                        derivative(ops, values, plus, times, zero, one, l.0 as int, x),
                        values[r.0 as int],
                    ),
                    apply(
                        times,
                        values[l.0 as int],
                        derivative(ops, values, plus, times, zero, one, r.0 as int, x),
                    ),
                )
            } else {
                zero
            },
        }
    } else {
        zero
    }
}

/// The sum over the nodes `y` of `order`, in order, of `grads[y]` times the derivative
/// of `y` with respect to `x`.
pub open spec fn weighted<T, P: Fn(T, T) -> T, M: Fn(T, T) -> T>(
    ops: Seq<Op>,
    values: Seq<T>,
    plus: P,
    times: M,
    zero: T,
    one: T,
    grads: Seq<T>,
    order: Seq<Value>,
    x: int,
) -> T
    decreases order.len(),
{
    if order.len() == 0 {
        zero
    } else {
        apply(
            plus,
            weighted(ops, values, plus, times, zero, one, grads, order.drop_last(), x),
            apply(
                times,
                grads[order.last().0 as int],
                derivative(ops, values, plus, times, zero, one, order.last().0 as int, x),
            ),
        )
    }
}

/// A node that does not reach `x` has derivative zero with respect to it.
proof fn lemma_derivative_unreached<T, P: Fn(T, T) -> T, M: Fn(T, T) -> T>(
    ops: Seq<Op>,
    values: Seq<T>,
    plus: P,
    times: M,
    zero: T,
    one: T,
    n: int,
    x: int,
)
    requires
        is_semiring(plus, times, zero, one),
        !reaches(ops, n, x),
    ensures
        derivative(ops, values, plus, times, zero, one, n, x) == zero,
    decreases n,
{
    if 0 <= n < ops.len() {
        match ops[n] {
            Op::Leaf => {},
            Op::Add(l, r) => {
                if l.0 < n && r.0 < n {
                    lemma_derivative_unreached(ops, values, plus, times, zero, one, l.0 as int, x);
                    lemma_derivative_unreached(ops, values, plus, times, zero, one, r.0 as int, x);
                    sr_plus_zero(plus, times, zero, one, zero);
                }
            },
            Op::Mul(l, r) => {
                if l.0 < n && r.0 < n {
                    lemma_derivative_unreached(ops, values, plus, times, zero, one, l.0 as int, x);
                    lemma_derivative_unreached(ops, values, plus, times, zero, one, r.0 as int, x);
                    let vl = values[l.0 as int];
                    let vr = values[r.0 as int];
                    sr_times_zero(plus, times, zero, one, vr);
                    sr_times_zero(plus, times, zero, one, vl);
                    sr_plus_zero(plus, times, zero, one, zero);
                }
            },
        }
    }
}

/// With gradients that are zero on every node of `order`, the weighted sum is zero;
/// so it is where every node of `order` has derivative zero.
proof fn lemma_weighted_zero<T, P: Fn(T, T) -> T, M: Fn(T, T) -> T>(
    ops: Seq<Op>,
    values: Seq<T>,
    plus: P,
    times: M,
    zero: T,
    one: T,
    grads: Seq<T>,
    order: Seq<Value>,
    x: int,
)
    requires
        is_semiring(plus, times, zero, one),
        forall|i: int|
            0 <= i < order.len() ==> grads[order[i].0 as int] == zero || derivative(
                ops,
                values,
                plus,
                times,
                zero,
                one,
                #[trigger] order[i].0 as int,
                x,
            ) == zero,
    ensures
        weighted(ops, values, plus, times, zero, one, grads, order, x) == zero,
    decreases order.len(),
{
    if order.len() > 0 {
        let rest = order.drop_last();
        assert forall|i: int|
            0 <= i < rest.len() implies grads[rest[i].0 as int] == zero || derivative(
            ops,
            values,
            plus,
            times,
            zero,
            one,
            #[trigger] rest[i].0 as int,
            x,
        ) == zero by {
            assert(rest[i] == order[i]);
        }
        lemma_weighted_zero(ops, values, plus, times, zero, one, grads, rest, x);
        let y = order.last().0 as int;
        let g = grads[y];
        let d = derivative(ops, values, plus, times, zero, one, y, x);
        assert(order[order.len() - 1] == order.last());
        sr_times_zero(plus, times, zero, one, d);
        sr_times_zero(plus, times, zero, one, g);
        sr_plus_zero(plus, times, zero, one, zero);
    }
}

/// Adding `delta` to the gradient of a node that occurs once in `order` adds `delta`
/// times its derivative to the weighted sum.
proof fn lemma_weighted_update<T, P: Fn(T, T) -> T, M: Fn(T, T) -> T>(
    ops: Seq<Op>,
    values: Seq<T>,
    plus: P,
    times: M,
    zero: T,
    one: T,
    grads: Seq<T>,
    order: Seq<Value>,
    x: int,
    p: usize,
    delta: T,
)
    requires
        is_semiring(plus, times, zero, one),
        0 <= p < grads.len(),
        order.no_duplicates(),
        all_below(order, grads.len() as int),
    ensures
        weighted(
            ops,
            values,
            plus,
            times,
            zero,
            one,
            grads.update(p as int, apply(plus, grads[p as int], delta)),
            order,
            x,
        ) == if order.contains(Value(p)) {
            apply(
                plus,
                weighted(ops, values, plus, times, zero, one, grads, order, x),
                apply(times, delta, derivative(ops, values, plus, times, zero, one, p as int, x)),
            )
        } else {
            weighted(ops, values, plus, times, zero, one, grads, order, x)
        },
    decreases order.len(),
{
    broadcast use vstd::seq_lib::group_seq_properties;

    if order.len() > 0 {
        let g2 = grads.update(p as int, apply(plus, grads[p as int], delta));
        let rest = order.drop_last();
        let y = order.last();
        assert(order[order.len() - 1] == y);
        assert(rest.no_duplicates());
        assert(all_below(rest, grads.len() as int)) by {
            assert forall|i: int| 0 <= i < rest.len() implies #[trigger] rest[i].0 < grads.len() by {
                assert(rest[i] == order[i]);
            }
        }
        assert(y.0 < grads.len());
        lemma_weighted_update(ops, values, plus, times, zero, one, grads, rest, x, p, delta);
        let w = weighted(ops, values, plus, times, zero, one, grads, rest, x);
        let dy = derivative(ops, values, plus, times, zero, one, y.0 as int, x);
        let dp = derivative(ops, values, plus, times, zero, one, p as int, x);
        let term = apply(times, grads[y.0 as int], dy);
        let extra = apply(times, delta, dp);
        assert(order =~= rest.push(y));
        assert(weighted(ops, values, plus, times, zero, one, g2, order, x) == apply(
            plus,
            weighted(ops, values, plus, times, zero, one, g2, rest, x),
            apply(times, g2[y.0 as int], dy),
        ));
        if y == Value(p) {
            assert(!rest.contains(y)) by {
                if rest.contains(y) {
                    let i = rest.index_of(y);
                    assert(order[i] == order[order.len() - 1]);
                }
            }
            // (w + (g + delta) * dp) == (w + g * dp) + delta * dp
            let gp = grads[p as int];
            sr_distrib(plus, times, zero, one, dp, gp, delta);
            sr_plus_assoc(plus, times, zero, one, w, term, extra);
        } else {
            assert(g2[y.0 as int] == grads[y.0 as int]);
            if rest.contains(Value(p)) {
                // (w + extra) + term == (w + term) + extra
                sr_plus_assoc(plus, times, zero, one, w, extra, term);
                sr_plus_comm(plus, times, zero, one, extra, term);
                sr_plus_assoc(plus, times, zero, one, w, term, extra);
            } else {
                assert(!order.contains(Value(p)));
            }
        }
    }
}

/// The backward sweep over an order in which operands come first leaves on each node
/// `x` of the order the sum over the nodes `y` of the order of the starting gradient of
/// `y` times the derivative of `y` with respect to `x`.
pub proof fn lemma_sweep_linear<T, P: Fn(T, T) -> T, M: Fn(T, T) -> T>(
    ops: Seq<Op>,
    values: Seq<T>,
    plus: P,
    times: M,
    zero: T,
    one: T,
    grads: Seq<T>,
    order: Seq<Value>,
    x: usize,
)
    requires
        is_semiring(plus, times, zero, one),
        ops_wf(ops),
        grads.len() == ops.len(),
        all_below(order, ops.len() as int),
        operands_first(ops, order),
        order.no_duplicates(),
        order.contains(Value(x)),
    ensures
        sweep(ops, values, grads, order, plus, times)[x as int] == weighted(
            ops,
            values,
            plus,
            times,
            zero,
            one,
            grads,
            order,
            x as int,
        ),
    decreases order.len(),
{
    broadcast use vstd::seq_lib::group_seq_properties;

    let u = order.last();
    let n = u.0 as int;
    let rest = order.drop_last();
    assert(order[order.len() - 1] == u);
    assert(order =~= rest.push(u));
    assert(n < ops.len());
    assert(operands_below(ops[n], n));
    let step = local_step(ops, values, grads, n, plus, times);
    assert(rest.no_duplicates());
    assert(all_below(rest, ops.len() as int)) by {
        assert forall|i: int| 0 <= i < rest.len() implies #[trigger] rest[i].0 < ops.len() by {
            assert(rest[i] == order[i]);
        }
    }
    assert(operands_first(ops, rest)) by {
        assert forall|i: int| 0 <= i < rest.len() implies #[trigger] operands_in(
            ops,
            rest[i],
            rest.take(i),
        ) by {
            assert(rest[i] == order[i]);
            assert(rest.take(i) =~= order.take(i));
            assert(operands_in(ops, order[i], order.take(i)));
        }
    }
    assert(operands_in(ops, order[order.len() - 1], order.take(order.len() - 1)));
    assert(order.take(order.len() - 1) =~= rest);
    let w = weighted(ops, values, plus, times, zero, one, grads, rest, x as int);
    let g = grads[n];
    let dux = derivative(ops, values, plus, times, zero, one, n, x as int);
    if u == Value(x) {
        // Nothing before `x` in the order is computed from `x`.
        assert(!rest.contains(Value(x))) by {
            if rest.contains(Value(x)) {
                let i = rest.index_of(Value(x));
                assert(order[i] == order[order.len() - 1]);
            }
        }
        assert forall|i: int| 0 <= i < rest.len() implies !is_operand(
            ops,
            #[trigger] rest[i].0 as int,
            x as int,
        ) by {
            assert(operands_in(ops, rest[i], rest.take(i)));
            if is_operand(ops, rest[i].0 as int, x as int) {
                assert(rest.take(i).contains(Value(x)));
                let j = rest.take(i).index_of(Value(x));
                assert(rest[j] == Value(x));
            }
        }
        crate::value::lemma_sweep_frame(ops, values, step, rest, plus, times, x as int);
        crate::value::lemma_local_step_frame(ops, values, grads, n, plus, times, x as int);
        assert forall|i: int|
            0 <= i < rest.len() implies grads[rest[i].0 as int] == zero || derivative(
            ops,
            values,
            plus,
            times,
            zero,
            one,
            #[trigger] rest[i].0 as int,
            x as int,
        ) == zero by {
            if reaches(ops, rest[i].0 as int, x as int) {
                assert(rest.contains(rest[i]));
                lemma_order_closed(ops, rest, rest[i].0, x);
            }
            lemma_derivative_unreached(ops, values, plus, times, zero, one, rest[i].0 as int, x as int);
        }
        lemma_weighted_zero(ops, values, plus, times, zero, one, grads, rest, x as int);
        sr_times_one(plus, times, zero, one, g);
        sr_plus_zero(plus, times, zero, one, g);
    } else {
        assert(rest.contains(Value(x)));
        lemma_sweep_linear(ops, values, plus, times, zero, one, step, rest, x);
        assert(step.len() == ops.len()) by {
            crate::value::lemma_local_step_frame(ops, values, grads, n, plus, times, -1);
        }
        match ops[n] {
            Op::Leaf => {
                assert(step == grads);
                sr_times_zero(plus, times, zero, one, g);
                sr_plus_zero(plus, times, zero, one, w);
            },
            Op::Add(l, r) => {
                let a = l.0 as int;
                let b = r.0 as int;
                assert(rest.contains(l) && rest.contains(r));
                let g1 = grads.update(a, apply(plus, grads[a], g));
                lemma_weighted_update(ops, values, plus, times, zero, one, grads, rest, x as int, l.0, g);
                lemma_weighted_update(ops, values, plus, times, zero, one, g1, rest, x as int, r.0, g);
                let da = derivative(ops, values, plus, times, zero, one, a, x as int);
                let db = derivative(ops, values, plus, times, zero, one, b, x as int);
                assert(dux == apply(plus, da, db));
                // g * (da + db) == g * da + g * db
                sr_distrib(plus, times, zero, one, g, da, db);
                sr_plus_assoc(plus, times, zero, one, w, apply(times, g, da), apply(times, g, db));
            },
            Op::Mul(l, r) => {
                let a = l.0 as int;
                let b = r.0 as int;
                assert(rest.contains(l) && rest.contains(r));
                let va = values[a];
                let vb = values[b];
                let ca = apply(times, g, vb);
                let cb = apply(times, g, va);
                let g1 = grads.update(a, apply(plus, grads[a], ca));
                lemma_weighted_update(ops, values, plus, times, zero, one, grads, rest, x as int, l.0, ca);
                lemma_weighted_update(ops, values, plus, times, zero, one, g1, rest, x as int, r.0, cb);
                let da = derivative(ops, values, plus, times, zero, one, a, x as int);
                let db = derivative(ops, values, plus, times, zero, one, b, x as int);
                let ta = apply(times, da, vb);
                let tb = apply(times, va, db);
                assert(dux == apply(plus, ta, tb));
                sr_distrib(plus, times, zero, one, g, ta, tb);
                // (g * vb) * da == g * (da * vb)
                sr_times_assoc(plus, times, zero, one, g, vb, da);
                sr_times_comm(plus, times, zero, one, vb, da);
                // (g * va) * db == g * (va * db)
                sr_times_assoc(plus, times, zero, one, g, va, db);
                sr_plus_assoc(plus, times, zero, one, w, apply(times, ca, da), apply(times, cb, db));
            },
        }
    }
}

/// The chain rule. Over a commutative semiring, back-propagation from `root` on a graph
/// whose gradients are all zero leaves on every node the derivative of `root` with
/// respect to that node.
pub proof fn lemma_backward_computes_derivatives<T, P: Fn(T, T) -> T, M: Fn(T, T) -> T>(
    ops: Seq<Op>,
    values: Seq<T>,
    plus: P,
    times: M,
    zero: T,
    one: T,
    grads: Seq<T>,
    root: usize,
)
    requires
        is_semiring(plus, times, zero, one),
        ops_wf(ops),
        root < ops.len(),
        grads.len() == ops.len(),
        forall|i: int| 0 <= i < grads.len() ==> grads[i] == zero,
    ensures
        forall|x: usize|
            x < ops.len() ==> #[trigger] sweep(
                ops,
                values,
                grads.update(root as int, one),
                topo_order(ops, root),
                plus,
                times,
            )[x as int] == derivative(ops, values, plus, times, zero, one, root as int, x as int),
{
    broadcast use vstd::seq_lib::group_seq_properties;

    lemma_topo_order(ops, root);
    lemma_backward_frame(ops, values, grads, root, one, plus, times);
    let order = topo_order(ops, root);
    let seeded = grads.update(root as int, one);
    sr_plus_zero(plus, times, zero, one, one);
    assert(seeded == grads.update(root as int, apply(plus, grads[root as int], one)));
    assert forall|x: usize| x < ops.len() implies #[trigger] sweep(
        ops,
        values,
        seeded,
        order,
        plus,
        times,
    )[x as int] == derivative(ops, values, plus, times, zero, one, root as int, x as int) by {
        if reaches(ops, root as int, x as int) {
            assert(order.contains(Value(x)));
            lemma_sweep_linear(ops, values, plus, times, zero, one, seeded, order, x);
            lemma_weighted_update(
                ops,
                values,
                plus,
                times,
                zero,
                one,
                grads,
                order,
                x as int,
                root,
                one,
            );
            assert(order.contains(Value(root)));
            lemma_weighted_zero(ops, values, plus, times, zero, one, grads, order, x as int);
            let d = derivative(ops, values, plus, times, zero, one, root as int, x as int);
            sr_times_one(plus, times, zero, one, d);
            sr_plus_zero(plus, times, zero, one, d);
        } else {
            lemma_derivative_unreached(ops, values, plus, times, zero, one, root as int, x as int);
        }
    }
}


/// The chain rule on a graph: over a commutative semiring whose neutral elements are the
/// graph's zero and one, `Value::backward` from `root` on a graph whose gradients are all
/// zero leaves on every node the derivative of `root` with respect to that node. The
/// gradients named here are those that `Value::backward` promises.
pub proof fn lemma_graph_backward_computes_derivatives<T: Copy, P: Fn(T, T) -> T, M: Fn(T, T) -> T>(
    graph: &ValueGraph<T>,
    root: Value,
    plus: P,
    times: M,
)
    requires
        graph.wf(),
        graph.holds(root),
        is_semiring(plus, times, graph.zero(), graph.one()),
        forall|i: int| 0 <= i < graph.grads().len() ==> graph.grads()[i] == graph.zero(),
    ensures
        forall|x: usize|
            x < graph.ops().len() ==> #[trigger] sweep(
                graph.ops(),
                graph.values(),
                graph.grads().update(root.0 as int, graph.one()),
                topo_order(graph.ops(), root.0),
                plus,
                times,
            )[x as int] == derivative(
                graph.ops(),
                graph.values(),
                plus,
                times,
                graph.zero(),
                graph.one(),
                root.0 as int,
                x as int,
            ),
{
    graph.lemma_wf();
    lemma_backward_computes_derivatives(
        graph.ops(),
        graph.values(),
        plus,
        times,
        graph.zero(),
        graph.one(),
        graph.grads(),
        root.0,
    );
}

} // verus!
