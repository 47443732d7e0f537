//! The shape of a computation graph: which node was computed from which, and the
//! depth-first topological order in which gradients flow back through it.
use vstd::prelude::*;

verus! {

/// A handle to a node of a graph: its position in creation order.
#[derive(Clone, Copy, Debug, PartialEq, Eq, Structural)]
pub struct Value(pub usize);

/// How a node was computed.
#[derive(Clone, Copy, Debug, PartialEq, Eq, Structural)]
pub enum Op {
    /// A node made directly from data.
    Leaf,
    /// The sum of two nodes, the left operand first.
    Add(Value, Value),
    /// The product of two nodes, the left operand first.
    Mul(Value, Value),
}

/// The two operands of a node, for a node computed from two others.
pub open spec fn operands(op: Op) -> Option<(usize, usize)> {
    match op {
        Op::Leaf => None,
        Op::Add(l, r) => Some((l.0, r.0)),
        Op::Mul(l, r) => Some((l.0, r.0)),
    }
}

/// Every node is computed from nodes that were made before it.
pub open spec fn ops_wf(ops: Seq<Op>) -> bool {
    forall|i: int| 0 <= i < ops.len() ==> #[trigger] operands_below(ops[i], i)
}

/// The operands of a node at position `i`, where it has them, come before it.
pub open spec fn operands_below(op: Op, i: int) -> bool {
    match operands(op) {
        Some((l, r)) => l < i && r < i,
        None => true,
    }
}

/// `x` is an operand of the node `n`.
pub open spec fn is_operand(ops: Seq<Op>, n: int, x: int) -> bool {
    match operands(ops[n]) {
        Some((l, r)) => x == l || x == r,
        None => false,
    }
}

/// `to` is `from` or one of the nodes that `from` was computed from, at any depth.
pub open spec fn reaches(ops: Seq<Op>, from: int, to: int) -> bool
    decreases from,
{
    if from == to {
        true
    } else if 0 <= from < ops.len() {
        match operands(ops[from]) {
            Some((l, r)) => (0 <= l < from && reaches(ops, l as int, to)) || (0 <= r < from
                && reaches(ops, r as int, to)),
            None => false,
        }
    } else {
        false
    }
}

/// The visit of node `n` by depth-first search: the nodes visited so far and the
/// topological order built so far, after the visit. A node is marked visited on entry,
/// its operands are visited left to right, and it is appended to the order on exit.
pub open spec fn visit(ops: Seq<Op>, n: usize, visited: Seq<Value>, topo: Seq<Value>) -> (Seq<
    Value,
>, Seq<Value>)
    decreases n,
{
    if visited.contains(Value(n)) {
        (visited, topo)
    } else {
        let v1 = visited.push(Value(n));
        match operands(ops[n as int]) {
            Some((l, r)) => if l < n && r < n {
                let (v2, t2) = visit(ops, l, v1, topo);
                let (v3, t3) = visit(ops, r, v2, t2);
                (v3, t3.push(Value(n)))
            } else {
                (v1, topo.push(Value(n)))
            },
            None => (v1, topo.push(Value(n))),
        }
    }
}

/// The topological order of the nodes reachable from `root`: a depth-first search from
/// `root` with nothing visited before.
pub open spec fn topo_order(ops: Seq<Op>, root: usize) -> Seq<Value> {
    visit(ops, root, Seq::empty(), Seq::empty()).1
}

/// Both operands of the node `x`, where it has them, occur in `prefix`.
pub open spec fn operands_in(ops: Seq<Op>, x: Value, prefix: Seq<Value>) -> bool {
    match operands(ops[x.0 as int]) {
        Some((l, r)) => prefix.contains(Value(l)) && prefix.contains(Value(r)),
        None => true,
    }
}

/// Every node of `order` comes after the nodes it was computed from.
pub open spec fn operands_first(ops: Seq<Op>, order: Seq<Value>) -> bool {
    forall|i: int| 0 <= i < order.len() ==> #[trigger] operands_in(ops, order[i], order.take(i))
}

/// Every node of `s` was made before position `n`.
pub open spec fn all_below(s: Seq<Value>, n: int) -> bool {
    forall|i: int| 0 <= i < s.len() ==> #[trigger] s[i].0 < n
}

/// What holds of the search state before and after each visit.
pub open spec fn search_state(ops: Seq<Op>, visited: Seq<Value>, topo: Seq<Value>) -> bool {
    &&& all_below(visited, ops.len() as int)
    &&& all_below(topo, ops.len() as int)
    &&& forall|x: Value| #[trigger] topo.contains(x) ==> visited.contains(x)
    &&& operands_first(ops, topo)
    &&& topo.no_duplicates()
}

/// A node only reaches nodes made no later than itself.
pub proof fn lemma_reaches_below(ops: Seq<Op>, from: int, to: int)
    requires
        ops_wf(ops),
        reaches(ops, from, to),
    ensures
        to <= from,
    decreases from,
{
    if from != to {
        assert(operands_below(ops[from], from));
        let (l, r) = operands(ops[from]).unwrap();
        if 0 <= l < from && reaches(ops, l as int, to) {
            lemma_reaches_below(ops, l as int, to);
        } else {
            lemma_reaches_below(ops, r as int, to);
        }
    }
}

/// Reachability is transitive.
pub proof fn lemma_reaches_trans(ops: Seq<Op>, a: int, b: int, c: int)
    requires
        reaches(ops, a, b),
        reaches(ops, b, c),
    ensures
        reaches(ops, a, c),
    decreases a,
{
    if a != b {
        let (l, r) = operands(ops[a]).unwrap();
        if 0 <= l < a && reaches(ops, l as int, b) {
            lemma_reaches_trans(ops, l as int, b, c);
        } else {
            lemma_reaches_trans(ops, r as int, b, c);
        }
    }
}

/// An order in which operands come first holds everything reachable from its nodes.
pub(crate) proof fn lemma_order_closed(ops: Seq<Op>, topo: Seq<Value>, n: usize, x: usize)
    requires
        ops_wf(ops),
        operands_first(ops, topo),
        topo.contains(Value(n)),
        reaches(ops, n as int, x as int),
    ensures
        topo.contains(Value(x)),
    decreases n,
{
    if n != x {
        let i = topo.index_of(Value(n));
        assert(topo[i] == Value(n));
        assert(operands_in(ops, topo[i], topo.take(i)));
        let (l, r) = operands(ops[n as int]).unwrap();
        if 0 <= l < n && reaches(ops, l as int, x as int) {
            assert(topo.take(i).contains(Value(l)));
            let j = topo.take(i).index_of(Value(l));
            assert(topo[j] == Value(l));
            lemma_order_closed(ops, topo, l, x);
        } else {
            assert(topo.take(i).contains(Value(r)));
            let j = topo.take(i).index_of(Value(r));
            assert(topo[j] == Value(r));
            lemma_order_closed(ops, topo, r, x);
        }
    }
}

/// Appending a node whose operands are already in an order keeps operands first.
proof fn lemma_push_operands_first(ops: Seq<Op>, topo: Seq<Value>, n: Value)
    requires
        operands_first(ops, topo),
        operands_in(ops, n, topo),
    ensures
        operands_first(ops, topo.push(n)),
{
    let t = topo.push(n);
    assert forall|i: int| 0 <= i < t.len() implies #[trigger] operands_in(ops, t[i], t.take(i)) by {
        if i < topo.len() {
            assert(t.take(i) =~= topo.take(i));
            assert(operands_in(ops, topo[i], topo.take(i)));
        } else {
            assert(t.take(i) =~= topo);
        }
    }
}

proof fn lemma_push_no_duplicates(s: Seq<Value>, x: Value)
    requires
        s.no_duplicates(),
        !s.contains(x),
    ensures
        s.push(x).no_duplicates(),
{
    assert forall|i: int, j: int|
        0 <= i < s.push(x).len() && 0 <= j < s.push(x).len() && i != j implies s.push(x)[i]
        != s.push(x)[j] by {
        if i < s.len() && j < s.len() {
        } else if i < s.len() {
            assert(s.contains(s[i]));
        } else {
            assert(s.contains(s[j]));
        }
    }
}

/// The depth-first visit of `n` adds to the order exactly the nodes reachable from `n`
/// that were not in it yet, each once and after its operands, and ends with `n` when
/// `n` had not been visited.
pub proof fn lemma_visit(ops: Seq<Op>, n: usize, visited: Seq<Value>, topo: Seq<Value>)
    requires
        ops_wf(ops),
        n < ops.len(),
        search_state(ops, visited, topo),
        forall|x: Value| #[trigger] visited.contains(x) && !topo.contains(x) ==> x.0 > n,
    ensures
        ({
            let (v2, t2) = visit(ops, n, visited, topo);
            &&& search_state(ops, v2, t2)
            &&& visited.is_prefix_of(v2)
            &&& topo.is_prefix_of(t2)
            &&& forall|x: Value| #[trigger]
                t2.contains(x) <==> (topo.contains(x) || reaches(ops, n as int, x.0 as int))
            &&& forall|x: Value| #[trigger]
                v2.contains(x) <==> (visited.contains(x) || reaches(ops, n as int, x.0 as int))
            &&& !visited.contains(Value(n)) ==> t2.len() > 0 && t2.last() == Value(n)
        }),
    decreases n,
{
    broadcast use vstd::seq_lib::group_seq_properties;

    let (v2, t2) = visit(ops, n, visited, topo);
    if visited.contains(Value(n)) {
        assert(topo.contains(Value(n)));
        assert forall|x: Value| reaches(ops, n as int, x.0 as int) implies #[trigger] topo.contains(
            x,
        ) by {
            lemma_order_closed(ops, topo, n, x.0);
        }
        assert forall|x: Value| #[trigger]
            v2.contains(x) <==> (visited.contains(x) || reaches(ops, n as int, x.0 as int)) by {
            if reaches(ops, n as int, x.0 as int) {
                assert(topo.contains(x));
            }
        }
        assert(visited.is_prefix_of(v2));
        assert(topo.is_prefix_of(t2));
    } else {
        let v1 = visited.push(Value(n));
        assert(operands_below(ops[n as int], n as int));
        match operands(ops[n as int]) {
            Some((l, r)) => {
                assert(search_state(ops, v1, topo));
                lemma_visit(ops, l, v1, topo);
                let (va, ta) = visit(ops, l, v1, topo);
                assert forall|x: Value| #[trigger] va.contains(x) && !ta.contains(x) implies x.0
                    > r by {
                    if reaches(ops, l as int, x.0 as int) {
                    } else {
                        assert(v1.contains(x));
                    }
                }
                lemma_visit(ops, r, va, ta);
                let (vb, tb) = visit(ops, r, va, ta);
                assert(tb.contains(Value(l))) by {
                    assert(reaches(ops, l as int, l as int));
                }
                assert(tb.contains(Value(r))) by {
                    assert(reaches(ops, r as int, r as int));
                }
                assert(operands_in(ops, Value(n), tb));
                lemma_push_operands_first(ops, tb, Value(n));
                assert(!tb.contains(Value(n))) by {
                    assert(!topo.contains(Value(n)));
                    if reaches(ops, l as int, n as int) {
                        lemma_reaches_below(ops, l as int, n as int);
                    }
                    if reaches(ops, r as int, n as int) {
                        lemma_reaches_below(ops, r as int, n as int);
                    }
                }
                lemma_push_no_duplicates(tb, Value(n));
                assert forall|x: Value| #[trigger]
                    t2.contains(x) <==> (topo.contains(x) || reaches(
                        ops,
                        n as int,
                        x.0 as int,
                    )) by {}
                assert forall|x: Value| #[trigger]
                    v2.contains(x) <==> (visited.contains(x) || reaches(
                        ops,
                        n as int,
                        x.0 as int,
                    )) by {
                    if reaches(ops, n as int, x.0 as int) && x != Value(n) {
                        assert(va.contains(x) || vb.contains(x));
                    }
                }
                assert(visited.is_prefix_of(v2)) by {
                    assert(v1.take(visited.len() as int) =~= visited);
                }
                assert(topo.is_prefix_of(t2));
                assert(t2.no_duplicates());
                assert(all_below(t2, ops.len() as int));
                assert(all_below(v2, ops.len() as int));
                assert(search_state(ops, v2, t2));
            },
            None => {
                assert(!topo.contains(Value(n)));
                lemma_push_no_duplicates(topo, Value(n));
                assert forall|x: Value| reaches(ops, n as int, x.0 as int) implies x == Value(n) by {}
                assert forall|x: Value| #[trigger]
                    v2.contains(x) <==> (visited.contains(x) || reaches(
                        ops,
                        n as int,
                        x.0 as int,
                    )) by {
                    if x.0 == n {
                        assert(reaches(ops, n as int, x.0 as int));
                    }
                }
                lemma_push_operands_first(ops, topo, Value(n));
                assert(visited.is_prefix_of(v2));
                assert(topo.is_prefix_of(t2));
                assert(t2.no_duplicates());
                assert(search_state(ops, v2, t2));
            },
        }
    }
}

/// The topological order of the nodes reachable from `root` holds each of them exactly
/// once, holds nothing else, puts every node after its operands, and ends with `root`.
pub proof fn lemma_topo_order(ops: Seq<Op>, root: usize)
    requires
        ops_wf(ops),
        root < ops.len(),
    ensures
        forall|x: Value| #[trigger]
            topo_order(ops, root).contains(x) <==> reaches(ops, root as int, x.0 as int),
        topo_order(ops, root).no_duplicates(),
        operands_first(ops, topo_order(ops, root)),
        all_below(topo_order(ops, root), ops.len() as int),
        topo_order(ops, root).len() > 0,
        topo_order(ops, root).last() == Value(root),
{
    broadcast use vstd::seq_lib::group_seq_properties;

    let e = Seq::<Value>::empty();
    assert(search_state(ops, e, e));
    lemma_visit(ops, root, e, e);
}

/// In the topological order from `root`, every operand of a node comes before the node;
/// so a backward pass, which runs the order from the end, runs the rule of a node only
/// after the rules of all nodes that were computed from it.
pub proof fn lemma_operand_before_user(ops: Seq<Op>, root: usize, i: int, j: int)
    requires
        ops_wf(ops),
        root < ops.len(),
        0 <= i < topo_order(ops, root).len(),
        0 <= j < topo_order(ops, root).len(),
        is_operand(ops, topo_order(ops, root)[j].0 as int, topo_order(ops, root)[i].0 as int),
    ensures
        i < j,
{
    lemma_topo_order(ops, root);
    let t = topo_order(ops, root);
    assert(operands_in(ops, t[j], t.take(j)));
    let x = t[i];
    assert(t.take(j).contains(x));
    let k = t.take(j).index_of(x);
    assert(t[k] == x);
}

/// The nodes that a node computed by `op` is made from, in operand order.
pub open spec fn op_children(op: Op) -> Seq<Value> {
    match op {
        Op::Leaf => Seq::empty(),
        Op::Add(l, r) => seq![l, r],
        Op::Mul(l, r) => seq![l, r],
    }
}

} // verus!
