use lib::graph::{Op, Value};
use lib::kernel::{broadcast_rows, contract, dot_product, filled, reduce_columns, zip_with};
use lib::shape::{
    add_layout, check_shape, element_count, matmul_dims, mul_layout, same_shape, AddLayout,
    MatmulDims, ShapeError,
};
use lib::value::ValueGraph;

fn plus(a: i64, b: i64) -> i64 {
    a + b
}

fn times(a: i64, b: i64) -> i64 {
    a * b
}

fn fplus(a: f64, b: f64) -> f64 {
    a + b
}

fn ftimes(a: f64, b: f64) -> f64 {
    a * b
}

#[test]
fn element_count_is_product_of_dimensions() {
    assert_eq!(element_count(&vec![2, 3]), Some(6));
    assert_eq!(element_count(&vec![2, 3, 4]), Some(24));
    assert_eq!(element_count(&vec![]), Some(1));
    assert_eq!(element_count(&vec![5, 0, 7]), Some(0));
}

#[test]
fn element_count_refuses_overflow_but_not_zero_sized() {
    assert_eq!(element_count(&vec![usize::MAX, 2]), None);
    assert_eq!(element_count(&vec![usize::MAX, 2, 0]), Some(0));
    assert_eq!(element_count(&vec![usize::MAX, 1]), Some(usize::MAX));
}

#[test]
fn check_shape_gives_each_outcome() {
    assert_eq!(check_shape(6, &vec![2, 3]), Ok(6));
    assert_eq!(
        check_shape(5, &vec![2, 3]),
        Err(ShapeError::LengthMismatch { len: 5, expected: 6 })
    );
    assert_eq!(check_shape(0, &vec![usize::MAX, 3]), Err(ShapeError::SizeOverflow));
}

#[test]
fn add_layout_rules() {
    assert_eq!(add_layout(&vec![2, 2], &vec![2, 2]), Ok(AddLayout::Same));
    assert_eq!(add_layout(&vec![2, 3], &vec![3]), Ok(AddLayout::RowBroadcast(3)));
    assert_eq!(add_layout(&vec![2, 3], &vec![2]), Err(ShapeError::AddMismatch));
    assert_eq!(add_layout(&vec![3], &vec![2, 3]), Err(ShapeError::AddMismatch));
    assert_eq!(add_layout(&vec![2], &vec![1, 2]), Err(ShapeError::AddMismatch));
}

#[test]
fn mul_layout_needs_equal_shapes() {
    assert_eq!(mul_layout(&vec![3], &vec![3]), Ok(()));
    assert_eq!(mul_layout(&vec![2, 3], &vec![3]), Err(ShapeError::MulMismatch));
    assert!(same_shape(&vec![1, 2], &vec![1, 2]));
    assert!(!same_shape(&vec![1, 2], &vec![2, 1]));
}

#[test]
fn matmul_dims_rules_checked_left_first() {
    assert_eq!(
        matmul_dims(&vec![2, 3], &vec![3, 4]),
        Ok(MatmulDims { rows: 2, inner: 3, cols: 4 })
    );
    assert_eq!(matmul_dims(&vec![3], &vec![3]), Err(ShapeError::LeftNotMatrix));
    assert_eq!(matmul_dims(&vec![2, 3], &vec![3]), Err(ShapeError::RightNotMatrix));
    assert_eq!(matmul_dims(&vec![2, 3], &vec![2, 3]), Err(ShapeError::InnerMismatch));
}

#[test]
fn error_messages() {
    assert_eq!(ShapeError::AddMismatch.message(), "add: shape mismatch");
    assert_eq!(ShapeError::MulMismatch.message(), "mul: shape mismatch");
    assert_eq!(ShapeError::LeftNotMatrix.message(), "matmul: left tensor must be 2-D");
    assert_eq!(ShapeError::RightNotMatrix.message(), "matmul: right tensor must be 2-D");
    assert_eq!(ShapeError::InnerMismatch.message(), "matmul: inner dimensions must match");
    assert_eq!(
        ShapeError::LengthMismatch { len: 1, expected: 2 }.message(),
        "data length doesn't match shape"
    );
    assert_eq!(
        ShapeError::SizeOverflow.message(),
        "shape holds more elements than usize counts"
    );
}

#[test]
fn kernels_on_integers() {
    assert_eq!(filled(7i64, 3), vec![7, 7, 7]);
    assert_eq!(zip_with(&vec![1i64, 2, 3], &vec![10, 20, 30], &plus), vec![11, 22, 33]);
    assert_eq!(
        broadcast_rows(&vec![1i64, 2, 3, 4, 5, 6], &vec![10, 20, 30], 3, &plus),
        vec![11, 22, 33, 14, 25, 36]
    );
    assert_eq!(reduce_columns(&vec![1i64, 2, 3, 4, 5, 6], 3, 0, &plus), vec![5, 7, 9]);
    assert_eq!(reduce_columns(&vec![1i64, 2, 3, 4, 5, 6], 2, 0, &plus), vec![9, 12]);
    // 1*4 + 2*5 + 3*6
    assert_eq!(dot_product(&vec![1i64, 2, 3], 0, 1, &vec![4, 5, 6], 0, 1, 3, 0, &plus, &times), 32);
    // column 1 of [[1, 2], [3, 4]] with itself: 2*2 + 4*4
    assert_eq!(dot_product(&vec![1i64, 2, 3, 4], 1, 2, &vec![1, 2, 3, 4], 1, 2, 2, 0, &plus, &times), 20);
}

#[test]
fn contraction_computes_products_and_transposes() {
    let a = vec![1i64, 2, 3, 4, 5, 6]; // 2 x 3
    let b = vec![7i64, 8, 9, 10, 11, 12]; // 3 x 2
    // a x b
    assert_eq!(contract(&a, &b, 2, 2, 3, 3, 1, 1, 2, 0, &plus, &times), vec![58, 64, 139, 154]);
    // a x a^T (2 x 2): rows of a dotted with rows of a
    assert_eq!(contract(&a, &a, 2, 2, 3, 3, 1, 3, 1, 0, &plus, &times), vec![14, 32, 32, 77]);
    // empty inner dimension gives zeros
    assert_eq!(contract(&Vec::<i64>::new(), &Vec::new(), 2, 2, 0, 0, 1, 1, 2, 0, &plus, &times), vec![0, 0, 0, 0]);
}

fn diamond() -> (ValueGraph<f64>, Value, Value, Value, Value) {
    // a -> b = a * a, c = a + a, d = b + c
    let mut g = ValueGraph::new(0.0, 1.0);
    let a = Value::new(&mut g, 3.0);
    let b = a.mul(&a, &mut g, &ftimes);
    let c = a.add(&a, &mut g, &fplus);
    let d = b.add(&c, &mut g, &fplus);
    (g, a, b, c, d)
}

#[test]
fn topological_order_puts_operands_first_and_root_last() {
    let (g, a, b, c, d) = diamond();
    let mut visited = Vec::new();
    let mut topo = Vec::new();
    d.build_topo(&g, &mut visited, &mut topo);
    assert_eq!(topo, vec![a, b, c, d]);
    assert_eq!(visited, vec![d, b, a, c]);
    // a second search from a node already visited adds nothing
    b.build_topo(&g, &mut visited, &mut topo);
    assert_eq!(topo, vec![a, b, c, d]);
}

#[test]
fn topological_order_holds_only_reachable_nodes() {
    let (mut g, a, b, _c, _d) = diamond();
    let unrelated = Value::new(&mut g, 10.0);
    let mut visited = Vec::new();
    let mut topo = Vec::new();
    b.build_topo(&g, &mut visited, &mut topo);
    assert_eq!(topo, vec![a, b]);
    assert!(!topo.contains(&unrelated));
}

#[test]
fn backward_seeds_root_and_leaves_other_nodes_alone() {
    let (mut g, a, b, c, d) = diamond();
    let e = Value::new(&mut g, 10.0);
    g.set_grad(e, 42.0);
    b.backward(&mut g, &fplus, &ftimes);
    assert_eq!(g.grad(b), 1.0);
    // d(a*a)/da = 2a
    assert_eq!(g.grad(a), 6.0);
    assert_eq!(g.grad(c), 0.0);
    assert_eq!(g.grad(d), 0.0);
    assert_eq!(g.grad(e), 42.0);
}

#[test]
fn backward_through_diamond() {
    let (mut g, a, b, c, d) = diamond();
    d.backward(&mut g, &fplus, &ftimes);
    // d = a*a + (a + a): dd/da = 2a + 2
    assert_eq!(g.data(d), 15.0);
    assert_eq!(g.grad(a), 8.0);
    assert_eq!(g.grad(b), 1.0);
    assert_eq!(g.grad(c), 1.0);
}

#[test]
fn gradients_accumulate_across_backward_passes() {
    let mut g = ValueGraph::new(0.0, 1.0);
    let a = Value::new(&mut g, 2.0);
    let b = Value::new(&mut g, 5.0);
    let c = a.mul(&b, &mut g, &ftimes);
    c.backward(&mut g, &fplus, &ftimes);
    c.backward(&mut g, &fplus, &ftimes);
    assert_eq!(g.grad(a), 10.0);
    assert_eq!(g.grad(b), 4.0);
    assert_eq!(g.grad(c), 1.0);
}

#[test]
fn node_snapshot_records_children() {
    let (g, a, b, c, d) = diamond();
    let n = g.node(d);
    assert_eq!(n.children, vec![b, c]);
    assert_eq!(n.data, 15.0);
    assert!(g.node(a).children.is_empty());
    assert_eq!(g.len(), 4);
}

#[test]
fn leaf_rule_changes_nothing() {
    let mut g = ValueGraph::new(0.0, 1.0);
    let a = Value::new(&mut g, 2.0);
    g.set_grad(a, 3.0);
    a.propagate(&mut g, &fplus, &ftimes);
    assert_eq!(g.grad(a), 3.0);
    let _ = Op::Leaf;
}

#[test]
fn engine_runs_on_exact_integers() {
    let mut g = ValueGraph::new(0i64, 1i64);
    let x = Value::new(&mut g, 4);
    let y = Value::new(&mut g, 7);
    let xy = x.mul(&y, &mut g, &times);
    let out = xy.add(&x, &mut g, &plus);
    out.backward(&mut g, &plus, &times);
    assert_eq!(g.data(out), 32);
    assert_eq!(g.grad(x), 8);
    assert_eq!(g.grad(y), 4);
}

#[test]
fn second_backward_pass_accumulates_except_at_root() {
    let mut g = ValueGraph::new(0.0, 1.0);
    let a = Value::new(&mut g, 2.0);
    let b = Value::new(&mut g, 3.0);
    let c = Value::new(&mut g, 4.0);
    let d = a.add(&b, &mut g, &fplus);
    let e = d.add(&c, &mut g, &fplus);
    e.backward(&mut g, &fplus, &ftimes);
    e.backward(&mut g, &fplus, &ftimes);
    assert_eq!(g.grad(e), 1.0);
    assert_eq!(g.grad(d), 2.0);
    assert_eq!(g.grad(c), 2.0);
    assert_eq!(g.grad(a), 3.0);
    assert_eq!(g.grad(b), 3.0);
}

#[test]
fn sums_in_either_order_agree() {
    let mut g = ValueGraph::new(0.0, 1.0);
    let a = Value::new(&mut g, 2.5);
    let b = Value::new(&mut g, -1.25);
    let r1 = a.add(&b, &mut g, &fplus);
    let r2 = b.add(&a, &mut g, &fplus);
    assert_eq!(g.data(r1), g.data(r2));
    assert!(!r1.same_node(&r2));
    assert_eq!(g.node(r1).children, vec![a, b]);
    assert_eq!(g.node(r2).children, vec![b, a]);
}
