use lib::graph::Value;
use lib::value::ValueGraph;

fn plus(a: f64, b: f64) -> f64 {
    a + b
}

fn times(a: f64, b: f64) -> f64 {
    a * b
}

fn expr(a: f64, b: f64, c: f64) -> f64 {
    let mut g = ValueGraph::new(0.0, 1.0);
    let av = Value::new(&mut g, a);
    let bv = Value::new(&mut g, b);
    let cv = Value::new(&mut g, c);
    let ab = av.mul(&bv, &mut g, &times);
    let out = ab.add(&cv, &mut g, &plus);
    g.data(out)
}

#[test]
fn constructs_a_value() {
    let mut g = ValueGraph::new(0.0, 1.0);
    let v = Value::new(&mut g, 3.0);
    assert_eq!(g.data(v), 3.0);
    assert_eq!(g.grad(v), 0.0);
}

#[test]
fn value_can_feed_two_ops() {
    let mut g = ValueGraph::new(0.0, 1.0);
    let a = Value::new(&mut g, 2.0);
    let b = Value::new(&mut g, 3.0);
    let c = a.add(&b, &mut g, &plus);
    let d = a.add(&b, &mut g, &plus);
    assert_eq!(g.data(c), 5.0);
    assert_eq!(g.data(d), 5.0);
}

#[test]
fn single_add_backward() {
    let mut g = ValueGraph::new(0.0, 1.0);
    let a = Value::new(&mut g, 2.0);
    let b = Value::new(&mut g, 3.0);
    let c = a.add(&b, &mut g, &plus);

    g.set_grad(c, 1.0);
    c.propagate(&mut g, &plus, &times);

    assert_eq!(g.grad(a), 1.0);
    assert_eq!(g.grad(b), 1.0);
}

#[test]
fn same_node_is_identity_not_value() {
    let mut g = ValueGraph::new(0.0, 1.0);
    let a = Value::new(&mut g, 2.0);
    let a_clone = a;
    let b = Value::new(&mut g, 2.0);

    assert!(a.same_node(&a_clone));
    assert!(!a.same_node(&b));
}

#[test]
fn composed_backward() {
    let mut g = ValueGraph::new(0.0, 1.0);
    let a = Value::new(&mut g, 2.0);
    let b = Value::new(&mut g, 3.0);
    let c = Value::new(&mut g, 4.0);

    let d = a.add(&b, &mut g, &plus);
    let e = d.add(&c, &mut g, &plus);

    e.backward(&mut g, &plus, &times);

    assert_eq!(g.data(e), 9.0);
    assert_eq!(g.grad(a), 1.0);
    assert_eq!(g.grad(b), 1.0);
    assert_eq!(g.grad(c), 1.0);
    assert_eq!(g.grad(d), 1.0);
}

#[test]
fn single_mul_backward() {
    let mut g = ValueGraph::new(0.0, 1.0);
    let a = Value::new(&mut g, 2.0);
    let b = Value::new(&mut g, 3.0);
    let c = a.mul(&b, &mut g, &times);

    c.backward(&mut g, &plus, &times);

    assert_eq!(g.data(c), 6.0);
    assert_eq!(g.grad(a), 3.0);
    assert_eq!(g.grad(b), 2.0);
}

#[test]
fn gradient_accumulates_when_value_resused() {
    let mut g = ValueGraph::new(0.0, 1.0);
    let a = Value::new(&mut g, 3.0);
    let y = a.mul(&a, &mut g, &times);

    y.backward(&mut g, &plus, &times);

    assert_eq!(g.data(y), 9.0);
    assert_eq!(g.grad(a), 6.0);
}

#[test]
fn gradient_check_matches_finite_differences() {
    let (a, b, c) = (2.0, -3.0, 5.0);

    let mut g = ValueGraph::new(0.0, 1.0);
    let av = Value::new(&mut g, a);
    let bv = Value::new(&mut g, b);
    let cv = Value::new(&mut g, c);
    let ab = av.mul(&bv, &mut g, &times);
    let out = ab.add(&cv, &mut g, &plus);
    out.backward(&mut g, &plus, &times);

    let grad_a = g.grad(av);
    let grad_b = g.grad(bv);
    let grad_c = g.grad(cv);

    let h = 1e-5;
    let num_a = (expr(a + h, b, c) - expr(a - h, b, c)) / (2.0 * h);
    let num_b = (expr(a, b + h, c) - expr(a, b - h, c)) / (2.0 * h);
    let num_c = (expr(a, b, c + h) - expr(a, b, c - h)) / (2.0 * h);

    assert!((grad_a - num_a).abs() < 1e-6);
    assert!((grad_b - num_b).abs() < 1e-6);
    assert!((grad_c - num_c).abs() < 1e-6);
}
