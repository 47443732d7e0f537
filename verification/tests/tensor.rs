use lib::shape::{add_layout, check_shape, matmul_dims, mul_layout};
use lib::tensor::{Tensor, TensorData, TensorGraph};

fn plus(a: f64, b: f64) -> f64 {
    a + b
}

fn times(a: f64, b: f64) -> f64 {
    a * b
}

#[test]
fn constructs_with_matching_shape() {
    let t = TensorData::new(vec![1.0, 2.0, 3.0, 4.0, 5.0, 6.0], vec![2, 3], 0.0);
    assert_eq!(t.data.len(), 6);
    assert_eq!(t.shape, vec![2, 3]);
    assert_eq!(t.grad, vec![0.0; 6]);
}

#[test]
#[should_panic(expected = "data length")]
fn rejects_mismatched_shape() {
    // Using 5 numbers but the shape requires 6.
    let data = vec![1.0, 2.0, 3.0, 4.0, 5.0];
    let shape = vec![2, 3];
    if let Err(e) = check_shape(data.len(), &shape) {
        panic!("{}", e.message());
    }
    TensorData::new(data, shape, 0.0);
}

#[test]
#[should_panic(expected = "add: shape mismatch")]
fn add_rejects_mismatched_shapes() {
    let mut g = TensorGraph::new(0.0);
    let a = Tensor::new(&mut g, vec![1.0, 2.0], vec![2]);
    let b = Tensor::new(&mut g, vec![3.0, 4.0], vec![1, 2]);

    if let Err(e) = add_layout(&g.node(a).shape, &g.node(b).shape) {
        panic!("{}", e.message());
    }
    a.add(&b, &mut g, &plus);
}

#[test]
#[should_panic(expected = "mul: shape mismatch")]
fn mul_rejects_mismatched_shapes() {
    let mut g = TensorGraph::new(0.0);
    let a = Tensor::new(&mut g, vec![1.0, 2.0], vec![2]);
    let b = Tensor::new(&mut g, vec![3.0, 4.0], vec![1, 2]);

    if let Err(e) = mul_layout(&g.node(a).shape, &g.node(b).shape) {
        panic!("{}", e.message());
    }
    a.mul(&b, &mut g, &times);
}

#[test]
fn tensor_new_wraps_validated_data() {
    let mut g = TensorGraph::new(0.0);
    let t = Tensor::new(&mut g, vec![1.0, 2.0, 3.0, 4.0], vec![2, 2]);
    assert_eq!(g.node(t).data, vec![1.0, 2.0, 3.0, 4.0]);
    assert_eq!(g.node(t).shape, vec![2, 2]);
}

#[test]
fn add_forward_and_backward() {
    let mut g = TensorGraph::new(0.0);
    let a = Tensor::new(&mut g, vec![1.0, 2.0, 3.0, 4.0], vec![2, 2]);
    let b = Tensor::new(&mut g, vec![10.0, 20.0, 30.0, 40.0], vec![2, 2]);

    let c = a.add(&b, &mut g, &plus);

    // Forward elementwise sum
    assert_eq!(g.node(c).data, vec![11.0, 22.0, 33.0, 44.0]);
    assert_eq!(g.node(c).shape, vec![2, 2]);

    // Seed the output by hand
    g.set_grad(c, vec![1.0, 1.0, 1.0, 1.0]);
    c.propagate(&mut g, &plus, &times);

    // The gradient passes straight through
    assert_eq!(g.node(a).grad, vec![1.0, 1.0, 1.0, 1.0]);
    assert_eq!(g.node(b).grad, vec![1.0, 1.0, 1.0, 1.0]);
}

#[test]
fn mul_forward_and_backward() {
    let mut g = TensorGraph::new(0.0);
    let a = Tensor::new(&mut g, vec![2.0, 3.0, 4.0], vec![3]);
    let b = Tensor::new(&mut g, vec![5.0, 6.0, 7.0], vec![3]);

    let c = a.mul(&b, &mut g, &times);

    // Forward elementwise product
    assert_eq!(g.node(c).data, vec![10.0, 18.0, 28.0]);
    assert_eq!(g.node(c).shape, vec![3]);

    g.set_grad(c, vec![1.0, 1.0, 1.0]);
    c.propagate(&mut g, &plus, &times);

    // Product rule
    assert_eq!(g.node(a).grad, vec![5.0, 6.0, 7.0]);
    assert_eq!(g.node(b).grad, vec![2.0, 3.0, 4.0]);
}

#[test]
fn add_reused_tensor_accumulates() {
    let mut g = TensorGraph::new(0.0);
    let a = Tensor::new(&mut g, vec![3.0, 4.0], vec![2]);

    let y = a.add(&a, &mut g, &plus);

    g.set_grad(y, vec![1.0, 1.0]);
    y.propagate(&mut g, &plus, &times);

    assert_eq!(g.node(a).grad, vec![2.0, 2.0]);
}

#[test]
fn mul_reused_tensor_accumulates() {
    let mut g = TensorGraph::new(0.0);
    let a = Tensor::new(&mut g, vec![3.0, 4.0], vec![2]);

    let y = a.mul(&a, &mut g, &times);

    g.set_grad(y, vec![1.0, 1.0]);
    y.propagate(&mut g, &plus, &times);

    assert_eq!(g.node(a).grad, vec![6.0, 8.0]);
}

#[test]
fn add_records_input_tensors_as_children() {
    let mut g = TensorGraph::new(0.0);
    let a = Tensor::new(&mut g, vec![1.0, 2.0], vec![2]);
    let b = Tensor::new(&mut g, vec![3.0, 4.0], vec![2]);

    let output = a.add(&b, &mut g, &plus);

    let output_data = g.node(output);

    assert_eq!(output_data.children.len(), 2);
    assert_eq!(output_data.children[0], a);
    assert_eq!(output_data.children[1], b);
}

#[test]
fn mul_records_input_tensors_as_children() {
    let mut g = TensorGraph::new(0.0);
    let a = Tensor::new(&mut g, vec![1.0, 2.0], vec![2]);
    let b = Tensor::new(&mut g, vec![3.0, 4.0], vec![2]);

    let output = a.mul(&b, &mut g, &times);
    let output_data = g.node(output);

    assert_eq!(output_data.children.len(), 2);
    assert_eq!(output_data.children[0], a);
    assert_eq!(output_data.children[1], b);
}

#[test]
fn matmul_forward_2x3_by_3x2() {
    let mut g = TensorGraph::new(0.0);
    let a = Tensor::new(&mut g, vec![1.0, 2.0, 3.0, 4.0, 5.0, 6.0], vec![2, 3]);

    let b = Tensor::new(&mut g, vec![7.0, 8.0, 9.0, 10.0, 11.0, 12.0], vec![3, 2]);

    let c = a.matmul(&b, &mut g, &plus, &times);

    assert_eq!(g.node(c).data, vec![58.0, 64.0, 139.0, 154.0]);
    assert_eq!(g.node(c).shape, vec![2, 2]);
}

#[test]
#[should_panic(expected = "matmul: inner dimensions must match")]
fn matmul_rejects_mismatched_inner_dimensions() {
    let mut g = TensorGraph::new(0.0);
    let a = Tensor::new(&mut g, vec![1.0, 2.0, 3.0, 4.0, 5.0, 6.0], vec![2, 3]);

    let b = Tensor::new(&mut g, vec![7.0, 8.0, 9.0, 10.0], vec![2, 2]);

    if let Err(e) = matmul_dims(&g.node(a).shape, &g.node(b).shape) {
        panic!("{}", e.message());
    }
    a.matmul(&b, &mut g, &plus, &times);
}

#[test]
fn matmul_records_input_tensors_as_children() {
    let mut g = TensorGraph::new(0.0);
    let a = Tensor::new(&mut g, vec![1.0, 2.0, 3.0, 4.0, 5.0, 6.0], vec![2, 3]);

    let b = Tensor::new(&mut g, vec![7.0, 8.0, 9.0, 10.0, 11.0, 12.0], vec![3, 2]);

    let output = a.matmul(&b, &mut g, &plus, &times);
    let output_data = g.node(output);

    assert_eq!(output_data.children.len(), 2);
    assert_eq!(output_data.children[0], a);
    assert_eq!(output_data.children[1], b);
}

#[test]
#[should_panic(expected = "matmul: left tensor must be 2-D")]
fn matmul_rejects_non_matrix_left_operand() {
    let mut g = TensorGraph::new(0.0);
    let a = Tensor::new(&mut g, vec![1.0, 2.0, 3.0], vec![3]);
    let b = Tensor::new(&mut g, vec![4.0, 5.0, 6.0, 7.0, 8.0, 9.0], vec![3, 2]);

    if let Err(e) = matmul_dims(&g.node(a).shape, &g.node(b).shape) {
        panic!("{}", e.message());
    }
    a.matmul(&b, &mut g, &plus, &times);
}

#[test]
#[should_panic(expected = "matmul: right tensor must be 2-D")]
fn matmul_rejects_non_matrix_right_operand() {
    let mut g = TensorGraph::new(0.0);
    let a = Tensor::new(&mut g, vec![1.0, 2.0, 3.0, 4.0, 5.0, 6.0], vec![3, 2]);
    let b = Tensor::new(&mut g, vec![7.0, 8.0, 9.0], vec![3]);

    if let Err(e) = matmul_dims(&g.node(a).shape, &g.node(b).shape) {
        panic!("{}", e.message());
    }
    a.matmul(&b, &mut g, &plus, &times);
}

#[test]
fn matmul_backward_with_unit_output_gradient() {
    let mut g = TensorGraph::new(0.0);
    let a = Tensor::new(&mut g, vec![1.0, 2.0, 3.0, 4.0, 5.0, 6.0], vec![2, 3]);

    let b = Tensor::new(&mut g, vec![7.0, 8.0, 9.0, 10.0, 11.0, 12.0], vec![3, 2]);

    let c = a.matmul(&b, &mut g, &plus, &times);

    // Seed dC with ones, then run matmul's local backward rule.
    g.set_grad(c, vec![1.0, 1.0, 1.0, 1.0]);
    c.propagate(&mut g, &plus, &times);

    assert_eq!(g.node(a).grad, vec![15.0, 19.0, 23.0, 15.0, 19.0, 23.0],);
    assert_eq!(g.node(b).grad, vec![5.0, 5.0, 7.0, 7.0, 9.0, 9.0],);
}

#[test]
fn matmul_backward_with_non_uniform_output_gradient() {
    let mut g = TensorGraph::new(0.0);
    let a = Tensor::new(&mut g, vec![1.0, 2.0, 3.0, 4.0, 5.0, 6.0], vec![2, 3]);
    let b = Tensor::new(&mut g, vec![7.0, 8.0, 9.0, 10.0, 11.0, 12.0], vec![3, 2]);

    let c = a.matmul(&b, &mut g, &plus, &times);

    // dC = [[1, 2], [3, 4]]
    g.set_grad(c, vec![1.0, 2.0, 3.0, 4.0]);
    c.propagate(&mut g, &plus, &times);

    assert_eq!(g.node(a).grad, vec![23.0, 29.0, 35.0, 53.0, 67.0, 81.0]);
    assert_eq!(g.node(b).grad, vec![13.0, 18.0, 17.0, 24.0, 21.0, 30.0]);
}

#[test]
fn matmul_reused_tensor_accumulates_gradients() {
    let mut g = TensorGraph::new(0.0);
    let a = Tensor::new(&mut g, vec![1.0, 2.0, 3.0, 4.0], vec![2, 2]);

    let c = a.matmul(&a, &mut g, &plus, &times);

    g.set_grad(c, vec![1.0, 1.0, 1.0, 1.0]);
    c.propagate(&mut g, &plus, &times);

    assert_eq!(g.node(a).grad, vec![7.0, 11.0, 9.0, 13.0]);
}

#[test]
fn add_broadcast_right_row_vector_across_matrix_rows() {
    let mut g = TensorGraph::new(0.0);
    let matrix = Tensor::new(&mut g, vec![1.0, 2.0, 3.0, 4.0, 5.0, 6.0], vec![2, 3]);
    let row = Tensor::new(&mut g, vec![10.0, 20.0, 30.0], vec![3]);

    let output = matrix.add(&row, &mut g, &plus);
    let output_data = g.node(output);

    assert_eq!(output_data.data, vec![11.0, 22.0, 33.0, 14.0, 25.0, 36.0]);
    assert_eq!(output_data.shape, vec![2, 3]);
}

#[test]
fn add_broadcast_right_row_vector_reduces_gradient_across_rows() {
    let mut g = TensorGraph::new(0.0);
    let matrix = Tensor::new(&mut g, vec![1.0, 2.0, 3.0, 4.0, 5.0, 6.0], vec![2, 3]);
    let row = Tensor::new(&mut g, vec![10.0, 20.0, 30.0], vec![3]);

    let output = matrix.add(&row, &mut g, &plus);
    g.set_grad(output, vec![1.0, 2.0, 3.0, 4.0, 5.0, 6.0]);

    output.propagate(&mut g, &plus, &times);

    assert_eq!(g.node(row).grad, vec![5.0, 7.0, 9.0]);
}

#[test]
fn broadcast_row_gradient_sums_each_column_over_three_rows() {
    let mut g = TensorGraph::new(0.0);
    let matrix = Tensor::new(&mut g, vec![0.0; 6], vec![3, 2]);
    let row = Tensor::new(&mut g, vec![1.0, 2.0], vec![2]);
    let output = matrix.add(&row, &mut g, &plus);
    assert_eq!(g.node(output).data, vec![1.0, 2.0, 1.0, 2.0, 1.0, 2.0]);
    g.set_grad(output, vec![1.0, 10.0, 100.0, 1000.0, 10000.0, 100000.0]);
    output.propagate(&mut g, &plus, &times);
    assert_eq!(g.node(row).grad, vec![10101.0, 101010.0]);
    assert_eq!(g.node(matrix).grad, vec![1.0, 10.0, 100.0, 1000.0, 10000.0, 100000.0]);
}

#[test]
fn propagate_leaves_unrelated_tensors_alone() {
    let mut g = TensorGraph::new(0.0);
    let a = Tensor::new(&mut g, vec![1.0, 2.0], vec![2]);
    let b = Tensor::new(&mut g, vec![3.0, 4.0], vec![2]);
    let other = Tensor::new(&mut g, vec![5.0], vec![1]);
    g.set_grad(other, vec![9.0]);
    let c = a.mul(&b, &mut g, &times);
    g.set_grad(c, vec![1.0, 1.0]);
    c.propagate(&mut g, &plus, &times);
    assert_eq!(g.node(other).grad, vec![9.0]);
    assert_eq!(g.node(c).grad, vec![1.0, 1.0]);
}

#[test]
fn leaf_tensor_has_no_children_and_zero_gradient() {
    let mut g = TensorGraph::new(0.0);
    let a = Tensor::new(&mut g, vec![1.0, 2.0, 3.0], vec![3]);
    let n = g.node(a);
    assert!(n.children.is_empty());
    assert_eq!(n.grad, vec![0.0, 0.0, 0.0]);
    assert_eq!(g.len(), 1);
    a.propagate(&mut g, &plus, &times);
    assert_eq!(g.node(a).grad, vec![0.0, 0.0, 0.0]);
}

#[test]
fn matmul_of_empty_inner_dimension_is_zero() {
    let mut g = TensorGraph::new(0.0);
    let a = Tensor::new(&mut g, vec![], vec![2, 0]);
    let b = Tensor::new(&mut g, vec![], vec![0, 3]);
    let c = a.matmul(&b, &mut g, &plus, &times);
    assert_eq!(g.node(c).data, vec![0.0; 6]);
    assert_eq!(g.node(c).shape, vec![2, 3]);
}
