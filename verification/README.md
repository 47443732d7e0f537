# autodiff, verified

Reverse-mode automatic differentiation over scalars and row-major tensors, written in
Verus. The scalar type is generic: the caller supplies its two operations, `plus` and
`times`, as closures (`app/` supplies them for `f64`).

Layout of `src/`:

- `arith.rs` — what the engine asks of a caller's operation (total and deterministic),
  and `apply`, the operation's result in specifications.
- `graph.rs` — node handles, how a node was computed, reachability, and the depth-first
  topological order used by back-propagation, with its laws.
- `value.rs` — the scalar engine: `ValueGraph`, `Value::{new, add, mul, same_node,
  build_topo, propagate, backward}`, the local backward rules and the backward sweep.
- `chain.rs` — the chain rule: over a commutative semiring, back-propagation leaves on
  every node the derivative of the output with respect to it.
- `shape.rs` — shape sizes and the shape rules of tensor sum, product and matrix product.
- `kernel.rs` — loops over flat buffers: pairwise operations, row broadcasting, column
  reduction and strided matrix contraction.
- `tensor.rs` — the tensor engine: `TensorGraph`, `Tensor::{new, add, mul, matmul,
  propagate}` and their local backward rules.

`app/` holds the `f64` instantiation, the shape checks that refuse bad inputs by
panicking, and the neuron demo.
