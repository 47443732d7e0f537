//! Shapes of row-major tensors and the shape rules of the tensor operations.
use vstd::prelude::*;

verus! {

/// The number of elements of a tensor of shape `shape`: the product of its dimensions.
pub open spec fn shape_size(shape: Seq<usize>) -> nat
    decreases shape.len(),
{
    if shape.len() == 0 {
        1
    } else {
        shape_size(shape.drop_last()) * (shape.last() as nat)
    }
}

/// Why a shape, or a pair of shapes, is refused.
#[derive(Clone, Copy, Debug, PartialEq, Eq, Structural)]
pub enum ShapeError {
    /// The shape holds more elements than a `usize` counts.
    SizeOverflow,
    /// The data has `len` elements where the shape needs `expected`.
    LengthMismatch { len: usize, expected: usize },
    /// The shapes of an addition are neither equal nor a matrix and a row.
    AddMismatch,
    /// The shapes of an elementwise product differ.
    MulMismatch,
    /// The left operand of a matrix product is not 2-D.
    LeftNotMatrix,
    /// The right operand of a matrix product is not 2-D.
    RightNotMatrix,
    /// The inner dimensions of a matrix product differ.
    InnerMismatch,
}

impl ShapeError {
    /// A description of the refusal.
    pub fn message(&self) -> (m: &'static str)
        ensures
            m@ == (match self {
                ShapeError::SizeOverflow => "shape holds more elements than usize counts"@,
                ShapeError::LengthMismatch { .. } => "data length doesn't match shape"@,
                ShapeError::AddMismatch => "add: shape mismatch"@,
                ShapeError::MulMismatch => "mul: shape mismatch"@,
                ShapeError::LeftNotMatrix => "matmul: left tensor must be 2-D"@,
                ShapeError::RightNotMatrix => "matmul: right tensor must be 2-D"@,
                ShapeError::InnerMismatch => "matmul: inner dimensions must match"@,
            }),
    {
        match self {
            ShapeError::SizeOverflow => "shape holds more elements than usize counts",
            ShapeError::LengthMismatch { .. } => "data length doesn't match shape",
            ShapeError::AddMismatch => "add: shape mismatch",
            ShapeError::MulMismatch => "mul: shape mismatch",
            ShapeError::LeftNotMatrix => "matmul: left tensor must be 2-D",
            ShapeError::RightNotMatrix => "matmul: right tensor must be 2-D",
            ShapeError::InnerMismatch => "matmul: inner dimensions must match",
        }
    }
}

/// How the right operand of an addition lines up with the left one.
#[derive(Clone, Copy, Debug, PartialEq, Eq, Structural)]
pub enum AddLayout {
    /// Both operands have the same shape; elements are added pairwise.
    Same,
    /// The left operand is a matrix with this many columns and the right one a row of
    /// that length, added to every row of the matrix.
    RowBroadcast(usize),
}

/// The dimensions of a matrix product `[rows, inner] x [inner, cols]`.
#[derive(Clone, Copy, Debug, PartialEq, Eq, Structural)]
pub struct MatmulDims {
    pub rows: usize,
    pub inner: usize,
    pub cols: usize,
}

/// The addition rule: equal shapes add pairwise; a matrix `[r, c]` and a row `[c]` add
/// the row to each row of the matrix; anything else is refused.
pub open spec fn add_rule(left: Seq<usize>, right: Seq<usize>) -> Result<AddLayout, ShapeError> {
    if left == right {
        Ok(AddLayout::Same)
    } else if left.len() == 2 && right.len() == 1 && left[1] == right[0] {
        Ok(AddLayout::RowBroadcast(right[0]))
    } else {
        Err(ShapeError::AddMismatch)
    }
}

/// The matrix product rule: both operands 2-D, checked left first, with equal inner
/// dimensions.
pub open spec fn matmul_rule(left: Seq<usize>, right: Seq<usize>) -> Result<MatmulDims, ShapeError> {
    if left.len() != 2 {
        Err(ShapeError::LeftNotMatrix)
    } else if right.len() != 2 {
        Err(ShapeError::RightNotMatrix)
    } else if left[1] != right[0] {
        Err(ShapeError::InnerMismatch)
    } else {
        Ok(MatmulDims { rows: left[0], inner: left[1], cols: right[1] })
    }
}

/// A shape with a zero dimension holds no element.
proof fn lemma_size_zero(shape: Seq<usize>)
    requires
        exists|i: int| 0 <= i < shape.len() && shape[i] == 0,
    ensures
        shape_size(shape) == 0,
    decreases shape.len(),
{
    let i = choose|i: int| 0 <= i < shape.len() && shape[i] == 0;
    let a = shape_size(shape.drop_last());
    let b = shape.last() as nat;
    if i < shape.len() - 1 {
        assert(shape.drop_last()[i] == 0);
        lemma_size_zero(shape.drop_last());
        assert(a * b == 0) by (nonlinear_arith)
            requires
                a == 0,
        ;
    } else {
        assert(a * b == 0) by (nonlinear_arith)
            requires
                b == 0,
        ;
    }
}

/// Without a zero dimension, no prefix of a shape holds more elements than the whole.
proof fn lemma_size_monotone(shape: Seq<usize>, n: int)
    requires
        0 <= n <= shape.len(),
        forall|i: int| 0 <= i < shape.len() ==> shape[i] > 0,
    ensures
        shape_size(shape.take(n)) <= shape_size(shape),
        shape_size(shape) >= 1,
    decreases shape.len(),
{
    if shape.len() > 0 {
        let d = shape.drop_last();
        lemma_size_monotone(d, if n == shape.len() { 0 } else { n });
        let a = shape_size(d);
        let b = shape.last() as nat;
        assert(a * b >= a) by (nonlinear_arith)
            requires
                b >= 1,
        ;
        assert(a * b >= 1) by (nonlinear_arith)
            requires
                b >= 1,
                a >= 1,
        ;
        if n == shape.len() {
            assert(shape.take(n) =~= shape);
        } else {
            assert(d.take(n) =~= shape.take(n));
        }
    } else {
        assert(shape.take(n) =~= shape);
    }
}

/// The number of elements of a tensor of shape `shape`, where a `usize` counts it.
pub fn element_count(shape: &Vec<usize>) -> (r: Option<usize>)
    ensures
        r == (if shape_size(shape@) <= usize::MAX {
            Some(shape_size(shape@) as usize)
        } else {
            None::<usize>
        }),
{
    let mut i: usize = 0;
    while i < shape.len()
        invariant
            i <= shape.len(),
            forall|j: int| 0 <= j < i ==> shape@[j] > 0,
        decreases shape.len() - i,
    {
        if shape[i] == 0 {
            proof {
                lemma_size_zero(shape@);
            }
            return Some(0);
        }
        i += 1;
    }
    let mut count: usize = 1;
    let mut k: usize = 0;
    assert(shape@.take(0) =~= Seq::<usize>::empty());
    while k < shape.len()
        invariant
            k <= shape.len(),
            forall|j: int| 0 <= j < shape.len() ==> shape@[j] > 0,
            count == shape_size(shape@.take(k as int)),
        decreases shape.len() - k,
    {
        assert(shape@.take(k + 1).drop_last() =~= shape@.take(k as int));
        let d = shape[k];
        match count.checked_mul(d) {
            Some(c) => {
                count = c;
            },
            None => {
                proof {
                    lemma_size_monotone(shape@, k + 1);
                }
                return None;
            },
        }
        k += 1;
    }
    assert(shape@.take(k as int) =~= shape@);
    Some(count)
}

/// The check that data of length `len` fills a tensor of shape `shape`; on success, the
/// number of elements.
pub fn check_shape(len: usize, shape: &Vec<usize>) -> (r: Result<usize, ShapeError>)
    ensures
        r == (if shape_size(shape@) > usize::MAX {
            Err(ShapeError::SizeOverflow)
        } else if shape_size(shape@) != len {
            Err(ShapeError::LengthMismatch { len, expected: shape_size(shape@) as usize })
        } else {
            Ok(len)
        }),
{
    match element_count(shape) {
        None => Err(ShapeError::SizeOverflow),
        Some(expected) => if expected != len {
            Err(ShapeError::LengthMismatch { len, expected })
        } else {
            Ok(len)
        },
    }
}

/// Whether two shapes are equal.
pub fn same_shape(left: &Vec<usize>, right: &Vec<usize>) -> (r: bool)
    ensures
        r == (left@ == right@),
{
    if left.len() != right.len() {
        return false;
    }
    let mut i: usize = 0;
    while i < left.len()
        invariant
            i <= left.len(),
            left.len() == right.len(),
            forall|j: int| 0 <= j < i ==> left@[j] == right@[j],
        decreases left.len() - i,
    {
        if left[i] != right[i] {
            return false;
        }
        i += 1;
    }
    assert(left@ =~= right@);
    true
}

/// The addition rule on two shapes.
pub fn add_layout(left: &Vec<usize>, right: &Vec<usize>) -> (r: Result<AddLayout, ShapeError>)
    ensures
        r == add_rule(left@, right@),
{
    if same_shape(left, right) {
        Ok(AddLayout::Same)
    } else if left.len() == 2 && right.len() == 1 && left[1] == right[0] {
        Ok(AddLayout::RowBroadcast(right[0]))
    } else {
        Err(ShapeError::AddMismatch)
    }
}

/// The elementwise product rule: the shapes must be equal.
pub fn mul_layout(left: &Vec<usize>, right: &Vec<usize>) -> (r: Result<(), ShapeError>)
    ensures
        r == (if left@ == right@ {
            Ok(())
        } else {
            Err(ShapeError::MulMismatch)
        }),
{
    if same_shape(left, right) {
        Ok(())
    } else {
        Err(ShapeError::MulMismatch)
    }
}

/// The matrix product rule on two shapes.
pub fn matmul_dims(left: &Vec<usize>, right: &Vec<usize>) -> (r: Result<MatmulDims, ShapeError>)
    ensures
        r == matmul_rule(left@, right@),
{
    if left.len() != 2 {
        Err(ShapeError::LeftNotMatrix)
    } else if right.len() != 2 {
        Err(ShapeError::RightNotMatrix)
    } else if left[1] != right[0] {
        Err(ShapeError::InnerMismatch)
    } else {
        Ok(MatmulDims { rows: left[0], inner: left[1], cols: right[1] })
    }
}

} // verus!
