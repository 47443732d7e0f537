//! Loops over flat row-major buffers: pairwise operations, row broadcasting, column
//! reduction and strided matrix contraction. The scalar arithmetic is the caller's.
use vstd::prelude::*;

use vstd::arithmetic::div_mod::lemma_fundamental_div_mod_converse;
use vstd::arithmetic::mul::lemma_mul_inequality;

use crate::arith::{apply, is_operation, operate};

verus! {

/// `f` applied to the elements of `a` and `b` at each position.
pub open spec fn pairwise<T, F: Fn(T, T) -> T>(a: Seq<T>, b: Seq<T>, f: F) -> Seq<T> {
    Seq::new(a.len(), |i: int| apply(f, a[i], b[i]))
}

/// `f` applied to each element of the matrix `a` and the element of the row `b` in the
/// same column.
pub open spec fn row_broadcast<T, F: Fn(T, T) -> T>(a: Seq<T>, b: Seq<T>, columns: nat, f: F) -> Seq<
    T,
> {
    Seq::new(a.len(), |i: int| apply(f, a[i], b[i % (columns as int)]))
}

/// The sum, from `zero` and in index order, of the elements of `g` before position `n`
/// that lie in column `c` of rows of `columns` elements.
pub open spec fn column_sum<T, P: Fn(T, T) -> T>(
    g: Seq<T>,
    columns: nat,
    c: int,
    n: int,
    zero: T,
    plus: P,
) -> T
    decreases n,
{
    if n <= 0 {
        zero
    } else {
        let prev = column_sum(g, columns, c, n - 1, zero, plus);
        if (n - 1) % (columns as int) == c {
            apply(plus, prev, g[n - 1])
        } else {
            prev
        }
    }
}

/// The sum of each column of `g`, read as rows of `columns` elements.
pub open spec fn column_sums<T, P: Fn(T, T) -> T>(g: Seq<T>, columns: nat, zero: T, plus: P) -> Seq<
    T,
> {
    Seq::new(columns, |c: int| column_sum(g, columns, c, g.len() as int, zero, plus))
}

/// The sum, from `zero` and in order, of the products of `len` pairs of elements, the
/// `k`-th pair being `a[a_base + k * a_step]` and `b[b_base + k * b_step]`.
pub open spec fn dot<T, P: Fn(T, T) -> T, M: Fn(T, T) -> T>(
    a: Seq<T>,
    a_base: int,
    a_step: int,
    b: Seq<T>,
    b_base: int,
    b_step: int,
    len: int,
    zero: T,
    plus: P,
    times: M,
) -> T
    decreases len,
{
    if len <= 0 {
        zero
    } else {
        apply(
            plus,
            dot(a, a_base, a_step, b, b_base, b_step, len - 1, zero, plus, times),
            apply(times, a[a_base + (len - 1) * a_step], b[b_base + (len - 1) * b_step]),
        )
    }
}

/// The `n_i` by `n_j` row-major matrix whose element `(i, j)` is the dot product of
/// length `len` of `a` from `i * a_i` by steps of `a_k` and `b` from `j * b_j` by steps
/// of `b_k`. A matrix product and both of its gradients are such contractions.
pub open spec fn contraction<T, P: Fn(T, T) -> T, M: Fn(T, T) -> T>(
    a: Seq<T>,
    b: Seq<T>,
    n_i: nat,
    n_j: nat,
    len: nat,
    a_i: nat,
    a_k: nat,
    b_j: nat,
    b_k: nat,
    zero: T,
    plus: P,
    times: M,
) -> Seq<T> {
    Seq::new(
        n_i * n_j,
        |p: int|
            dot(
                a,
                (p / (n_j as int)) * a_i,
                a_k as int,
                b,
                (p % (n_j as int)) * b_j,
                b_k as int,
                len as int,
                zero,
                plus,
                times,
            ),
    )
}

/// A sequence of `n` copies of `x`.
pub fn filled<T: Copy>(x: T, n: usize) -> (v: Vec<T>)
    ensures
        v@ == Seq::new(n as nat, |i: int| x),
{
    let mut v: Vec<T> = Vec::new();
    while v.len() < n
        invariant
            v.len() <= n,
            forall|i: int| 0 <= i < v.len() ==> v@[i] == x,
        decreases n - v.len(),
    {
        v.push(x);
    }
    assert(v@ =~= Seq::new(n as nat, |i: int| x));
    v
}

/// `f` applied to the elements of `a` and `b` at each position.
pub fn zip_with<T: Copy, F: Fn(T, T) -> T>(a: &Vec<T>, b: &Vec<T>, f: &F) -> (out: Vec<T>)
    requires
        a.len() == b.len(),
        is_operation(*f),
    ensures
        out@ == pairwise(a@, b@, *f),
{
    let mut out: Vec<T> = Vec::new();
    let mut i: usize = 0;
    while i < a.len()
        invariant
            i <= a.len(),
            a.len() == b.len(),
            is_operation(*f),
            out.len() == i,
            forall|j: int| 0 <= j < i ==> out@[j] == apply(*f, a@[j], b@[j]),
        decreases a.len() - i,
    {
        out.push(operate(f, a[i], b[i]));
        i += 1;
    }
    assert(out@ =~= pairwise(a@, b@, *f));
    out
}

/// `f` applied to each element of the matrix `a` and the element of the row `b` in the
/// same column; the row has `columns` elements.
pub fn broadcast_rows<T: Copy, F: Fn(T, T) -> T>(a: &Vec<T>, b: &Vec<T>, columns: usize, f: &F) -> (out: Vec<T>)
    requires
        b.len() == columns,
        columns > 0 || a.len() == 0,
        is_operation(*f),
    ensures
        out@ == row_broadcast(a@, b@, columns as nat, *f),
{
    let mut out: Vec<T> = Vec::new();
    let mut i: usize = 0;
    while i < a.len()
        invariant
            i <= a.len(),
            b.len() == columns,
            columns > 0 || a.len() == 0,
            is_operation(*f),
            out.len() == i,
            forall|j: int| 0 <= j < i ==> out@[j] == apply(*f, a@[j], b@[j % (columns as int)]),
        decreases a.len() - i,
    {
        out.push(operate(f, a[i], b[i % columns]));
        i += 1;
    }
    assert(out@ =~= row_broadcast(a@, b@, columns as nat, *f));
    out
}

/// The sum of each column of `g`, read as rows of `columns` elements, each sum taken
/// from `zero` in index order.
pub fn reduce_columns<T: Copy, P: Fn(T, T) -> T>(g: &Vec<T>, columns: usize, zero: T, plus: &P) -> (out: Vec<T>)
    requires
        columns > 0 || g.len() == 0,
        is_operation(*plus),
    ensures
        out@ == column_sums(g@, columns as nat, zero, *plus),
{
    let mut out = filled(zero, columns);
    let mut i: usize = 0;
    while i < g.len()
        invariant
            i <= g.len(),
            columns > 0 || g.len() == 0,
            is_operation(*plus),
            out.len() == columns,
            forall|c: int|
                0 <= c < columns ==> out@[c] == #[trigger] column_sum(
                    g@,
                    columns as nat,
                    c,
                    i as int,
                    zero,
                    *plus,
                ),
        decreases g.len() - i,
    {
        let c = i % columns;
        let s = operate(plus, out[c], g[i]);
        out.set(c, s);
        assert forall|d: int| 0 <= d < columns implies out@[d] == #[trigger] column_sum(
            g@,
            columns as nat,
            d,
            i + 1,
            zero,
            *plus,
        ) by {
            assert(column_sum(g@, columns as nat, d, i + 1, zero, *plus) == (if (i as int)
                % (columns as int) == d {
                apply(*plus, column_sum(g@, columns as nat, d, i as int, zero, *plus), g@[i as int])
            } else {
                column_sum(g@, columns as nat, d, i as int, zero, *plus)
            }));
        }
        i += 1;
    }
    assert(out@ =~= column_sums(g@, columns as nat, zero, *plus));
    out
}

/// The dot product of `len` pairs: `a` from `a_base` by steps of `a_step`, `b` from
/// `b_base` by steps of `b_step`, summed from `zero` in order.
pub fn dot_product<T: Copy, P: Fn(T, T) -> T, M: Fn(T, T) -> T>(
    a: &Vec<T>,
    a_base: usize,
    a_step: usize,
    b: &Vec<T>,
    b_base: usize,
    b_step: usize,
    len: usize,
    zero: T,
    plus: &P,
    times: &M,
) -> (r: T)
    requires
        len > 0 ==> a_base + (len - 1) * a_step < a.len(),
        len > 0 ==> b_base + (len - 1) * b_step < b.len(),
        is_operation(*plus),
        is_operation(*times),
    ensures
        r == dot(
            a@,
            a_base as int,
            a_step as int,
            b@,
            b_base as int,
            b_step as int,
            len as int,
            zero,
            *plus,
            *times,
        ),
{
    let mut sum = zero;
    let mut k: usize = 0;
    while k < len
        invariant
            k <= len,
            len > 0 ==> a_base + (len - 1) * a_step < a.len(),
            len > 0 ==> b_base + (len - 1) * b_step < b.len(),
            is_operation(*plus),
            is_operation(*times),
            sum == dot(
                a@,
                a_base as int,
                a_step as int,
                b@,
                b_base as int,
                b_step as int,
                k as int,
                zero,
                *plus,
                *times,
            ),
        decreases len - k,
    {
        proof {
            lemma_mul_inequality(k as int, len - 1, a_step as int);
            lemma_mul_inequality(k as int, len - 1, b_step as int);
        }
        let x = a[a_base + k * a_step];
        let y = b[b_base + k * b_step];
        let prod = operate(times, x, y);
        sum = operate(plus, sum, prod);
        k += 1;
    }
    sum
}

/// The contraction of `a` and `b` into an `n_i` by `n_j` row-major matrix: element
/// `(i, j)` is the dot product of length `len` of `a` from `i * a_i` by steps of `a_k`
/// and `b` from `j * b_j` by steps of `b_k`.
pub fn contract<T: Copy, P: Fn(T, T) -> T, M: Fn(T, T) -> T>(
    a: &Vec<T>,
    b: &Vec<T>,
    n_i: usize,
    n_j: usize,
    len: usize,
    a_i: usize,
    a_k: usize,
    b_j: usize,
    b_k: usize,
    zero: T,
    plus: &P,
    times: &M,
) -> (out: Vec<T>)
    requires
        n_i * n_j <= usize::MAX,
        n_i > 0 && len > 0 ==> (n_i - 1) * a_i + (len - 1) * a_k < a.len(),
        n_j > 0 && len > 0 ==> (n_j - 1) * b_j + (len - 1) * b_k < b.len(),
        is_operation(*plus),
        is_operation(*times),
    ensures
        out@ == contraction(
            a@,
            b@,
            n_i as nat,
            n_j as nat,
            len as nat,
            a_i as nat,
            a_k as nat,
            b_j as nat,
            b_k as nat,
            zero,
            *plus,
            *times,
        ),
{
    let ghost target = contraction(
        a@,
        b@,
        n_i as nat,
        n_j as nat,
        len as nat,
        a_i as nat,
        a_k as nat,
        b_j as nat,
        b_k as nat,
        zero,
        *plus,
        *times,
    );
    let mut out: Vec<T> = Vec::new();
    let mut i: usize = 0;
    while i < n_i
        invariant
            i <= n_i,
            n_i * n_j <= usize::MAX,
            n_i > 0 && len > 0 ==> (n_i - 1) * a_i + (len - 1) * a_k < a.len(),
            n_j > 0 && len > 0 ==> (n_j - 1) * b_j + (len - 1) * b_k < b.len(),
            is_operation(*plus),
            is_operation(*times),
            out.len() == i * n_j,
            target == contraction(
                a@,
                b@,
                n_i as nat,
                n_j as nat,
                len as nat,
                a_i as nat,
                a_k as nat,
                b_j as nat,
                b_k as nat,
                zero,
                *plus,
                *times,
            ),
            target.len() == n_i * n_j,
            forall|p: int| 0 <= p < out.len() ==> out@[p] == target[p],
        decreases n_i - i,
    {
        proof {
            lemma_mul_inequality(i + 1, n_i as int, n_j as int);
            lemma_mul_inequality(i as int, n_i - 1, a_i as int);
            assert((i + 1) * n_j == i * n_j + n_j) by (nonlinear_arith);
        }
        let mut j: usize = 0;
        while j < n_j
            invariant
                i < n_i,
                j <= n_j,
                n_i * n_j <= usize::MAX,
                (i + 1) * n_j <= n_i * n_j,
                (i + 1) * n_j == i * n_j + n_j,
                i * a_i <= (n_i - 1) * a_i,
                n_i > 0 && len > 0 ==> (n_i - 1) * a_i + (len - 1) * a_k < a.len(),
                n_j > 0 && len > 0 ==> (n_j - 1) * b_j + (len - 1) * b_k < b.len(),
                is_operation(*plus),
                is_operation(*times),
                out.len() == i * n_j + j,
                target == contraction(
                    a@,
                    b@,
                    n_i as nat,
                    n_j as nat,
                    len as nat,
                    a_i as nat,
                    a_k as nat,
                    b_j as nat,
                    b_k as nat,
                    zero,
                    *plus,
                    *times,
                ),
                target.len() == n_i * n_j,
                forall|p: int| 0 <= p < out.len() ==> out@[p] == target[p],
            decreases n_j - j,
        {
            proof {
                lemma_mul_inequality(j as int, n_j - 1, b_j as int);
            }
            // An empty dot product reads nothing, so its bases need no bound.
            let a_base = if len == 0 {
                0
            } else {
                i * a_i
            };
            let b_base = if len == 0 {
                0
            } else {
                j * b_j
            };
            let x = dot_product(
                a,
                a_base,
                a_k,
                b,
                b_base,
                b_k,
                len,
                zero,
                plus,
                times,
            );
            proof {
                lemma_contraction_element(
                    a@,
                    b@,
                    n_i as nat,
                    n_j as nat,
                    len as nat,
                    a_i as nat,
                    a_k as nat,
                    b_j as nat,
                    b_k as nat,
                    zero,
                    *plus,
                    *times,
                    i as int,
                    j as int,
                );
                assert(target[i * n_j + j] == x);
            }
            out.push(x);
            j += 1;
        }
        i += 1;
    }
    proof {
        assert(out.len() == n_i * n_j);
    }
    assert(out@ =~= target);
    out
}

/// Element `(i, j)` of a contraction is the dot product for row `i` and column `j`.
pub proof fn lemma_contraction_element<T, P: Fn(T, T) -> T, M: Fn(T, T) -> T>(
    a: Seq<T>,
    b: Seq<T>,
    n_i: nat,
    n_j: nat,
    len: nat,
    a_i: nat,
    a_k: nat,
    b_j: nat,
    b_k: nat,
    zero: T,
    plus: P,
    times: M,
    i: int,
    j: int,
)
    requires
        0 <= i < n_i,
        0 <= j < n_j,
    ensures
        i * n_j + j < n_i * n_j,
        contraction(a, b, n_i, n_j, len, a_i, a_k, b_j, b_k, zero, plus, times)[i * n_j + j]
            == dot(a, i * a_i, a_k as int, b, j * b_j, b_k as int, len as int, zero, plus, times),
{
    lemma_fundamental_div_mod_converse(i * n_j + j, n_j as int, i, j);
    lemma_mul_inequality(i + 1, n_i as int, n_j as int);
    assert((i + 1) * n_j == i * n_j + n_j) by (nonlinear_arith);
}

/// The sum, from `zero` and in row order, of the elements in column `c` of the first
/// `rows` rows of `g`, read as rows of `columns` elements.
pub open spec fn down_column<T, P: Fn(T, T) -> T>(
    g: Seq<T>,
    columns: nat,
    c: int,
    rows: int,
    zero: T,
    plus: P,
) -> T
    decreases rows,
{
    if rows <= 0 {
        zero
    } else {
        apply(plus, down_column(g, columns, c, rows - 1, zero, plus), g[(rows - 1) * columns + c])
    }
}

/// Within row `r`, the running column sum has taken in column `c` of row `r` once past it.
proof fn lemma_column_sum_in_row<T, P: Fn(T, T) -> T>(
    g: Seq<T>,
    columns: nat,
    c: int,
    r: int,
    m: int,
    zero: T,
    plus: P,
)
    requires
        0 <= c < columns,
        0 <= r,
        0 <= m <= columns,
        column_sum(g, columns, c, r * columns, zero, plus) == down_column(g, columns, c, r, zero, plus),
    ensures
        column_sum(g, columns, c, r * columns + m, zero, plus) == (if m > c {
            down_column(g, columns, c, r + 1, zero, plus)
        } else {
            down_column(g, columns, c, r, zero, plus)
        }),
    decreases m,
{
    if m > 0 {
        lemma_column_sum_in_row(g, columns, c, r, m - 1, zero, plus);
        assert(r * columns >= 0) by (nonlinear_arith)
            requires
                r >= 0,
                columns >= 0,
        ;
        lemma_fundamental_div_mod_converse(r * columns + m - 1, columns as int, r, m - 1);
    }
}

/// Reducing the columns of a matrix of `rows` rows sums each column down the rows in
/// order: what the gradient of a row added to every row of a matrix receives.
pub proof fn lemma_column_sums_down_rows<T, P: Fn(T, T) -> T>(
    g: Seq<T>,
    columns: nat,
    rows: nat,
    zero: T,
    plus: P,
)
    requires
        g.len() == rows * columns,
    ensures
        column_sums(g, columns, zero, plus).len() == columns,
        forall|c: int|
            0 <= c < columns ==> #[trigger] column_sums(g, columns, zero, plus)[c] == down_column(
                g,
                columns,
                c,
                rows as int,
                zero,
                plus,
            ),
{
    assert forall|c: int| 0 <= c < columns implies #[trigger] column_sums(
        g,
        columns,
        zero,
        plus,
    )[c] == down_column(g, columns, c, rows as int, zero, plus) by {
        lemma_column_sum_rows(g, columns, c, rows as int, zero, plus);
    }
}

proof fn lemma_column_sum_rows<T, P: Fn(T, T) -> T>(
    g: Seq<T>,
    columns: nat,
    c: int,
    r: int,
    zero: T,
    plus: P,
)
    requires
        0 <= c < columns,
        0 <= r,
    ensures
        column_sum(g, columns, c, r * columns, zero, plus) == down_column(g, columns, c, r, zero, plus),
    decreases r,
{
    if r > 0 {
        lemma_column_sum_rows(g, columns, c, r - 1, zero, plus);
        lemma_column_sum_in_row(g, columns, c, r - 1, columns as int, zero, plus);
        assert((r - 1) * columns + columns == r * columns) by (nonlinear_arith);
    } else {
        assert(r * columns == 0) by (nonlinear_arith)
            requires
                r == 0,
        ;
    }
}

} // verus!
